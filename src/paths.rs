//! Paths as character sequences with `/` as separator.
use vstd::prelude::*;
use vstd::string::*;

verus! {

/// Index of the last `/` in `s`, or -1 when there is none.
pub open spec fn last_slash(s: Seq<char>) -> int
    decreases s.len(),
{
    if s.len() == 0 {
        -1
    } else if s.last() == '/' {
        s.len() - 1
    } else {
        last_slash(s.drop_last())
    }
}

/// `name` appended to `base` as a new last component.
pub open spec fn join_spec(base: Seq<char>, name: Seq<char>) -> Seq<char> {
    if base.len() == 0 {
        name
    } else if base.last() == '/' {
        base + name
    } else {
        base + seq!['/'] + name
    }
}

/// The last component of `p`: what follows its last `/`.
pub open spec fn file_name_spec(p: Seq<char>) -> Seq<char> {
    p.subrange(last_slash(p) + 1, p.len() as int)
}

/// The directory that holds `p`: what precedes its last `/`, the root
/// when that `/` is the first character, and the empty path when `p`
/// has no `/`.
pub open spec fn parent_spec(p: Seq<char>) -> Seq<char> {
    let k = last_slash(p);
    if k < 0 {
        Seq::empty()
    } else if k == 0 {
        seq!['/']
    } else {
        p.subrange(0, k)
    }
}

pub open spec fn has_suffix(s: Seq<char>, suffix: Seq<char>) -> bool {
    suffix.len() <= s.len() && s.subrange(s.len() - suffix.len(), s.len() as int) == suffix
}

pub open spec fn has_prefix(s: Seq<char>, prefix: Seq<char>) -> bool {
    prefix.len() <= s.len() && s.subrange(0, prefix.len() as int) == prefix
}

/// `path` written relative to `base`, component-wise, if `base` leads to it.
pub open spec fn relative_spec(path: Seq<char>, base: Seq<char>) -> Option<Seq<char>> {
    if base.len() == 0 {
        Some(path)
    } else if path == base {
        Some(Seq::empty())
    } else if base.last() == '/' && has_prefix(path, base) {
        Some(path.subrange(base.len() as int, path.len() as int))
    } else if has_prefix(path, base + seq!['/']) {
        Some(path.subrange(base.len() as int + 1, path.len() as int))
    } else {
        None
    }
}

proof fn lemma_last_slash_prefix(s: Seq<char>, i: int)
    requires
        0 <= i <= s.len(),
        forall|k: int| i <= k < s.len() ==> s[k] != '/',
    ensures
        last_slash(s) == last_slash(s.subrange(0, i)),
    decreases s.len() - i,
{
    if i < s.len() {
        assert(s.drop_last() == s.subrange(0, s.len() - 1));
        lemma_last_slash_prefix(s.drop_last(), i);
        assert(s.drop_last().subrange(0, i) == s.subrange(0, i));
    } else {
        assert(s.subrange(0, i) == s);
    }
}

proof fn lemma_last_slash_bounds(s: Seq<char>)
    ensures
        -1 <= last_slash(s) < s.len(),
        last_slash(s) >= 0 ==> s[last_slash(s)] == '/',
    decreases s.len(),
{
    if s.len() > 0 && s.last() != '/' {
        lemma_last_slash_bounds(s.drop_last());
    }
}

/// Position of the last `/` in `s`.
pub fn find_last_slash(s: &str) -> (r: Option<usize>)
    ensures
        match r {
            Some(k) => last_slash(s@) == k as int,
            None => last_slash(s@) == -1,
        },
{
    let n = s.unicode_len();
    let mut i = n;
    while i > 0
        invariant
            n == s@.len(),
            i <= n,
            forall|k: int| i <= k < n ==> s@[k] != '/',
        decreases i,
    {
        if s.get_char(i - 1) == '/' {
            proof {
                lemma_last_slash_prefix(s@, i as int);
                assert(s@.subrange(0, i as int).last() == '/');
            }
            return Some(i - 1);
        }
        i = i - 1;
    }
    proof {
        lemma_last_slash_prefix(s@, 0);
        assert(s@.subrange(0, 0).len() == 0);
    }
    None
}

/// `name` appended to `base` as a new last component.
pub fn join(base: &str, name: &str) -> (r: String)
    ensures
        r@ == join_spec(base@, name@),
{
    let n = base.unicode_len();
    if n == 0 {
        return name.to_owned();
    }
    if base.get_char(n - 1) == '/' {
        base.to_owned().concat(name)
    } else {
        let sep = "/";
        proof {
            reveal_strlit("/");
        }
        base.to_owned().concat(sep).concat(name)
    }
}

/// The last component of `p`.
pub fn file_name(p: &str) -> (r: String)
    ensures
        r@ == file_name_spec(p@),
{
    proof {
        lemma_last_slash_bounds(p@);
    }
    let n = p.unicode_len();
    match find_last_slash(p) {
        Some(k) => p.substring_char(k + 1, n).to_owned(),
        None => p.substring_char(0, n).to_owned(),
    }
}

/// The directory that holds `p`.
pub fn parent(p: &str) -> (r: String)
    ensures
        r@ == parent_spec(p@),
{
    proof {
        lemma_last_slash_bounds(p@);
    }
    match find_last_slash(p) {
        Some(k) => {
            if k == 0 {
                proof {
                    reveal_strlit("/");
                }
                "/".to_owned()
            } else {
                p.substring_char(0, k).to_owned()
            }
        },
        None => String::new(),
    }
}

/// Whether `s` ends with `suffix`.
pub fn ends_with(s: &str, suffix: &str) -> (r: bool)
    ensures
        r == has_suffix(s@, suffix@),
{
    let n = s.unicode_len();
    let m = suffix.unicode_len();
    if m > n {
        return false;
    }
    let tail = s.substring_char(n - m, n).to_owned();
    tail == suffix.to_owned()
}

/// Whether `s` starts with `prefix`.
pub fn starts_with(s: &str, prefix: &str) -> (r: bool)
    ensures
        r == has_prefix(s@, prefix@),
{
    let n = s.unicode_len();
    let m = prefix.unicode_len();
    if m > n {
        return false;
    }
    let head = s.substring_char(0, m).to_owned();
    head == prefix.to_owned()
}

/// `path` written relative to `base`, if `base` leads to it.
pub fn relative_to(path: &str, base: &str) -> (r: Option<String>)
    ensures
        match r {
            Some(rel) => relative_spec(path@, base@) == Some(rel@),
            None => relative_spec(path@, base@) is None,
        },
{
    let n = path.unicode_len();
    let m = base.unicode_len();
    if m == 0 {
        return Some(path.to_owned());
    }
    if path.to_owned() == base.to_owned() {
        return Some(String::new());
    }
    if base.get_char(m - 1) == '/' {
        if starts_with(path, base) {
            return Some(path.substring_char(m, n).to_owned());
        }
        proof {
            if has_prefix(path@, base@ + seq!['/']) {
                assert(path@.subrange(0, m as int) == (base@ + seq!['/']).subrange(0, m as int));
                assert((base@ + seq!['/']).subrange(0, m as int) == base@);
            }
        }
        return None;
    }
    proof {
        reveal_strlit("/");
    }
    let with_sep = base.to_owned().concat("/");
    assert(with_sep@ == base@ + seq!['/']);
    if starts_with(path, with_sep.as_str()) {
        Some(path.substring_char(m + 1, n).to_owned())
    } else {
        None
    }
}

} // verus!
