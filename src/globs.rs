//! Compiled glob sets.
use vstd::prelude::*;

use globset::{Glob, GlobSet};

pub use globset::Error as GlobError;

verus! {

#[verifier::external_type_specification]
#[verifier::external_body]
pub struct ExGlobSet(GlobSet);

#[verifier::external_type_specification]
#[verifier::external_body]
pub struct ExGlobError(globset::Error);

/// Whether a glob set compiled from `patterns` matches `path`.
pub uninterp spec fn glob_set_matches(patterns: Seq<Seq<char>>, path: Seq<char>) -> bool;

pub open spec fn patterns_view(v: Seq<String>) -> Seq<Seq<char>> {
    v.map_values(|s: String| s@)
}

/// Whether compiling `patterns` into one glob set succeeds: every pattern
/// is a valid glob and the set's matcher can be built.
pub uninterp spec fn globs_compile(patterns: Seq<Seq<char>>) -> bool;

/// Relies on `Glob::new` for each pattern, then `GlobSet::new` on the
/// results: whether that succeeds depends on the patterns alone.
#[verifier::external_body]
fn glob_set_of(patterns: &Vec<String>) -> (r: Result<GlobSet, GlobError>)
    ensures
        r is Ok <==> globs_compile(patterns_view(patterns@)),
{
    let globs = patterns.iter().map(|p| Glob::new(p)).collect::<Result<Vec<Glob>, GlobError>>()?;
    GlobSet::new(globs)
}

/// Relies on `GlobSet::empty`: a set that matches nothing.
#[verifier::external_body]
fn glob_set_empty() -> (r: GlobSet) {
    GlobSet::empty()
}

/// A set of glob patterns together with its compiled form. The compiled
/// form is built here, from the patterns held beside it, and nowhere else.
pub struct Globs {
    patterns: Vec<String>,
    set: GlobSet,
}

impl View for Globs {
    type V = Seq<Seq<char>>;

    closed spec fn view(&self) -> Seq<Seq<char>> {
        patterns_view(self.patterns@)
    }
}

impl Globs {
    /// The set without patterns.
    pub fn empty() -> (r: Globs)
        ensures
            r@ == Seq::<Seq<char>>::empty(),
    {
        let r = Globs { patterns: Vec::new(), set: glob_set_empty() };
        assert(patterns_view(r.patterns@) =~= Seq::<Seq<char>>::empty());
        r
    }

    /// Compiles `patterns` into one set.
    pub fn compile(patterns: &Vec<String>) -> (r: Result<Globs, GlobError>)
        ensures
            r is Ok <==> globs_compile(patterns_view(patterns@)),
            r is Ok ==> r->Ok_0@ == patterns_view(patterns@),
    {
        let set = glob_set_of(patterns)?;
        let mut kept: Vec<String> = Vec::new();
        for i in 0..patterns.len()
            invariant
                kept@.len() == i,
                forall|k: int| 0 <= k < i ==> (#[trigger] kept@[k])@ == patterns@[k]@,
        {
            kept.push(patterns[i].clone());
        }
        assert(patterns_view(kept@) =~= patterns_view(patterns@));
        Ok(Globs { patterns: kept, set })
    }

    /// Relies on `GlobSet::is_match`: whether any pattern of the set matches
    /// `path`; a set without patterns matches nothing.
    #[verifier::external_body]
    pub(crate) fn is_match(&self, path: &str) -> (r: bool)
        ensures
            r == glob_set_matches(self@, path@),
            self@.len() == 0 ==> !r,
    {
        self.set.is_match(path)
    }
}

} // verus!
