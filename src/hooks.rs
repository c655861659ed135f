//! What hook scripts are handed at the four lifecycle points of a commit.
use vstd::prelude::*;

use crate::paths::{ends_with, has_suffix};

verus! {

/// Views a list of strings as a sequence of character sequences.
pub open spec fn strings_view(v: Seq<String>) -> Seq<Seq<char>> {
    v.map_values(|s: String| s@)
}

/// Handed to the hooks that run before and after the whole commit.
pub struct ApplyAllContext {
    pub repo: String,
    pub paths: Vec<String>,
}

pub struct ApplyAllView {
    pub repo: Seq<char>,
    pub paths: Seq<Seq<char>>,
}

impl View for ApplyAllContext {
    type V = ApplyAllView;

    open spec fn view(&self) -> ApplyAllView {
        ApplyAllView { repo: self.repo@, paths: strings_view(self.paths@) }
    }
}

/// Handed to the hooks that run around the write of one file.
pub struct ApplyEachContext {
    pub repo: String,
    pub src: String,
    pub dst: String,
}

pub struct ApplyEachView {
    pub repo: Seq<char>,
    pub src: Seq<char>,
    pub dst: Seq<char>,
}

impl View for ApplyEachContext {
    type V = ApplyEachView;

    open spec fn view(&self) -> ApplyEachView {
        ApplyEachView { repo: self.repo@, src: self.src@, dst: self.dst@ }
    }
}

pub open spec fn hook_suffix() -> Seq<char> {
    seq!['.', 'h', 'o', 'o', 'k', '.', 'l', 'u', 'a']
}

/// Whether a file of the hooks directory is a hook script, by its name.
pub fn is_hook_file_name(name: &str) -> (r: bool)
    ensures
        r == has_suffix(name@, hook_suffix()),
{
    let suffix = ".hook.lua";
    proof {
        reveal_strlit(".hook.lua");
        assert(suffix@ == hook_suffix());
    }
    ends_with(name, suffix)
}

} // verus!
