//! The content tree: how a source directory becomes a tree of entries, and
//! how that tree becomes an ordered list of staged writes.
use vstd::prelude::*;

use std::rc::Rc;
use vstd::string::*;

use crate::globs::{glob_set_matches, globs_compile, patterns_view, GlobError, Globs};
use crate::paths::{
    file_name, file_name_spec, has_suffix, join, join_spec, relative_spec, relative_to,
};

verus! {

/// Which list of patterns a directory's descriptor applies.
#[derive(PartialEq, Eq, Structural, Clone, Copy, Debug)]
pub enum Mode {
    Include,
    Exclude,
}

impl Default for Mode {
    fn default() -> (r: Mode)
        ensures
            r == Mode::Exclude,
    {
        Mode::Exclude
    }
}

/// What a directory descriptor says: where the directory's contents go,
/// and which of them are read.
pub struct RootDirData {
    /// Destination directory, as a template.
    pub path: String,
    pub mode: Mode,
    /// Patterns of entries left out in Exclude mode.
    pub excluded: Vec<String>,
    /// Patterns of the only entries read in Include mode.
    pub included: Vec<String>,
}

pub struct RootView {
    pub path: Seq<char>,
    pub mode: Mode,
    pub excluded: Seq<Seq<char>>,
    pub included: Seq<Seq<char>>,
}

impl View for RootDirData {
    type V = RootView;

    open spec fn view(&self) -> RootView {
        RootView {
            path: self.path@,
            mode: self.mode,
            excluded: patterns_view(self.excluded@),
            included: patterns_view(self.included@),
        }
    }
}

/// The filter that decides which entries of a directory are read.
pub enum ReadMode {
    /// Only entries that match are read.
    Include(Globs),
    /// Entries that match are left out.
    Exclude(Globs),
}

pub enum ReadModeView {
    Include(Seq<Seq<char>>),
    Exclude(Seq<Seq<char>>),
}

impl View for ReadMode {
    type V = ReadModeView;

    open spec fn view(&self) -> ReadModeView {
        match self {
            ReadMode::Include(g) => ReadModeView::Include(g@),
            ReadMode::Exclude(g) => ReadModeView::Exclude(g@),
        }
    }
}

/// Whether `mode` lets the entry at relative path `rel` be read.
pub open spec fn mode_admits(mode: ReadModeView, rel: Seq<char>) -> bool {
    match mode {
        ReadModeView::Include(p) => glob_set_matches(p, rel),
        ReadModeView::Exclude(p) => p.len() == 0 || !glob_set_matches(p, rel),
    }
}

/// The read mode that a descriptor sets.
pub open spec fn read_mode_of(d: RootView) -> ReadModeView {
    match d.mode {
        Mode::Include => ReadModeView::Include(d.included),
        Mode::Exclude => ReadModeView::Exclude(d.excluded),
    }
}

/// The patterns of the list that a descriptor's mode selects.
pub open spec fn selected_patterns(d: RootView) -> Seq<Seq<char>> {
    match d.mode {
        Mode::Include => d.included,
        Mode::Exclude => d.excluded,
    }
}

impl RootDirData {
    /// Compiles the read mode that this descriptor sets.
    pub fn read_mode(&self) -> (r: Result<ReadMode, GlobError>)
        ensures
            r is Ok <==> globs_compile(selected_patterns(self@)),
            r is Ok ==> r->Ok_0@ == read_mode_of(self@),
    {
        match self.mode {
            Mode::Include => Ok(ReadMode::Include(Globs::compile(&self.included)?)),
            Mode::Exclude => Ok(ReadMode::Exclude(Globs::compile(&self.excluded)?)),
        }
    }
}

/// Patterns of the entries that are never read, whatever the mode:
/// version-control metadata, descriptors and configuration scripts.
pub open spec fn always_ignored() -> Seq<Seq<char>> {
    seq!["**/.git"@, "**/dir.{toml,toml.tmpl}"@, "**/silo.{dir,config}.lua"@]
}

/// Where parsing stands: the directory that relative paths start from (the
/// nearest enclosing root), the read mode in force, and the patterns that
/// are never read.
pub struct ParseContext {
    base: String,
    mode: ReadMode,
    ignored: Rc<Globs>,
}

pub struct ContextView {
    pub base: Seq<char>,
    pub mode: ReadModeView,
    pub ignored: Seq<Seq<char>>,
}

impl View for ParseContext {
    type V = ContextView;

    closed spec fn view(&self) -> ContextView {
        ContextView { base: self.base@, mode: self.mode@, ignored: (*self.ignored)@ }
    }
}

/// Whether an entry at relative path `rel` is read under `ctx`.
pub open spec fn admits(ctx: ContextView, rel: Seq<char>) -> bool {
    !glob_set_matches(ctx.ignored, rel) && mode_admits(ctx.mode, rel)
}

impl ParseContext {
    /// The context at the top of a repository rooted at `base`: nothing is
    /// excluded but what is never read.
    pub fn new(base: String) -> (r: Result<ParseContext, GlobError>)
        ensures
            r is Ok <==> globs_compile(always_ignored()),
            r is Ok ==> r->Ok_0@ == (ContextView {
                base: base@,
                mode: ReadModeView::Exclude(Seq::empty()),
                ignored: always_ignored(),
            }),
    {
        let patterns = vec![
            "**/.git".to_owned(),
            "**/dir.{toml,toml.tmpl}".to_owned(),
            "**/silo.{dir,config}.lua".to_owned(),
        ];
        assert(patterns_view(patterns@) =~= always_ignored());
        let ignored = Globs::compile(&patterns)?;
        Ok(ParseContext { base, mode: ReadMode::Exclude(Globs::empty()), ignored: Rc::new(ignored) })
    }

    /// The context below a directory at `dir` whose descriptor sets `mode`.
    fn rooted_at(&self, dir: String, mode: ReadMode) -> (r: ParseContext)
        ensures
            r@ == (ContextView { base: dir@, mode: mode@, ignored: self@.ignored }),
    {
        ParseContext { base: dir, mode, ignored: Rc::clone(&self.ignored) }
    }

    /// Whether the read mode lets the entry at relative path `path` be read.
    pub fn is_included(&self, path: &str) -> (r: bool)
        ensures
            r == mode_admits(self@.mode, path@),
    {
        match &self.mode {
            ReadMode::Include(i) => i.is_match(path),
            ReadMode::Exclude(e) => !e.is_match(path),
        }
    }

    /// Whether the entry at relative path `path` is read: it is not among
    /// what is never read, and the read mode lets it in.
    pub fn admits(&self, path: &str) -> (r: bool)
        ensures
            r == admits(self@, path@),
    {
        !self.ignored.is_match(path) && self.is_included(path)
    }
}

/// Which descriptor files a directory holds.
#[derive(PartialEq, Eq, Structural, Clone, Copy, Debug)]
pub struct DescriptorFiles {
    pub script: bool,
    pub toml: bool,
    pub template: bool,
}

/// One entry of a source directory as the filesystem lists it. A directory
/// tells which descriptor files it holds and carries the contents of the one
/// that governs it (see `select_descriptor`), read and evaluated.
pub enum SourceNode {
    File { name: String },
    Dir {
        name: String,
        found: DescriptorFiles,
        descriptor: Option<RootDirData>,
        children: Vec<SourceNode>,
    },
}

pub open spec fn node_name(n: SourceNode) -> Seq<char> {
    match n {
        SourceNode::File { name } => name@,
        SourceNode::Dir { name, .. } => name@,
    }
}

impl SourceNode {
    pub fn name(&self) -> (r: &String)
        ensures
            r@ == node_name(*self),
    {
        match self {
            SourceNode::File { name } => name,
            SourceNode::Dir { name, .. } => name,
        }
    }
}

/// Which descriptor governs a directory.
#[derive(PartialEq, Eq, Structural, Clone, Copy, Debug)]
pub enum DescriptorKind {
    Script,
    Toml,
    Template,
}

impl DescriptorKind {
    /// The file that holds a descriptor of this kind.
    pub fn file_name(&self) -> (r: &'static str)
        ensures
            *self == DescriptorKind::Script ==> r@ == "silo.dir.lua"@,
            *self == DescriptorKind::Toml ==> r@ == "dir.toml"@,
            *self == DescriptorKind::Template ==> r@ == "dir.toml.tmpl"@,
    {
        match self {
            DescriptorKind::Script => "silo.dir.lua",
            DescriptorKind::Toml => "dir.toml",
            DescriptorKind::Template => "dir.toml.tmpl",
        }
    }
}

/// The descriptor that governs a directory holding the descriptor files
/// `found`: a script wins over a static file, which wins over a template.
pub open spec fn governing_kind(found: DescriptorFiles) -> Option<DescriptorKind> {
    if found.script {
        Some(DescriptorKind::Script)
    } else if found.toml {
        Some(DescriptorKind::Toml)
    } else if found.template {
        Some(DescriptorKind::Template)
    } else {
        None
    }
}

/// The descriptor that governs a directory, given which descriptor files it
/// holds: a script wins over a static file, which wins over a template.
pub fn select_descriptor(script: bool, toml: bool, template: bool) -> (r: Option<DescriptorKind>)
    ensures
        r == governing_kind(DescriptorFiles { script, toml, template }),
        script ==> r == Some(DescriptorKind::Script),
        !script && toml ==> r == Some(DescriptorKind::Toml),
        !script && !toml && template ==> r == Some(DescriptorKind::Template),
        !script && !toml && !template ==> r is None,
{
    if script {
        Some(DescriptorKind::Script)
    } else if toml {
        Some(DescriptorKind::Toml)
    } else if template {
        Some(DescriptorKind::Template)
    } else {
        None
    }
}

/// A file of the content tree.
pub enum FileEntry {
    /// Rendered before it is written; its name ends in `.tmpl`.
    Template(String),
    /// Copied as it is.
    Plain(String),
}

pub enum FileView {
    Template(Seq<char>),
    Plain(Seq<char>),
}

impl View for FileEntry {
    type V = FileView;

    open spec fn view(&self) -> FileView {
        match self {
            FileEntry::Template(p) => FileView::Template(p@),
            FileEntry::Plain(p) => FileView::Plain(p@),
        }
    }
}

pub open spec fn template_suffix() -> Seq<char> {
    seq!['.', 't', 'm', 'p', 'l']
}

/// Whether a file name has the extension `tmpl`: it ends in `.tmpl` and
/// something precedes that.
pub open spec fn is_template_name(name: Seq<char>) -> bool {
    has_suffix(name, template_suffix()) && name.len() > template_suffix().len()
}

/// The name a template is written under: its own without the `.tmpl`.
pub open spec fn rendered_name(name: Seq<char>) -> Seq<char> {
    if is_template_name(name) {
        name.subrange(0, name.len() - template_suffix().len())
    } else {
        name
    }
}

pub open spec fn classify(path: Seq<char>) -> FileView {
    if is_template_name(file_name_spec(path)) {
        FileView::Template(path)
    } else {
        FileView::Plain(path)
    }
}

fn is_template_file_name(name: &str) -> (r: bool)
    ensures
        r == is_template_name(name@),
{
    let suffix = ".tmpl";
    proof {
        reveal_strlit(".tmpl");
        assert(suffix@ == template_suffix());
    }
    crate::paths::ends_with(name, suffix) && name.unicode_len() > 5
}

impl FileEntry {
    /// Classifies the file at `path` by its name.
    pub fn parse(path: String) -> (r: Result<FileEntry, ParseError>)
        ensures
            r is Ok && r->Ok_0@ == classify(path@),
    {
        let name = file_name(path.as_str());
        if is_template_file_name(name.as_str()) {
            Ok(FileEntry::Template(path))
        } else {
            Ok(FileEntry::Plain(path))
        }
    }
}

/// Why parsing stopped, with the path of the directory concerned.
#[derive(Debug)]
pub enum ParseError {
    /// The descriptor of the directory at `path` holds patterns that do not
    /// compile.
    Glob { path: String, error: GlobError },
    /// The directory at `path` holds a descriptor file but no descriptor was
    /// given for it, or the reverse.
    DescriptorMismatch { path: String },
    /// The directory at `path` does not lie under the context's base.
    OutsideBase { path: String },
}

/// A node of the content tree.
pub enum DirEntry {
    File(FileEntry),
    /// A directory without descriptor: its name extends the destination.
    Dir(String, Vec<DirEntry>),
    /// A directory with a descriptor: its contents go where the descriptor
    /// says.
    Root(String, RootDirData, Vec<DirEntry>),
}

pub enum EntryView {
    File(FileView),
    Dir(Seq<char>, Seq<EntryView>),
    Root(Seq<char>, RootView, Seq<EntryView>),
}

pub open spec fn entry_view(e: DirEntry) -> EntryView
    decreases e,
{
    match e {
        DirEntry::File(f) => EntryView::File(f@),
        DirEntry::Dir(p, cs) => EntryView::Dir(p@, entries_view(cs@)),
        DirEntry::Root(p, d, cs) => EntryView::Root(p@, d@, entries_view(cs@)),
    }
}

pub open spec fn entries_view(cs: Seq<DirEntry>) -> Seq<EntryView>
    decreases cs,
{
    if cs.len() == 0 {
        Seq::empty()
    } else {
        entries_view(cs.drop_last()).push(entry_view(cs.last()))
    }
}

/// The tree that parsing `node` at `path` gives, where `rel` is `path`
/// relative to the base of `ctx`.
pub open spec fn parse_node(ctx: ContextView, node: SourceNode, path: Seq<char>, rel: Seq<char>) -> EntryView
    decreases node,
{
    match node {
        SourceNode::File { .. } => EntryView::File(classify(path)),
        SourceNode::Dir { found, descriptor, children, .. } => match descriptor {
            Some(d) if governing_kind(found) is Some => {
                let inner = ContextView { base: path, mode: read_mode_of(d@), ignored: ctx.ignored };
                EntryView::Root(path, d@, parse_children(inner, children@, path, Seq::empty()))
            },
            _ => EntryView::Dir(path, parse_children(ctx, children@, path, rel)),
        },
    }
}

/// The entries that parsing the children `cs` of the directory at `dir`
/// gives, in the order listed, leaving out those that are not read.
pub open spec fn parse_children(ctx: ContextView, cs: Seq<SourceNode>, dir: Seq<char>, rel: Seq<char>) -> Seq<EntryView>
    decreases cs,
{
    if cs.len() == 0 {
        Seq::empty()
    } else {
        let c = cs.last();
        let crel = join_spec(rel, node_name(c));
        let rest = parse_children(ctx, cs.drop_last(), dir, rel);
        if admits(ctx, crel) {
            rest.push(parse_node(ctx, c, join_spec(dir, node_name(c)), crel))
        } else {
            rest
        }
    }
}

/// Whether a directory's descriptor agrees with its descriptor files and,
/// if it has one, the patterns it selects compile.
pub open spec fn descriptor_sound(found: DescriptorFiles, descriptor: Option<RootDirData>) -> bool {
    match descriptor {
        Some(d) => governing_kind(found) is Some && globs_compile(selected_patterns(d@)),
        None => governing_kind(found) is None,
    }
}

/// Whether every directory in `node` has a sound descriptor.
pub open spec fn sound_source(node: SourceNode) -> bool
    decreases node,
{
    match node {
        SourceNode::File { .. } => true,
        SourceNode::Dir { found, descriptor, children, .. } => descriptor_sound(found, descriptor)
            && all_sound(children@),
    }
}

pub open spec fn all_sound(cs: Seq<SourceNode>) -> bool
    decreases cs,
{
    cs.len() == 0 || (all_sound(cs.drop_last()) && sound_source(cs.last()))
}

/// The children of `dir` that are read under `ctx`, in listed order.
pub open spec fn kept_children(ctx: ContextView, cs: Seq<SourceNode>, rel: Seq<char>) -> Seq<SourceNode>
    decreases cs.len(),
{
    if cs.len() == 0 {
        cs
    } else {
        let rest = kept_children(ctx, cs.drop_last(), rel);
        if admits(ctx, join_spec(rel, node_name(cs.last()))) {
            rest.push(cs.last())
        } else {
            rest
        }
    }
}

/// Each child parsed at its own path under `ctx`.
pub open spec fn parse_each(ctx: ContextView, cs: Seq<SourceNode>, dir: Seq<char>, rel: Seq<char>) -> Seq<EntryView> {
    cs.map_values(
        |c: SourceNode|
            parse_node(ctx, c, join_spec(dir, node_name(c)), join_spec(rel, node_name(c))),
    )
}

proof fn lemma_children_closed_form(ctx: ContextView, cs: Seq<SourceNode>, dir: Seq<char>, rel: Seq<char>)
    ensures
        parse_children(ctx, cs, dir, rel) == parse_each(ctx, kept_children(ctx, cs, rel), dir, rel),
    decreases cs.len(),
{
    if cs.len() > 0 {
        lemma_children_closed_form(ctx, cs.drop_last(), dir, rel);
        let kept = kept_children(ctx, cs.drop_last(), rel);
        let c = cs.last();
        if admits(ctx, join_spec(rel, node_name(c))) {
            assert(kept_children(ctx, cs, rel) == kept.push(c));
            assert(parse_each(ctx, kept.push(c), dir, rel) =~= parse_each(ctx, kept, dir, rel).push(
                parse_node(ctx, c, join_spec(dir, node_name(c)), join_spec(rel, node_name(c))),
            ));
        } else {
            assert(kept_children(ctx, cs, rel) == kept);
        }
    } else {
        assert(parse_each(ctx, kept_children(ctx, cs, rel), dir, rel) =~= Seq::<EntryView>::empty());
    }
}

/// A directory without descriptor is never a root: it parses to a plain
/// directory whose entries are those of its children that are read, in the
/// order the filesystem listed them, each parsed under the same context.
pub proof fn lemma_plain_directory_keeps_order(ctx: ContextView, node: SourceNode, path: Seq<char>, rel: Seq<char>)
    requires
        node matches SourceNode::Dir { found, .. } && governing_kind(found) is None,
    ensures
        parse_node(ctx, node, path, rel) == EntryView::Dir(
            path,
            parse_each(ctx, kept_children(ctx, node->children@, rel), path, rel),
        ),
{
    lemma_children_closed_form(ctx, node->children@, path, rel);
}

/// A directory with a descriptor is a root whose children are read under
/// the mode that the descriptor sets, relative to the directory itself. The
/// patterns that are never read carry over unchanged. Together with the
/// lemma on plain directories, the mode governs every descendant until a
/// descriptor further down sets another.
pub proof fn lemma_descriptor_sets_mode(ctx: ContextView, node: SourceNode, path: Seq<char>, rel: Seq<char>)
    requires
        node matches SourceNode::Dir { found, descriptor: Some(_), .. } && governing_kind(found) is Some,
    ensures
        ({
            let d = node->descriptor->0@;
            let inner = ContextView { base: path, mode: read_mode_of(d), ignored: ctx.ignored };
            parse_node(ctx, node, path, rel) == EntryView::Root(
                path,
                d,
                parse_each(inner, kept_children(inner, node->children@, Seq::empty()), path, Seq::empty()),
            )
        }),
{
    let d = node->descriptor->0@;
    let inner = ContextView { base: path, mode: read_mode_of(d), ignored: ctx.ignored };
    lemma_children_closed_form(inner, node->children@, path, Seq::empty());
}

/// An entry whose relative path matches a pattern that is never read is
/// left out, whatever the read mode; so is one that the mode does not let
/// in.
pub proof fn lemma_only_admitted_children_are_kept(ctx: ContextView, cs: Seq<SourceNode>, rel: Seq<char>)
    ensures
        forall|i: int| 0 <= i < kept_children(ctx, cs, rel).len() ==> {
            let r = join_spec(rel, node_name(#[trigger] kept_children(ctx, cs, rel)[i]));
            !glob_set_matches(ctx.ignored, r) && mode_admits(ctx.mode, r)
        },
    decreases cs.len(),
{
    if cs.len() > 0 {
        lemma_only_admitted_children_are_kept(ctx, cs.drop_last(), rel);
        let rest = kept_children(ctx, cs.drop_last(), rel);
        assert forall|i: int| 0 <= i < kept_children(ctx, cs, rel).len() implies ({
            let r = join_spec(rel, node_name(#[trigger] kept_children(ctx, cs, rel)[i]));
            !glob_set_matches(ctx.ignored, r) && mode_admits(ctx.mode, r)
        }) by {
            if i < rest.len() {
                assert(kept_children(ctx, cs, rel)[i] == rest[i]);
            }
        }
    }
}

/// The root context's mode, an Exclude over no patterns, lets every path
/// in: under it an entry is left out only when it matches a pattern that
/// is never read.
pub proof fn lemma_empty_exclude_admits_all(ctx: ContextView, rel: Seq<char>)
    requires
        ctx.mode == ReadModeView::Exclude(Seq::empty()),
    ensures
        mode_admits(ctx.mode, rel),
        admits(ctx, rel) == !glob_set_matches(ctx.ignored, rel),
{
}

/// Whether no directory in `node` holds a descriptor file.
pub open spec fn descriptor_free(node: SourceNode) -> bool
    decreases node,
{
    match node {
        SourceNode::File { .. } => true,
        SourceNode::Dir { found, children, .. } => governing_kind(found) is None
            && all_descriptor_free(children@),
    }
}

pub open spec fn all_descriptor_free(cs: Seq<SourceNode>) -> bool
    decreases cs,
{
    cs.len() == 0 || (all_descriptor_free(cs.drop_last()) && descriptor_free(cs.last()))
}

/// The tree that parsing `node` gives when every directory in it is read
/// under the one context `ctx`, at every depth.
pub open spec fn parse_under(ctx: ContextView, node: SourceNode, path: Seq<char>, rel: Seq<char>) -> EntryView
    decreases node,
{
    match node {
        SourceNode::File { .. } => EntryView::File(classify(path)),
        SourceNode::Dir { children, .. } => EntryView::Dir(
            path,
            parse_children_under(ctx, children@, path, rel),
        ),
    }
}

pub open spec fn parse_children_under(ctx: ContextView, cs: Seq<SourceNode>, dir: Seq<char>, rel: Seq<char>) -> Seq<EntryView>
    decreases cs,
{
    if cs.len() == 0 {
        Seq::empty()
    } else {
        let c = cs.last();
        let crel = join_spec(rel, node_name(c));
        let rest = parse_children_under(ctx, cs.drop_last(), dir, rel);
        if admits(ctx, crel) {
            rest.push(parse_under(ctx, c, join_spec(dir, node_name(c)), crel))
        } else {
            rest
        }
    }
}

/// Below a directory, as long as no descriptor file appears, every entry at
/// every depth is read under the same context: the same read mode, with
/// paths relative to the same base, and the same patterns never read.
pub proof fn lemma_mode_governs_descendants(ctx: ContextView, node: SourceNode, path: Seq<char>, rel: Seq<char>)
    requires
        descriptor_free(node),
    ensures
        parse_node(ctx, node, path, rel) == parse_under(ctx, node, path, rel),
    decreases node,
{
    match node {
        SourceNode::File { .. } => {},
        SourceNode::Dir { children, .. } => {
            lemma_mode_governs_children(ctx, children@, path, rel);
        },
    }
}

proof fn lemma_mode_governs_children(ctx: ContextView, cs: Seq<SourceNode>, dir: Seq<char>, rel: Seq<char>)
    requires
        all_descriptor_free(cs),
    ensures
        parse_children(ctx, cs, dir, rel) == parse_children_under(ctx, cs, dir, rel),
    decreases cs,
{
    if cs.len() > 0 {
        let c = cs.last();
        lemma_mode_governs_children(ctx, cs.drop_last(), dir, rel);
        lemma_mode_governs_descendants(ctx, c, join_spec(dir, node_name(c)), join_spec(rel, node_name(c)));
    }
}

/// A directory governed by a descriptor, with no descriptor file below it,
/// reads all its descendants under the descriptor's mode, relative to
/// itself, whatever the mode above it was.
pub proof fn lemma_descriptor_governs_subtree(ctx: ContextView, node: SourceNode, path: Seq<char>, rel: Seq<char>)
    requires
        node matches SourceNode::Dir { found, descriptor: Some(_), .. } && governing_kind(found) is Some,
        all_descriptor_free(node->children@),
    ensures
        ({
            let d = node->descriptor->0@;
            let inner = ContextView { base: path, mode: read_mode_of(d), ignored: ctx.ignored };
            parse_node(ctx, node, path, rel) == EntryView::Root(
                path,
                d,
                parse_children_under(inner, node->children@, path, Seq::empty()),
            )
        }),
{
    let d = node->descriptor->0@;
    let inner = ContextView { base: path, mode: read_mode_of(d), ignored: ctx.ignored };
    lemma_mode_governs_children(inner, node->children@, path, Seq::empty());
}

proof fn lemma_all_sound_index(cs: Seq<SourceNode>, k: int)
    requires
        all_sound(cs),
        0 <= k < cs.len(),
    ensures
        sound_source(cs[k]),
    decreases cs.len(),
{
    if k < cs.len() - 1 {
        lemma_all_sound_index(cs.drop_last(), k);
    }
}

impl DirEntry {
    /// Parses `node`, found at `path`, whose path relative to the base of
    /// `ctx` is `rel`. A directory holding descriptor files becomes a root
    /// governed by the descriptor that `select_descriptor` picks. Parsing
    /// fails only on a descriptor that is missing, unexpected, or whose
    /// patterns do not compile; it succeeds when every descriptor is sound.
    pub fn parse(ctx: &ParseContext, node: &SourceNode, path: String, rel: String) -> (r: Result<DirEntry, ParseError>)
        ensures
            r is Ok ==> entry_view(r->Ok_0) == parse_node(ctx@, *node, path@, rel@),
            r is Err ==> r->Err_0 is Glob || r->Err_0 is DescriptorMismatch,
            sound_source(*node) ==> r is Ok,
        decreases node,
    {
        match node {
            SourceNode::File { .. } => {
                let f = FileEntry::parse(path)?;
                Ok(DirEntry::File(f))
            },
            SourceNode::Dir { found, descriptor, children, .. } => {
                let kind = select_descriptor(found.script, found.toml, found.template);
                match (kind, descriptor) {
                    (Some(_), Some(d)) => {
                        let mode = match d.read_mode() {
                            Ok(m) => m,
                            Err(error) => return Err(ParseError::Glob { path, error }),
                        };
                        let inner = ctx.rooted_at(path.clone(), mode);
                        let entries = parse_children_of(&inner, children, &path, &String::new())?;
                        Ok(DirEntry::Root(path, d.clone_data(), entries))
                    },
                    (None, None) => {
                        let entries = parse_children_of(ctx, children, &path, &rel)?;
                        Ok(DirEntry::Dir(path, entries))
                    },
                    _ => Err(ParseError::DescriptorMismatch { path }),
                }
            },
        }
    }
}

fn parse_children_of(ctx: &ParseContext, children: &Vec<SourceNode>, dir: &String, rel: &String) -> (r: Result<Vec<DirEntry>, ParseError>)
    ensures
        r is Ok ==> entries_view(r->Ok_0@) == parse_children(ctx@, children@, dir@, rel@),
        r is Err ==> r->Err_0 is Glob || r->Err_0 is DescriptorMismatch,
        all_sound(children@) ==> r is Ok,
    decreases children,
{
    let mut out: Vec<DirEntry> = Vec::new();
    let n = children.len();
    proof {
        if all_sound(children@) {
            assert forall|k: int| 0 <= k < n implies sound_source(#[trigger] children@[k]) by {
                lemma_all_sound_index(children@, k);
            }
        }
    }
    for i in 0..n
        invariant
            n == children@.len(),
            entries_view(out@) == parse_children(ctx@, children@.subrange(0, i as int), dir@, rel@),
            all_sound(children@) ==> forall|k: int|
                0 <= k < n ==> sound_source(#[trigger] children@[k]),
    {
        let c = &children[i];
        let crel = join(rel.as_str(), c.name().as_str());
        proof {
            assert(children@.subrange(0, i + 1).drop_last() == children@.subrange(0, i as int));
            assert(children@.subrange(0, i + 1).last() == children@[i as int]);
        }
        if ctx.admits(crel.as_str()) {
            let cpath = join(dir.as_str(), c.name().as_str());
            let e = DirEntry::parse(ctx, c, cpath, crel)?;
            let ghost before = out@;
            out.push(e);
            assert(out@.drop_last() == before);
        }
    }
    assert(children@.subrange(0, n as int) == children@);
    Ok(out)
}

impl RootDirData {
    fn clone_data(&self) -> (r: RootDirData)
        ensures
            r@ == self@,
    {
        RootDirData {
            path: self.path.clone(),
            mode: self.mode,
            excluded: clone_strings(&self.excluded),
            included: clone_strings(&self.included),
        }
    }
}

fn clone_strings(v: &Vec<String>) -> (r: Vec<String>)
    ensures
        patterns_view(r@) == patterns_view(v@),
{
    let mut out: Vec<String> = Vec::new();
    for i in 0..v.len()
        invariant
            out@.len() == i,
            forall|k: int| 0 <= k < i ==> (#[trigger] out@[k])@ == v@[k]@,
    {
        out.push(v[i].clone());
    }
    assert(patterns_view(out@) =~= patterns_view(v@));
    out
}

/// A write that applying the tree stages.
pub enum StageOp {
    /// Copy the file at `src` to `dst` as it is.
    CopyFile { src: String, dst: String },
    /// Render the template at `src`, write the result to `dst`, and give
    /// `dst` the permissions of `src`.
    RenderFile { src: String, dst: String },
}

pub enum StageView {
    CopyFile { src: Seq<char>, dst: Seq<char> },
    RenderFile { src: Seq<char>, dst: Seq<char> },
}

impl View for StageOp {
    type V = StageView;

    open spec fn view(&self) -> StageView {
        match self {
            StageOp::CopyFile { src, dst } => StageView::CopyFile { src: src@, dst: dst@ },
            StageOp::RenderFile { src, dst } => StageView::RenderFile { src: src@, dst: dst@ },
        }
    }
}

pub open spec fn stage_views(v: Seq<StageOp>) -> Seq<StageView> {
    v.map_values(|o: StageOp| o@)
}

/// The write that a file stages when its directory goes to `cwd`.
pub open spec fn file_stage(f: FileView, cwd: Seq<char>) -> StageView {
    match f {
        FileView::Plain(p) => StageView::CopyFile { src: p, dst: join_spec(cwd, file_name_spec(p)) },
        FileView::Template(p) => StageView::RenderFile {
            src: p,
            dst: join_spec(cwd, rendered_name(file_name_spec(p))),
        },
    }
}

/// Where the entries of a directory without descriptor at `p` go when its
/// parent goes to `cwd`: the directory's name is appended, except for the
/// top directory itself.
pub open spec fn dir_cursor(p: Seq<char>, cwd: Seq<char>) -> Seq<char> {
    if p != cwd {
        join_spec(cwd, file_name_spec(p))
    } else {
        p
    }
}

/// The destination that the template `t` rendered to, as recorded in `ds`:
/// the first record for `t`.
pub open spec fn destination_for(ds: Seq<(Seq<char>, Seq<char>)>, t: Seq<char>) -> Option<Seq<char>>
    decreases ds.len(),
{
    if ds.len() == 0 {
        None
    } else if ds[0].0 == t {
        Some(ds[0].1)
    } else {
        destination_for(ds.drop_first(), t)
    }
}

/// The writes that applying `e` into `cwd` stages, in pre-order, where `ds`
/// records what descriptors' destination templates rendered to; `None` when
/// a descriptor's template has no record.
pub open spec fn plan_entry(e: EntryView, cwd: Seq<char>, ds: Seq<(Seq<char>, Seq<char>)>) -> Option<Seq<StageView>>
    decreases e,
{
    match e {
        EntryView::File(f) => Some(seq![file_stage(f, cwd)]),
        EntryView::Dir(p, cs) => plan_entries(cs, dir_cursor(p, cwd), ds),
        EntryView::Root(_, d, cs) => match destination_for(ds, d.path) {
            Some(dst) => plan_entries(cs, dst, ds),
            None => None,
        },
    }
}

pub open spec fn plan_entries(cs: Seq<EntryView>, cwd: Seq<char>, ds: Seq<(Seq<char>, Seq<char>)>) -> Option<Seq<StageView>>
    decreases cs,
{
    if cs.len() == 0 {
        Some(Seq::empty())
    } else {
        match (plan_entries(cs.drop_last(), cwd, ds), plan_entry(cs.last(), cwd, ds)) {
            (Some(a), Some(b)) => Some(a + b),
            _ => None,
        }
    }
}

/// The destination templates of the descriptors in `e`, in the order that
/// applying `e` meets them.
pub open spec fn templates_of(e: EntryView) -> Seq<Seq<char>>
    decreases e,
{
    match e {
        EntryView::File(_) => Seq::empty(),
        EntryView::Dir(_, cs) => templates_of_all(cs),
        EntryView::Root(_, d, cs) => seq![d.path] + templates_of_all(cs),
    }
}

pub open spec fn templates_of_all(cs: Seq<EntryView>) -> Seq<Seq<char>>
    decreases cs,
{
    if cs.len() == 0 {
        Seq::empty()
    } else {
        templates_of_all(cs.drop_last()) + templates_of(cs.last())
    }
}

/// Whether every template in `ts` has a recorded destination in `ds`.
pub open spec fn all_rendered(ds: Seq<(Seq<char>, Seq<char>)>, ts: Seq<Seq<char>>) -> bool {
    forall|i: int| 0 <= i < ts.len() ==> (#[trigger] destination_for(ds, ts[i])) is Some
}

proof fn lemma_entries_view_prefix(cs: Seq<DirEntry>, i: int)
    requires
        0 <= i <= cs.len(),
    ensures
        entries_view(cs).len() == cs.len(),
        entries_view(cs.subrange(0, i)) == entries_view(cs).subrange(0, i),
    decreases cs.len(),
{
    if cs.len() > 0 {
        lemma_entries_view_prefix(cs.drop_last(), if i == cs.len() { i - 1 } else { i });
        if i == cs.len() {
            assert(cs.subrange(0, i) == cs);
            assert(entries_view(cs).subrange(0, i) == entries_view(cs));
        } else {
            assert(cs.drop_last().subrange(0, i) == cs.subrange(0, i));
            assert(entries_view(cs).subrange(0, i) == entries_view(cs.drop_last()).subrange(0, i));
        }
    }
}

proof fn lemma_plan_prefix_fails(es: Seq<EntryView>, j: int, cwd: Seq<char>, ds: Seq<(Seq<char>, Seq<char>)>)
    requires
        0 <= j <= es.len(),
        plan_entries(es.subrange(0, j), cwd, ds) is None,
    ensures
        plan_entries(es, cwd, ds) is None,
    decreases es.len(),
{
    if j == es.len() {
        assert(es.subrange(0, j) == es);
    } else {
        assert(es.drop_last().subrange(0, j) == es.subrange(0, j));
        lemma_plan_prefix_fails(es.drop_last(), j, cwd, ds);
    }
}

/// Why applying the tree stopped.
#[derive(Debug)]
pub enum ApplyError {
    /// No destination was given for a descriptor's path template.
    Unrendered { template: String },
}

/// What applying the tree needs: what each descriptor's destination
/// template rendered to, as (template, destination) pairs.
pub struct ApplyContext {
    pub destinations: Vec<(String, String)>,
}

pub open spec fn pairs_view(v: Seq<(String, String)>) -> Seq<(Seq<char>, Seq<char>)> {
    v.map_values(|p: (String, String)| (p.0@, p.1@))
}

impl ApplyContext {
    pub open spec fn spec_destinations(&self) -> Seq<(Seq<char>, Seq<char>)> {
        pairs_view(self.destinations@)
    }

    /// The destination recorded for `template`, if any.
    pub fn destination_for(&self, template: &String) -> (r: Option<String>)
        ensures
            match destination_for(self.spec_destinations(), template@) {
                Some(d) => r is Some && r->0@ == d,
                None => r is None,
            },
    {
        let n = self.destinations.len();
        let mut i: usize = 0;
        assert(self.spec_destinations().subrange(0, n as int) == self.spec_destinations());
        while i < n
            invariant
                n == self.destinations@.len(),
                i <= n,
                destination_for(self.spec_destinations(), template@) == destination_for(
                    self.spec_destinations().subrange(i as int, n as int),
                    template@,
                ),
            decreases n - i,
        {
            let ghost rest = self.spec_destinations().subrange(i as int, n as int);
            assert(rest.drop_first() == self.spec_destinations().subrange(i + 1, n as int));
            if self.destinations[i].0 == *template {
                return Some(self.destinations[i].1.clone());
            }
            i = i + 1;
        }
        None
    }
}

impl FileEntry {
    /// The write that this file stages when its directory goes to `cwd`.
    pub fn apply(&self, cwd: &String) -> (r: StageOp)
        ensures
            r@ == file_stage(self@, cwd@),
    {
        match self {
            FileEntry::Plain(p) => {
                let name = file_name(p.as_str());
                StageOp::CopyFile { src: p.clone(), dst: join(cwd.as_str(), name.as_str()) }
            },
            FileEntry::Template(p) => {
                let name = file_name(p.as_str());
                let target = if is_template_file_name(name.as_str()) {
                    name.as_str().substring_char(0, name.as_str().unicode_len() - 5).to_owned()
                } else {
                    name
                };
                StageOp::RenderFile { src: p.clone(), dst: join(cwd.as_str(), target.as_str()) }
            },
        }
    }
}

fn plan_into(e: &DirEntry, ctx: &ApplyContext, cwd: &String, out: &mut Vec<StageOp>) -> (r: Result<(), ApplyError>)
    ensures
        match plan_entry(entry_view(*e), cwd@, ctx.spec_destinations()) {
            Some(ops) => r is Ok && stage_views(final(out)@) == stage_views(old(out)@) + ops,
            None => r is Err,
        },
    decreases e,
{
    match e {
        DirEntry::File(f) => {
            let ghost before = out@;
            out.push(f.apply(cwd));
            assert(stage_views(out@) =~= stage_views(before) + seq![file_stage(f@, cwd@)]);
            Ok(())
        },
        DirEntry::Dir(p, children) => {
            let next = if *p != *cwd {
                join(cwd.as_str(), file_name(p.as_str()).as_str())
            } else {
                p.clone()
            };
            plan_children_into(children, ctx, &next, out)
        },
        DirEntry::Root(_, d, children) => match ctx.destination_for(&d.path) {
            Some(dst) => plan_children_into(children, ctx, &dst, out),
            None => Err(ApplyError::Unrendered { template: d.path.clone() }),
        },
    }
}

fn plan_children_into(children: &Vec<DirEntry>, ctx: &ApplyContext, cwd: &String, out: &mut Vec<StageOp>) -> (r: Result<(), ApplyError>)
    ensures
        match plan_entries(entries_view(children@), cwd@, ctx.spec_destinations()) {
            Some(ops) => r is Ok && stage_views(final(out)@) == stage_views(old(out)@) + ops,
            None => r is Err,
        },
    decreases children,
{
    let ghost start = stage_views(out@);
    let n = children.len();
    proof {
        lemma_entries_view_prefix(children@, 0);
        assert(entries_view(children@.subrange(0, 0)).len() == 0);
    }
    for i in 0..n
        invariant
            n == children@.len(),
            match plan_entries(entries_view(children@.subrange(0, i as int)), cwd@, ctx.spec_destinations()) {
                Some(ops) => stage_views(out@) == start + ops,
                None => false,
            },
    {
        proof {
            assert(children@.subrange(0, i + 1).drop_last() == children@.subrange(0, i as int));
            assert(children@.subrange(0, i + 1).last() == children@[i as int]);
        }
        let ghost before = stage_views(out@);
        let ghost prefix = entries_view(children@.subrange(0, i as int));
        let ghost extended = entries_view(children@.subrange(0, i + 1));
        assert(extended == prefix.push(entry_view(children@[i as int])));
        assert(extended.drop_last() == prefix);
        match plan_into(&children[i], ctx, cwd, out) {
            Ok(()) => {
                let ghost a = plan_entries(prefix, cwd@, ctx.spec_destinations())->0;
                let ghost b = plan_entry(entry_view(children@[i as int]), cwd@, ctx.spec_destinations())->0;
                assert(plan_entries(extended, cwd@, ctx.spec_destinations()) == Some(a + b));
                assert(stage_views(out@) =~= start + (a + b));
            },
            Err(err) => {
                proof {
                    lemma_entries_view_prefix(children@, i + 1);
                    lemma_plan_prefix_fails(entries_view(children@), i + 1, cwd@, ctx.spec_destinations());
                }
                return Err(err);
            },
        }
    }
    assert(children@.subrange(0, n as int) == children@);
    Ok(())
}

proof fn lemma_all_rendered_split(ds: Seq<(Seq<char>, Seq<char>)>, a: Seq<Seq<char>>, b: Seq<Seq<char>>)
    requires
        all_rendered(ds, a + b),
    ensures
        all_rendered(ds, a),
        all_rendered(ds, b),
{
    assert forall|i: int| 0 <= i < a.len() implies (#[trigger] destination_for(ds, a[i])) is Some by {
        assert((a + b)[i] == a[i]);
    }
    assert forall|i: int| 0 <= i < b.len() implies (#[trigger] destination_for(ds, b[i])) is Some by {
        assert((a + b)[a.len() + i] == b[i]);
    }
}

/// Applying an entry succeeds whenever every destination template in it has
/// a recorded destination.
pub proof fn lemma_rendered_tree_plans(e: EntryView, cwd: Seq<char>, ds: Seq<(Seq<char>, Seq<char>)>)
    requires
        all_rendered(ds, templates_of(e)),
    ensures
        plan_entry(e, cwd, ds) is Some,
    decreases e,
{
    match e {
        EntryView::File(_) => {},
        EntryView::Dir(p, cs) => {
            lemma_rendered_entries_plan(cs, dir_cursor(p, cwd), ds);
        },
        EntryView::Root(_, d, cs) => {
            lemma_all_rendered_split(ds, seq![d.path], templates_of_all(cs));
            assert(seq![d.path][0] == d.path);
            let dst = destination_for(ds, d.path)->0;
            lemma_rendered_entries_plan(cs, dst, ds);
        },
    }
}

proof fn lemma_rendered_entries_plan(cs: Seq<EntryView>, cwd: Seq<char>, ds: Seq<(Seq<char>, Seq<char>)>)
    requires
        all_rendered(ds, templates_of_all(cs)),
    ensures
        plan_entries(cs, cwd, ds) is Some,
    decreases cs,
{
    if cs.len() > 0 {
        lemma_all_rendered_split(ds, templates_of_all(cs.drop_last()), templates_of(cs.last()));
        lemma_rendered_entries_plan(cs.drop_last(), cwd, ds);
        lemma_rendered_tree_plans(cs.last(), cwd, ds);
    }
}

fn collect_templates(e: &DirEntry, out: &mut Vec<String>)
    ensures
        patterns_view(final(out)@) == patterns_view(old(out)@) + templates_of(entry_view(*e)),
    decreases e,
{
    match e {
        DirEntry::File(_) => {
            assert(patterns_view(out@) =~= patterns_view(out@) + Seq::<Seq<char>>::empty());
        },
        DirEntry::Dir(_, children) => collect_children_templates(children, out),
        DirEntry::Root(_, d, children) => {
            let ghost before = patterns_view(out@);
            out.push(d.path.clone());
            assert(patterns_view(out@) =~= before + seq![d.path@]);
            collect_children_templates(children, out);
            assert(before + seq![d.path@] + templates_of_all(entries_view(children@)) =~= before + (
            seq![d.path@] + templates_of_all(entries_view(children@))));
        },
    }
}

fn collect_children_templates(children: &Vec<DirEntry>, out: &mut Vec<String>)
    ensures
        patterns_view(final(out)@) == patterns_view(old(out)@) + templates_of_all(
            entries_view(children@),
        ),
    decreases children,
{
    let ghost start = patterns_view(out@);
    let n = children.len();
    proof {
        lemma_entries_view_prefix(children@, 0);
    }
    assert(patterns_view(out@) =~= start + templates_of_all(entries_view(children@.subrange(0, 0))));
    for i in 0..n
        invariant
            n == children@.len(),
            patterns_view(out@) == start + templates_of_all(entries_view(children@.subrange(0, i as int))),
    {
        let ghost prefix = entries_view(children@.subrange(0, i as int));
        let ghost extended = entries_view(children@.subrange(0, i + 1));
        proof {
            assert(children@.subrange(0, i + 1).drop_last() == children@.subrange(0, i as int));
            assert(children@.subrange(0, i + 1).last() == children@[i as int]);
        }
        assert(extended == prefix.push(entry_view(children@[i as int])));
        assert(extended.drop_last() == prefix);
        collect_templates(&children[i], out);
        assert(patterns_view(out@) =~= start + templates_of_all(extended));
    }
    assert(children@.subrange(0, n as int) == children@);
}

impl DirEntry {
    /// The destination templates of the descriptors in this entry, in the
    /// order that applying it meets them.
    pub fn destination_templates(&self) -> (r: Vec<String>)
        ensures
            patterns_view(r@) == templates_of(entry_view(*self)),
    {
        let mut out: Vec<String> = Vec::new();
        collect_templates(self, &mut out);
        assert(patterns_view(out@) =~= Seq::<Seq<char>>::empty() + templates_of(entry_view(*self)));
        out
    }

    /// The writes that applying this entry into directory `cwd` stages, in
    /// the order they are committed.
    pub fn apply(&self, ctx: &ApplyContext, cwd: &String) -> (r: Result<Vec<StageOp>, ApplyError>)
        ensures
            match plan_entry(entry_view(*self), cwd@, ctx.spec_destinations()) {
                Some(ops) => r is Ok && stage_views(r->Ok_0@) == ops,
                None => r is Err,
            },
            all_rendered(ctx.spec_destinations(), templates_of(entry_view(*self))) ==> r is Ok,
    {
        proof {
            if all_rendered(ctx.spec_destinations(), templates_of(entry_view(*self))) {
                lemma_rendered_tree_plans(entry_view(*self), cwd@, ctx.spec_destinations());
            }
        }
        let mut out: Vec<StageOp> = Vec::new();
        assert(stage_views(out@) =~= Seq::<StageView>::empty());
        match plan_into(self, ctx, cwd, &mut out) {
            Ok(()) => {
                assert(stage_views(out@) =~= Seq::<StageView>::empty() + stage_views(out@));
                Ok(out)
            },
            Err(e) => Err(e),
        }
    }
}

/// The parsed content tree of a repository.
pub struct Contents {
    pub root: DirEntry,
}

impl Contents {
    /// Parses the content directory `node`, found at `path`, under `pctx`.
    pub fn parse(pctx: ParseContext, path: String, node: &SourceNode) -> (r: Result<Contents, ParseError>)
        ensures
            match relative_spec(path@, pctx@.base) {
                Some(rel) => {
                    &&& r is Ok ==> entry_view(r->Ok_0.root) == parse_node(pctx@, *node, path@, rel)
                    &&& r is Err ==> r->Err_0 is Glob || r->Err_0 is DescriptorMismatch
                    &&& sound_source(*node) ==> r is Ok
                },
                None => r is Err && r->Err_0 is OutsideBase,
            },
    {
        let rel = match relative_to(path.as_str(), pctx.base.as_str()) {
            Some(rel) => rel,
            None => return Err(ParseError::OutsideBase { path }),
        };
        let root = DirEntry::parse(&pctx, node, path, rel)?;
        Ok(Contents { root })
    }

    /// The destination templates of the tree's descriptors, in the order
    /// that applying the tree meets them.
    pub fn destination_templates(&self) -> (r: Vec<String>)
        ensures
            patterns_view(r@) == templates_of(entry_view(self.root)),
    {
        self.root.destination_templates()
    }

    /// The writes that applying the tree into directory `cwd` stages.
    pub fn apply(&self, actx: &ApplyContext, cwd: &String) -> (r: Result<Vec<StageOp>, ApplyError>)
        ensures
            match plan_entry(entry_view(self.root), cwd@, actx.spec_destinations()) {
                Some(ops) => r is Ok && stage_views(r->Ok_0@) == ops,
                None => r is Err,
            },
            all_rendered(actx.spec_destinations(), templates_of(entry_view(self.root))) ==> r is Ok,
    {
        self.root.apply(actx, cwd)
    }
}

} // verus!
