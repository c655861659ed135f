use silo::contents::{
    select_descriptor, ApplyContext, ApplyError, Contents, DescriptorKind, DirEntry, FileEntry, Mode,
    DescriptorFiles, ParseContext, ParseError, RootDirData, SourceNode, StageOp,
};

fn file(name: &str) -> SourceNode {
    SourceNode::File { name: name.to_string() }
}

fn dir(name: &str, descriptor: Option<RootDirData>, children: Vec<SourceNode>) -> SourceNode {
    let found = DescriptorFiles { script: false, toml: descriptor.is_some(), template: false };
    SourceNode::Dir { name: name.to_string(), found, descriptor, children }
}

fn descriptor(path: &str, mode: Mode, excluded: &[&str], included: &[&str]) -> RootDirData {
    RootDirData {
        path: path.to_string(),
        mode,
        excluded: excluded.iter().map(|s| s.to_string()).collect(),
        included: included.iter().map(|s| s.to_string()).collect(),
    }
}

fn parse(node: &SourceNode) -> Contents {
    let ctx = ParseContext::new("/repo".to_string()).expect("patterns compile");
    Contents::parse(ctx, "/repo/content".to_string(), node).expect("tree parses")
}

fn context(pairs: &[(&str, &str)]) -> ApplyContext {
    ApplyContext {
        destinations: pairs.iter().map(|(t, d)| (t.to_string(), d.to_string())).collect(),
    }
}

fn children(e: &DirEntry) -> &Vec<DirEntry> {
    match e {
        DirEntry::Dir(_, cs) => cs,
        DirEntry::Root(_, _, cs) => cs,
        DirEntry::File(_) => panic!("not a directory"),
    }
}

fn path_of(e: &DirEntry) -> String {
    match e {
        DirEntry::File(FileEntry::Plain(p)) | DirEntry::File(FileEntry::Template(p)) => p.clone(),
        DirEntry::Dir(p, _) | DirEntry::Root(p, _, _) => p.clone(),
    }
}

fn ops(v: &[StageOp]) -> Vec<(bool, String, String)> {
    v.iter()
        .map(|o| match o {
            StageOp::CopyFile { src, dst } => (false, src.clone(), dst.clone()),
            StageOp::RenderFile { src, dst } => (true, src.clone(), dst.clone()),
        })
        .collect()
}

#[test]
fn plain_directory_keeps_listing_order() {
    let node = dir("content", None, vec![file("z.txt"), file("a.txt"), file("m.txt")]);
    let tree = parse(&node);
    assert!(matches!(tree.root, DirEntry::Dir(..)));
    let names: Vec<String> = children(&tree.root).iter().map(path_of).collect();
    assert_eq!(
        names,
        vec!["/repo/content/z.txt", "/repo/content/a.txt", "/repo/content/m.txt"]
    );
}

#[test]
fn files_are_classified_by_extension() {
    assert!(matches!(
        FileEntry::parse("/r/b.txt.tmpl".to_string()),
        Ok(FileEntry::Template(_))
    ));
    assert!(matches!(FileEntry::parse("/r/b.txt".to_string()), Ok(FileEntry::Plain(_))));
    assert!(matches!(FileEntry::parse("/r/.tmpl".to_string()), Ok(FileEntry::Plain(_))));
}

#[test]
fn always_ignored_entries_are_never_read() {
    let node = dir(
        "content",
        None,
        vec![
            dir(".git", None, vec![file("HEAD")]),
            file("dir.toml"),
            file("dir.toml.tmpl"),
            file("silo.dir.lua"),
            file("silo.config.lua"),
            file("kept.txt"),
        ],
    );
    let tree = parse(&node);
    let names: Vec<String> = children(&tree.root).iter().map(path_of).collect();
    assert_eq!(names, vec!["/repo/content/kept.txt"]);
}

#[test]
fn descriptor_mode_governs_descendants_until_overridden() {
    let inner = dir(
        "t",
        Some(descriptor("/other", Mode::Exclude, &[], &[])),
        vec![file("c.bak"), dir(".git", None, vec![])],
    );
    let node = dir(
        "content",
        Some(descriptor("/out", Mode::Exclude, &["**/*.bak"], &[])),
        vec![dir("s", None, vec![file("a.bak"), file("b.txt")]), inner],
    );
    let tree = parse(&node);
    assert!(matches!(tree.root, DirEntry::Root(..)));
    let top = children(&tree.root);
    assert_eq!(top.len(), 2);
    let s: Vec<String> = children(&top[0]).iter().map(path_of).collect();
    assert_eq!(s, vec!["/repo/content/s/b.txt"]);
    assert!(matches!(top[1], DirEntry::Root(..)));
    let t: Vec<String> = children(&top[1]).iter().map(path_of).collect();
    assert_eq!(t, vec!["/repo/content/t/c.bak"]);
}

#[test]
fn include_mode_reads_only_matches() {
    let node = dir(
        "content",
        Some(descriptor("/out", Mode::Include, &["a.txt"], &["*.conf"])),
        vec![file("a.txt"), file("x.conf"), file("y.txt")],
    );
    let tree = parse(&node);
    let names: Vec<String> = children(&tree.root).iter().map(path_of).collect();
    assert_eq!(names, vec!["/repo/content/x.conf"]);
}

#[test]
fn invalid_pattern_fails_parse() {
    let node = dir(
        "content",
        Some(descriptor("/out", Mode::Exclude, &["a[b"], &[])),
        vec![file("a.txt")],
    );
    let ctx = ParseContext::new("/repo".to_string()).expect("patterns compile");
    let r = Contents::parse(ctx, "/repo/content".to_string(), &node);
    assert!(matches!(r, Err(ParseError::Glob { path, .. }) if path == "/repo/content"));
}

#[test]
fn content_outside_base_is_refused() {
    let ctx = ParseContext::new("/repo".to_string()).expect("patterns compile");
    let r = Contents::parse(ctx, "/elsewhere/content".to_string(), &file("a"));
    assert!(matches!(r, Err(ParseError::OutsideBase { path }) if path == "/elsewhere/content"));
}

#[test]
fn descriptor_precedence() {
    assert_eq!(select_descriptor(true, true, true), Some(DescriptorKind::Script));
    assert_eq!(select_descriptor(false, true, true), Some(DescriptorKind::Toml));
    assert_eq!(select_descriptor(false, false, true), Some(DescriptorKind::Template));
    assert_eq!(select_descriptor(false, false, false), None);
    assert_eq!(DescriptorKind::Script.file_name(), "silo.dir.lua");
    assert_eq!(DescriptorKind::Toml.file_name(), "dir.toml");
    assert_eq!(DescriptorKind::Template.file_name(), "dir.toml.tmpl");
}

#[test]
fn secret_files_never_appear_and_rest_goes_to_rendered_root() {
    let node = dir(
        "content",
        None,
        vec![dir(
            "shell",
            Some(descriptor("/out/{{system.os}}", Mode::Exclude, &["*.secret"], &[])),
            vec![file("token.secret"), file("b.txt"), file("rc.tmpl")],
        )],
    );
    let tree = parse(&node);
    assert_eq!(tree.destination_templates(), vec!["/out/{{system.os}}".to_string()]);
    let plan = tree
        .apply(&context(&[("/out/{{system.os}}", "/out/linux")]), &"/home/u".to_string())
        .unwrap();
    assert_eq!(
        ops(&plan),
        vec![
            (false, "/repo/content/shell/b.txt".to_string(), "/out/linux/b.txt".to_string()),
            (true, "/repo/content/shell/rc.tmpl".to_string(), "/out/linux/rc".to_string()),
        ]
    );
}

#[test]
fn plain_directories_extend_destination() {
    let node = dir("content", None, vec![dir("cfg", None, vec![file("a.txt")]), file("b.txt.tmpl")]);
    let tree = parse(&node);
    let plan = tree.apply(&context(&[]), &"/home/u".to_string()).unwrap();
    assert_eq!(
        ops(&plan),
        vec![
            (false, "/repo/content/cfg/a.txt".to_string(), "/home/u/content/cfg/a.txt".to_string()),
            (true, "/repo/content/b.txt.tmpl".to_string(), "/home/u/content/b.txt".to_string()),
        ]
    );
}

#[test]
fn top_directory_at_cursor_is_not_repeated() {
    let tree = Contents {
        root: DirEntry::Dir(
            "/home/u".to_string(),
            vec![DirEntry::File(FileEntry::Plain("/home/u/a.txt".to_string()))],
        ),
    };
    let plan = tree.apply(&context(&[]), &"/home/u".to_string()).unwrap();
    assert_eq!(
        ops(&plan),
        vec![(false, "/home/u/a.txt".to_string(), "/home/u/a.txt".to_string())]
    );
}

#[test]
fn destination_without_rendering_fails_apply() {
    let node = dir(
        "content",
        Some(descriptor("/out/{{name}}", Mode::Exclude, &[], &[])),
        vec![file("a.txt")],
    );
    let tree = parse(&node);
    let r = tree.apply(&context(&[("/other", "/x")]), &"/home/u".to_string());
    assert!(matches!(r, Err(ApplyError::Unrendered { template }) if template == "/out/{{name}}"));
}

#[test]
fn templates_are_listed_in_apply_order() {
    let node = dir(
        "content",
        Some(descriptor("/a", Mode::Exclude, &[], &[])),
        vec![
            dir("x", Some(descriptor("/b", Mode::Exclude, &[], &[])), vec![]),
            dir("y", None, vec![dir("z", Some(descriptor("/c", Mode::Exclude, &[], &[])), vec![])]),
        ],
    );
    let tree = parse(&node);
    assert_eq!(tree.destination_templates(), vec!["/a", "/b", "/c"]);
}

#[test]
fn first_recorded_destination_wins() {
    let ctx = context(&[("/t", "/one"), ("/t", "/two")]);
    assert_eq!(ctx.destination_for(&"/t".to_string()), Some("/one".to_string()));
    assert_eq!(ctx.destination_for(&"/u".to_string()), None);
}

#[test]
fn script_descriptor_governs_over_static_ones() {
    let found = DescriptorFiles { script: true, toml: true, template: true };
    let node = SourceNode::Dir {
        name: "content".to_string(),
        found,
        descriptor: Some(descriptor("/from-script", Mode::Exclude, &[], &[])),
        children: vec![file("a.txt")],
    };
    let tree = parse(&node);
    match &tree.root {
        DirEntry::Root(_, d, _) => assert_eq!(d.path, "/from-script"),
        _ => panic!("a directory with descriptor files is a root"),
    }
}

#[test]
fn descriptor_files_without_descriptor_are_refused() {
    let found = DescriptorFiles { script: false, toml: false, template: true };
    let node = SourceNode::Dir {
        name: "content".to_string(),
        found,
        descriptor: None,
        children: vec![],
    };
    let ctx = ParseContext::new("/repo".to_string()).unwrap();
    let r = Contents::parse(ctx, "/repo/content".to_string(), &node);
    assert!(matches!(r, Err(ParseError::DescriptorMismatch { path }) if path == "/repo/content"));
}

#[test]
fn descriptor_without_descriptor_files_is_refused() {
    let node = SourceNode::Dir {
        name: "content".to_string(),
        found: DescriptorFiles { script: false, toml: false, template: false },
        descriptor: Some(descriptor("/out", Mode::Exclude, &[], &[])),
        children: vec![],
    };
    let ctx = ParseContext::new("/repo".to_string()).unwrap();
    let r = Contents::parse(ctx, "/repo/content".to_string(), &node);
    assert!(matches!(r, Err(ParseError::DescriptorMismatch { .. })));
}

#[test]
fn root_context_reads_every_entry_that_is_not_ignored() {
    let ctx = ParseContext::new("/repo".to_string()).unwrap();
    assert!(ctx.is_included("content/anything"));
    assert!(ctx.is_included(".git"));
    assert!(ctx.admits("content/a/b/c.txt"));
    assert!(!ctx.admits("content/a/.git"));
    assert!(!ctx.admits("content/silo.config.lua"));
}

#[test]
fn read_mode_compiles_the_selected_list() {
    let ok = descriptor("/o", Mode::Include, &["a["], &["*.conf"]);
    assert!(ok.read_mode().is_ok());
    let bad = descriptor("/o", Mode::Exclude, &["a["], &["*.conf"]);
    assert!(bad.read_mode().is_err());
}
