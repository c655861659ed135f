use silo::contents::{ApplyContext, Contents, DescriptorFiles, ParseContext, SourceNode, StageOp};
use silo::fs_access::{BufferedFsAccess, PersistAction, PersistEvent};

fn staged_path(i: usize) -> String {
    format!("/tmp/staged{i}")
}

#[test]
fn plain_file_without_destination_is_copied_verbatim() {
    let node = SourceNode::Dir {
        name: "content".to_string(),
        found: DescriptorFiles { script: false, toml: false, template: false },
        descriptor: None,
        children: vec![SourceNode::File { name: "a.txt".to_string() }],
    };
    let ctx = ParseContext::new("/repo".to_string()).unwrap();
    let tree = Contents::parse(ctx, "/repo/content".to_string(), &node).unwrap();
    let actx = ApplyContext { destinations: Vec::new() };
    let plan = tree.apply(&actx, &"/home/u".to_string()).unwrap();
    let mut sink = BufferedFsAccess::new("/repo".to_string(), "diff".to_string());
    for (i, op) in plan.iter().enumerate() {
        match op {
            StageOp::CopyFile { dst, .. } => sink.stage(staged_path(i), dst.clone()),
            StageOp::RenderFile { .. } => panic!("a.txt is no template"),
        }
    }
    let (mut p, _) = sink.persist();
    let mut seen = Vec::new();
    let mut action = p.step(PersistEvent::Done).unwrap();
    loop {
        let event = match &action {
            PersistAction::Inspect { .. } => PersistEvent::Absent,
            PersistAction::Confirm { .. } => panic!("a new file needs no confirmation"),
            PersistAction::EnsureParent { directory } => {
                seen.push(format!("mkdir {directory}"));
                PersistEvent::Done
            }
            PersistAction::CopyStaged { staged, destination } => {
                seen.push(format!("copy {staged} {destination}"));
                PersistEvent::Done
            }
            PersistAction::BeforeEach(_) => {
                seen.push("before".to_string());
                PersistEvent::Done
            }
            PersistAction::AfterEach(_) => {
                seen.push("after".to_string());
                PersistEvent::Done
            }
            PersistAction::Finished => break,
            _ => PersistEvent::Done,
        };
        action = p.step(event).unwrap();
    }
    assert_eq!(
        seen,
        vec![
            "mkdir /home/u/content".to_string(),
            "before".to_string(),
            "copy /tmp/staged0 /home/u/content/a.txt".to_string(),
            "after".to_string(),
        ]
    );
}

#[test]
fn changed_template_is_diffed_confirmed_and_overwritten() {
    let node = SourceNode::Dir {
        name: "content".to_string(),
        found: DescriptorFiles { script: false, toml: false, template: false },
        descriptor: None,
        children: vec![SourceNode::File { name: "b.txt.tmpl".to_string() }],
    };
    let ctx = ParseContext::new("/repo".to_string()).unwrap();
    let tree = Contents::parse(ctx, "/repo/content".to_string(), &node).unwrap();
    let actx = ApplyContext { destinations: Vec::new() };
    let plan = tree.apply(&actx, &"/home/u".to_string()).unwrap();
    let mut sink = BufferedFsAccess::new("/repo".to_string(), "difft".to_string());
    let dst = match &plan[0] {
        StageOp::RenderFile { dst, .. } => dst.clone(),
        StageOp::CopyFile { .. } => panic!("b.txt.tmpl is a template"),
    };
    assert_eq!(dst, "/home/u/content/b.txt");
    sink.stage(staged_path(0), dst.clone());
    let (mut p, _) = sink.persist();
    p.step(PersistEvent::Done).unwrap();
    let present = PersistEvent::Present {
        staged_checksum: b"checksum of X".to_vec(),
        existing_checksum: b"checksum of Y".to_vec(),
    };
    match p.step(present).unwrap() {
        PersistAction::Confirm { diff_tool, existing, staged } => {
            assert_eq!(diff_tool, "difft");
            assert_eq!(existing, dst);
            assert_eq!(staged, staged_path(0));
        }
        _ => panic!("a changed file needs confirmation"),
    }
    assert!(matches!(p.step(PersistEvent::Answer(true)).unwrap(), PersistAction::EnsureParent { .. }));
    assert!(matches!(p.step(PersistEvent::Done).unwrap(), PersistAction::BeforeEach(_)));
    match p.step(PersistEvent::Done).unwrap() {
        PersistAction::CopyStaged { staged, destination } => {
            assert_eq!(staged, staged_path(0));
            assert_eq!(destination, dst);
        }
        _ => panic!("an accepted change is copied"),
    }
}
