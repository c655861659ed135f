use silo::fs_access::{BufferedFsAccess, Persist, PersistAction, PersistError, PersistEvent, Phase};

fn sink() -> BufferedFsAccess {
    BufferedFsAccess::new("/repo".to_string(), "difft".to_string())
}

fn step(p: &mut Persist, e: PersistEvent) -> PersistAction {
    p.step(e).expect("event answers the step")
}

fn assert_write_steps(p: &mut Persist, staged: &str, dst: &str) {
    match step(p, PersistEvent::Done) {
        PersistAction::BeforeEach(c) => {
            assert_eq!(c.repo, "/repo");
            assert_eq!(c.src, staged);
            assert_eq!(c.dst, dst);
        }
        _ => panic!("expected the hooks before the write"),
    }
    match step(p, PersistEvent::Done) {
        PersistAction::CopyStaged { staged: s, destination } => {
            assert_eq!(s, staged);
            assert_eq!(destination, dst);
        }
        _ => panic!("expected the copy"),
    }
    match step(p, PersistEvent::Done) {
        PersistAction::AfterEach(c) => {
            assert_eq!(c.src, staged);
            assert_eq!(c.dst, dst);
        }
        _ => panic!("expected the hooks after the write"),
    }
}

#[test]
fn new_file_is_written_without_prompt() {
    let mut s = sink();
    s.stage("/tmp/stage1".to_string(), "/home/u/a.txt".to_string());
    let (mut p, first) = s.persist();
    match first {
        PersistAction::BeforeAll(c) => {
            assert_eq!(c.repo, "/repo");
            assert_eq!(c.paths, vec!["/home/u/a.txt".to_string()]);
        }
        _ => panic!("expected the opening hooks"),
    }
    match step(&mut p, PersistEvent::Done) {
        PersistAction::Inspect { staged, destination } => {
            assert_eq!(staged, "/tmp/stage1");
            assert_eq!(destination, "/home/u/a.txt");
        }
        _ => panic!("expected an inspection"),
    }
    match step(&mut p, PersistEvent::Absent) {
        PersistAction::EnsureParent { directory } => assert_eq!(directory, "/home/u"),
        _ => panic!("expected the parent directory"),
    }
    assert_write_steps(&mut p, "/tmp/stage1", "/home/u/a.txt");
    match step(&mut p, PersistEvent::Done) {
        PersistAction::AfterAll(c) => assert_eq!(c.paths, vec!["/home/u/a.txt".to_string()]),
        _ => panic!("expected the closing hooks"),
    }
    assert!(matches!(step(&mut p, PersistEvent::Done), PersistAction::Finished));
    assert_eq!(p.phase(), Phase::Finished);
}

#[test]
fn identical_content_is_written_without_prompt() {
    let mut s = sink();
    s.stage("/tmp/stage1".to_string(), "/home/u/a.txt".to_string());
    let (mut p, _) = s.persist();
    step(&mut p, PersistEvent::Done);
    let event = PersistEvent::Present { staged_checksum: vec![7, 7], existing_checksum: vec![7, 7] };
    match step(&mut p, event) {
        PersistAction::EnsureParent { directory } => assert_eq!(directory, "/home/u"),
        _ => panic!("identical content must not be confirmed"),
    }
    assert_write_steps(&mut p, "/tmp/stage1", "/home/u/a.txt");
}

#[test]
fn changed_content_is_confirmed_then_written() {
    let mut s = sink();
    s.stage("/tmp/stage2".to_string(), "/home/u/b.txt".to_string());
    let (mut p, _) = s.persist();
    step(&mut p, PersistEvent::Done);
    let event = PersistEvent::Present { staged_checksum: vec![1], existing_checksum: vec![2] };
    match step(&mut p, event) {
        PersistAction::Confirm { diff_tool, existing, staged } => {
            assert_eq!(diff_tool, "difft");
            assert_eq!(existing, "/home/u/b.txt");
            assert_eq!(staged, "/tmp/stage2");
        }
        _ => panic!("expected a confirmation"),
    }
    assert!(matches!(step(&mut p, PersistEvent::Answer(true)), PersistAction::EnsureParent { .. }));
    assert_write_steps(&mut p, "/tmp/stage2", "/home/u/b.txt");
}

#[test]
fn declined_change_is_skipped() {
    let mut s = sink();
    s.stage("/tmp/s1".to_string(), "/home/u/b.txt".to_string());
    s.stage("/tmp/s2".to_string(), "/home/u/c.txt".to_string());
    let (mut p, _) = s.persist();
    step(&mut p, PersistEvent::Done);
    let event = PersistEvent::Present { staged_checksum: vec![1], existing_checksum: vec![2] };
    assert!(matches!(step(&mut p, event), PersistAction::Confirm { .. }));
    match step(&mut p, PersistEvent::Answer(false)) {
        PersistAction::Skip { destination } => assert_eq!(destination, "/home/u/b.txt"),
        _ => panic!("expected the skip"),
    }
    match step(&mut p, PersistEvent::Done) {
        PersistAction::Inspect { staged, destination } => {
            assert_eq!(staged, "/tmp/s2");
            assert_eq!(destination, "/home/u/c.txt");
        }
        _ => panic!("expected the next entry"),
    }
}

#[test]
fn closing_hooks_see_every_path_even_when_skipped() {
    let mut s = sink();
    s.stage("/tmp/s1".to_string(), "/home/u/b.txt".to_string());
    let (mut p, _) = s.persist();
    step(&mut p, PersistEvent::Done);
    let event = PersistEvent::Present { staged_checksum: vec![1], existing_checksum: vec![2] };
    step(&mut p, event);
    step(&mut p, PersistEvent::Answer(false));
    match step(&mut p, PersistEvent::Done) {
        PersistAction::AfterAll(c) => assert_eq!(c.paths, vec!["/home/u/b.txt".to_string()]),
        _ => panic!("expected the closing hooks"),
    }
}

#[test]
fn second_persist_finds_nothing() {
    let mut s = sink();
    s.stage("/tmp/s1".to_string(), "/home/u/b.txt".to_string());
    let _ = s.persist();
    let (mut p, first) = s.persist();
    match first {
        PersistAction::BeforeAll(c) => assert!(c.paths.is_empty()),
        _ => panic!("expected the opening hooks"),
    }
    assert!(matches!(step(&mut p, PersistEvent::Done), PersistAction::AfterAll(_)));
}

#[test]
fn second_apply_of_same_tree_asks_nothing() {
    let mut s = sink();
    s.stage("/tmp/s1".to_string(), "/home/u/a.txt".to_string());
    s.stage("/tmp/s2".to_string(), "/home/u/b.txt".to_string());
    let (mut p, _) = s.persist();
    let mut action = step(&mut p, PersistEvent::Done);
    let mut prompts = 0;
    loop {
        action = match action {
            PersistAction::Inspect { .. } => step(
                &mut p,
                PersistEvent::Present { staged_checksum: vec![9], existing_checksum: vec![9] },
            ),
            PersistAction::Confirm { .. } => {
                prompts += 1;
                step(&mut p, PersistEvent::Answer(true))
            }
            PersistAction::Finished => break,
            _ => step(&mut p, PersistEvent::Done),
        };
    }
    assert_eq!(prompts, 0);
}

#[test]
fn unexpected_event_stops_the_commit() {
    let mut s = sink();
    s.stage("/tmp/s1".to_string(), "/home/u/a.txt".to_string());
    let (mut p, _) = s.persist();
    assert!(matches!(p.step(PersistEvent::Absent), Err(PersistError::UnexpectedEvent)));
    assert_eq!(p.phase(), Phase::Failed);
}

#[test]
fn permissions_go_to_most_recent_staging() {
    let mut s = sink();
    s.stage("/tmp/s1".to_string(), "/home/u/a.txt".to_string());
    s.stage("/tmp/s2".to_string(), "/home/u/b.txt".to_string());
    s.stage("/tmp/s3".to_string(), "/home/u/a.txt".to_string());
    assert_eq!(s.staged_for(&"/home/u/a.txt".to_string()), Some("/tmp/s3".to_string()));
    assert_eq!(s.staged_for(&"/home/u/b.txt".to_string()), Some("/tmp/s2".to_string()));
    assert_eq!(s.staged_for(&"/home/u/c.txt".to_string()), None);
}
