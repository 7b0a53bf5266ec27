use bookbuild::driver::{Action, Driver};
use bookbuild::paths::make_plan;

fn plan_of(rels: &[&[u8]]) -> bookbuild::paths::Plan {
    let root = b"/proj".to_vec();
    let rels: Vec<Vec<u8>> = rels.iter().map(|r| r.to_vec()).collect();
    make_plan(&root, &rels)
}

#[test]
fn happy_path_moves_out_builds_and_restores() {
    let mut d = Driver::new(plan_of(&[b"a.md"]), false);

    match d.next_action() {
        Action::Move { from, to } => {
            assert_eq!(from, b"/proj/a.md".to_vec());
            assert_eq!(to, b"/proj/src/a.md".to_vec());
        }
        _ => panic!("expected the move out"),
    }
    d.on_event(true);

    assert!(matches!(d.next_action(), Action::RunBuild));
    d.on_event(true);

    match d.next_action() {
        Action::Move { from, to } => {
            assert_eq!(from, b"/proj/src/a.md".to_vec());
            assert_eq!(to, b"/proj/a.md".to_vec());
        }
        _ => panic!("expected the move back"),
    }
    d.on_event(true);

    assert!(d.is_finished());
    assert!(matches!(d.next_action(), Action::Finish { ok: true }));
}

#[test]
fn failed_build_halts_before_any_restore() {
    let mut d = Driver::new(plan_of(&[b"a.md"]), false);

    assert!(matches!(d.next_action(), Action::Move { .. }));
    d.on_event(true);

    assert!(matches!(d.next_action(), Action::RunBuild));
    d.on_event(false);

    // The run aborts with the file still at its temporary spot: no move back.
    assert!(d.is_finished());
    assert!(matches!(d.next_action(), Action::Finish { ok: false }));
}

#[test]
fn failed_move_halts_before_remaining_entries() {
    let mut d = Driver::new(plan_of(&[b"missing.md", b"b.md"]), false);

    match d.next_action() {
        Action::Move { from, .. } => assert_eq!(from, b"/proj/missing.md".to_vec()),
        _ => panic!("expected the first move out"),
    }
    d.on_event(false);

    // The second entry is never touched.
    assert!(d.is_finished());
    assert!(matches!(d.next_action(), Action::Finish { ok: false }));
}

#[test]
fn empty_plan_builds_without_moves() {
    let mut d = Driver::new(plan_of(&[]), false);

    assert!(matches!(d.next_action(), Action::RunBuild));
    d.on_event(true);

    assert!(d.is_finished());
    assert!(matches!(d.next_action(), Action::Finish { ok: true }));
}

#[test]
fn test_stage_runs_first_when_asked() {
    let mut d = Driver::new(plan_of(&[b"a.md"]), true);

    assert!(matches!(d.next_action(), Action::RunTests));
    d.on_event(true);

    assert!(matches!(d.next_action(), Action::Move { .. }));
}

#[test]
fn failed_tests_halt_the_run() {
    let mut d = Driver::new(plan_of(&[b"a.md"]), true);

    assert!(matches!(d.next_action(), Action::RunTests));
    d.on_event(false);

    assert!(d.is_finished());
    assert!(matches!(d.next_action(), Action::Finish { ok: false }));
}
