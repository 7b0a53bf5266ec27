use bookbuild::manifest::parse_manifest;
use bookbuild::paths::make_plan;

#[test]
fn plan_pairs_original_and_temporary_spots() {
    let root = b"/proj".to_vec();
    let rels = vec![b"intro.md".to_vec(), b"ch/one.md".to_vec()];
    let plan = make_plan(&root, &rels);
    assert_eq!(
        plan.originals,
        vec![b"/proj/intro.md".to_vec(), b"/proj/ch/one.md".to_vec()]
    );
    assert_eq!(
        plan.temporaries,
        vec![
            b"/proj/src/intro.md".to_vec(),
            b"/proj/src/ch/one.md".to_vec()
        ]
    );
}

#[test]
fn path_lists_always_have_equal_length() {
    let root = b"/proj".to_vec();
    for rels in [
        Vec::new(),
        vec![b"a.md".to_vec()],
        vec![b"a.md".to_vec(), b"b.md".to_vec(), b"a.md".to_vec()],
    ] {
        let plan = make_plan(&root, &rels);
        assert_eq!(plan.originals.len(), plan.temporaries.len());
        assert_eq!(plan.originals.len(), rels.len());
    }
}

#[test]
fn empty_manifest_plans_no_moves() {
    let root = b"/proj".to_vec();
    let content = b"# Summary\nnothing listed\n".to_vec();
    let rels = parse_manifest(&content).unwrap();
    let plan = make_plan(&root, &rels);
    assert!(plan.originals.is_empty());
    assert!(plan.temporaries.is_empty());
}

#[test]
fn plan_entry_count_reports_length() {
    let root = b"/r".to_vec();
    let rels = vec![b"x.md".to_vec()];
    let plan = make_plan(&root, &rels);
    assert_eq!(plan.entry_count(), 1);
}
