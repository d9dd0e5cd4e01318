use hashattr::finders::{create, next_claim, EntryAction, ReaderPlan, Visitor};

#[test]
fn recursive_plan_walks_given_roots_or_the_current_directory() {
    match create(true, true, vec!["a", "b"], ".") {
        ReaderPlan::Walk { follow_symlinks, roots } => {
            assert!(follow_symlinks);
            assert_eq!(roots, vec!["a", "b"]);
        },
        _ => panic!("expected a walk"),
    }
    match create(true, false, Vec::new(), ".") {
        ReaderPlan::Walk { follow_symlinks, roots } => {
            assert!(!follow_symlinks);
            assert_eq!(roots, vec!["."]);
        },
        _ => panic!("expected a walk"),
    }
}

#[test]
fn plain_plan_lists_the_paths() {
    match create(false, true, vec!["x"], ".") {
        ReaderPlan::List(paths) => assert_eq!(paths, vec!["x"]),
        _ => panic!("expected a list"),
    }
    match create::<&str>(false, true, Vec::new(), ".") {
        ReaderPlan::List(paths) => assert!(paths.is_empty()),
        _ => panic!("expected a list"),
    }
}

#[test]
fn directories_are_entered_once() {
    let mut v = Visitor::new(false);
    assert!(v.enter(b"/a".to_vec()));
    assert!(v.enter(b"/a/b".to_vec()));
    assert!(!v.enter(b"/a".to_vec()));
    assert!(!v.enter(b"/a/b".to_vec()));
    assert!(v.enter(b"/c".to_vec()));
}

#[test]
fn entries_are_sorted_by_kind() {
    let strict = Visitor::new(false);
    let follow = Visitor::new(true);
    assert!(strict.entry_action(true, true, false) == EntryAction::Skip);
    assert!(strict.entry_action(true, false, true) == EntryAction::Skip);
    assert!(follow.entry_action(true, true, false) == EntryAction::Descend);
    assert!(follow.entry_action(true, false, true) == EntryAction::Report);
    assert!(strict.entry_action(false, true, false) == EntryAction::Descend);
    assert!(strict.entry_action(false, false, true) == EntryAction::Report);
    assert!(strict.entry_action(false, false, false) == EntryAction::Ignore);
}

#[test]
fn list_cursor_claims_each_index_once() {
    assert_eq!(next_claim(0, 2), Some((0, 1)));
    assert_eq!(next_claim(1, 2), Some((1, 2)));
    assert_eq!(next_claim(2, 2), None);
    assert_eq!(next_claim(5, 2), None);
    assert_eq!(next_claim(0, 0), None);
}
