use cvvc::checkout::{Checkout, CheckoutAction, CheckoutError, CheckoutEvent, CheckoutOutcome, ObjectSummary};

fn start(name: &str, dest: &str) -> (Checkout, CheckoutAction) {
    Checkout::new(String::from(name), String::from(dest)).step(CheckoutEvent::Begin)
}

fn finished_with(action: &CheckoutAction) -> Option<String> {
    match action {
        CheckoutAction::Finish(Err(e)) => Some(e.message()),
        _ => None,
    }
}

#[test]
fn tree_into_new_directory_on_branch() {
    let (c, a) = start("main", "out");
    assert!(matches!(a, CheckoutAction::FindObject(ref n) if n == "main"));
    let (c, a) = c.step(CheckoutEvent::TargetFound(String::from("abc123")));
    assert!(matches!(a, CheckoutAction::ReadObject(ref id) if id == "abc123"));
    let (c, a) = c.step(CheckoutEvent::ObjectRead(Some(ObjectSummary::Tree)));
    assert!(matches!(a, CheckoutAction::InspectDest(ref d) if d == "out"));
    let (c, a) = c.step(CheckoutEvent::DestInspected { exists: false, is_dir: false });
    assert!(matches!(a, CheckoutAction::CreateDir(ref d) if d == "out"));
    let (c, a) = c.step(CheckoutEvent::DirCreated);
    assert!(matches!(a, CheckoutAction::CheckoutTree { ref tree_id, ref dest } if tree_id == "abc123" && dest == "out"));
    let (c, a) = c.step(CheckoutEvent::TreeCheckedOut);
    assert!(matches!(a, CheckoutAction::UpdateIndex));
    let (c, a) = c.step(CheckoutEvent::IndexUpdated);
    assert!(matches!(a, CheckoutAction::CheckBranch(ref n) if n == "main"));
    let (c, a) = c.step(CheckoutEvent::BranchChecked(true));
    assert!(matches!(a, CheckoutAction::UpdateHead(ref n) if n == "main"));
    let (_, a) = c.step(CheckoutEvent::HeadUpdated);
    assert!(matches!(a, CheckoutAction::Finish(Ok(CheckoutOutcome::OnBranch(ref n))) if n == "main"));
}

#[test]
fn commit_into_empty_directory_detaches_head() {
    let (c, _) = start("abc", "out");
    let (c, _) = c.step(CheckoutEvent::TargetFound(String::from("abc999")));
    let commit = ObjectSummary::Commit { tree_entries: Some(vec![String::from("tree77"), String::from("x")]) };
    let (c, a) = c.step(CheckoutEvent::ObjectRead(Some(commit)));
    assert!(matches!(a, CheckoutAction::ReadObject(ref id) if id == "tree77"));
    let (c, a) = c.step(CheckoutEvent::ObjectRead(Some(ObjectSummary::Tree)));
    assert!(matches!(a, CheckoutAction::InspectDest(_)));
    let (c, a) = c.step(CheckoutEvent::DestInspected { exists: true, is_dir: true });
    assert!(matches!(a, CheckoutAction::CheckDirEmpty(ref d) if d == "out"));
    let (c, a) = c.step(CheckoutEvent::DirEmptiness(true));
    assert!(matches!(a, CheckoutAction::CheckoutTree { ref tree_id, .. } if tree_id == "tree77"));
    let (c, _) = c.step(CheckoutEvent::TreeCheckedOut);
    let (c, _) = c.step(CheckoutEvent::IndexUpdated);
    let (c, a) = c.step(CheckoutEvent::BranchChecked(false));
    assert!(matches!(a, CheckoutAction::UpdateHeadDetached(ref id) if id == "abc999"));
    let (_, a) = c.step(CheckoutEvent::HeadUpdated);
    assert!(matches!(a, CheckoutAction::Finish(Ok(CheckoutOutcome::Detached(ref id))) if id == "abc999"));
}

#[test]
fn missing_target_object() {
    let (c, _) = start("nope", "out");
    let (c, _) = c.step(CheckoutEvent::TargetFound(String::from("0000")));
    let (_, a) = c.step(CheckoutEvent::ObjectRead(None));
    assert_eq!(finished_with(&a), Some(String::from("Object nope not found")));
}

#[test]
fn commit_tree_problems() {
    let read = |summary| {
        let (c, _) = start("c", "out");
        let (c, _) = c.step(CheckoutEvent::TargetFound(String::from("c1")));
        c.step(CheckoutEvent::ObjectRead(Some(summary)))
    };
    let (_, a) = read(ObjectSummary::Commit { tree_entries: None });
    assert_eq!(finished_with(&a), Some(String::from("Commit c1 is missing a tree")));
    let (_, a) = read(ObjectSummary::Commit { tree_entries: Some(vec![]) });
    assert_eq!(finished_with(&a), Some(String::from("Commit c1 has an empty tree entry")));
    let (_, a) = read(ObjectSummary::Other);
    assert_eq!(finished_with(&a), Some(String::from("Object c1 is not a commit-ish or tree-ish thing")));
    let (c, _) = read(ObjectSummary::Commit { tree_entries: Some(vec![String::from("t")]) });
    let (_, a) = c.step(CheckoutEvent::ObjectRead(None));
    assert_eq!(finished_with(&a), Some(String::from("Commit c1 points to a non-existent tree")));
    let (c, _) = read(ObjectSummary::Commit { tree_entries: Some(vec![String::from("t")]) });
    let (_, a) = c.step(CheckoutEvent::ObjectRead(Some(ObjectSummary::Other)));
    assert_eq!(finished_with(&a), Some(String::from("Commit c1 points to a non-tree object as its tree")));
}

#[test]
fn destination_problems() {
    let at_dest = || {
        let (c, _) = start("main", "dst");
        let (c, _) = c.step(CheckoutEvent::TargetFound(String::from("t1")));
        let (c, _) = c.step(CheckoutEvent::ObjectRead(Some(ObjectSummary::Tree)));
        c
    };
    let (_, a) = at_dest().step(CheckoutEvent::DestInspected { exists: true, is_dir: false });
    assert_eq!(finished_with(&a), Some(String::from("Path dst is not a directory")));
    let (c, _) = at_dest().step(CheckoutEvent::DestInspected { exists: true, is_dir: true });
    let (_, a) = c.step(CheckoutEvent::DirEmptiness(false));
    assert_eq!(finished_with(&a), Some(String::from("Path dst is not empty")));
}

#[test]
fn events_out_of_order_end_the_checkout() {
    let (c, _) = start("main", "dst");
    let (c, a) = c.step(CheckoutEvent::HeadUpdated);
    assert!(matches!(a, CheckoutAction::Finish(Err(CheckoutError::OutOfOrder))));
    let (_, a) = c.step(CheckoutEvent::Begin);
    assert!(matches!(a, CheckoutAction::Finish(Err(CheckoutError::OutOfOrder))));
}
