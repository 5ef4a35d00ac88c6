//! The decisions of `checkout`: which tree to check out for a target name,
//! whether the destination may receive it, and how HEAD moves afterwards.
//!
//! A [`Checkout`] is a state machine. The caller performs each
//! [`CheckoutAction`] against the repository and the file system, and
//! reports what happened as a [`CheckoutEvent`]; an outside failure ends the
//! checkout with that failure.

use vstd::prelude::*;
use vstd::string::StringExecFns;



verus! {

/// What reading an object found, as far as checkout cares.
pub enum ObjectSummary {
    Tree,
    /// A commit, with the values of its `tree` header, if it has one.
    Commit { tree_entries: Option<Vec<String>> },
    /// Any other kind of object.
    Other,
}

/// What the caller reports after performing an action.
pub enum CheckoutEvent {
    /// Starts the checkout.
    Begin,
    /// The target name resolved to this object id.
    TargetFound(String),
    /// The object asked for was read, or does not exist.
    ObjectRead(Option<ObjectSummary>),
    /// Whether the destination exists, and whether it is a directory.
    DestInspected { exists: bool, is_dir: bool },
    /// Whether the destination directory is empty.
    DirEmptiness(bool),
    /// The destination directory was created.
    DirCreated,
    /// The tree was written out to the destination.
    TreeCheckedOut,
    /// The index was updated to the checked-out files.
    IndexUpdated,
    /// Whether the target name is a branch name.
    BranchChecked(bool),
    /// HEAD was updated.
    HeadUpdated,
}

/// Where HEAD ends up after a successful checkout.
pub enum CheckoutOutcome {
    /// HEAD names the branch that was checked out.
    OnBranch(String),
    /// HEAD is detached at this object id.
    Detached(String),
}

/// Why a checkout stops.
pub enum CheckoutError {
    /// The target name found no object.
    ObjectNotFound(String),
    /// The commit (by id) has no `tree` header.
    CommitMissingTree(String),
    /// The commit's `tree` header has no value.
    CommitEmptyTreeEntry(String),
    /// The commit's tree does not exist.
    CommitTreeMissing(String),
    /// The commit's tree is not a tree object.
    CommitTreeNotTree(String),
    /// The object is neither a commit nor a tree.
    NotTreeish(String),
    /// The destination exists and is not a directory.
    NotADirectory(String),
    /// The destination directory is not empty.
    DirectoryNotEmpty(String),
    /// An event came that the current step does not wait for.
    OutOfOrder,
}

/// The message of a checkout error.
pub open spec fn checkout_error_text(e: CheckoutError) -> Seq<char> {
    match e {
        CheckoutError::ObjectNotFound(name) => "Object "@ + name@ + " not found"@,
        CheckoutError::CommitMissingTree(id) => "Commit "@ + id@ + " is missing a tree"@,
        CheckoutError::CommitEmptyTreeEntry(id) => "Commit "@ + id@ + " has an empty tree entry"@,
        CheckoutError::CommitTreeMissing(id) => "Commit "@ + id@ + " points to a non-existent tree"@,
        CheckoutError::CommitTreeNotTree(id) => "Commit "@ + id@ + " points to a non-tree object as its tree"@,
        CheckoutError::NotTreeish(id) => "Object "@ + id@ + " is not a commit-ish or tree-ish thing"@,
        CheckoutError::NotADirectory(path) => "Path "@ + path@ + " is not a directory"@,
        CheckoutError::DirectoryNotEmpty(path) => "Path "@ + path@ + " is not empty"@,
        CheckoutError::OutOfOrder => "checkout steps out of order"@,
    }
}

/// `before`, then `middle`, then `after`.
fn framed(before: &str, middle: &String, after: &str) -> (m: String)
    ensures
        m@ == before@ + middle@ + after@,
{
    let mut m = String::from_str(before);
    m.append(middle.as_str());
    m.append(after);
    m
}

impl CheckoutError {
    /// The error message.
    pub fn message(&self) -> (m: String)
        ensures
            m@ == checkout_error_text(*self),
    {
        match self {
            CheckoutError::ObjectNotFound(name) => framed("Object ", name, " not found"),
            CheckoutError::CommitMissingTree(id) => framed("Commit ", id, " is missing a tree"),
            CheckoutError::CommitEmptyTreeEntry(id) => framed("Commit ", id, " has an empty tree entry"),
            CheckoutError::CommitTreeMissing(id) => framed("Commit ", id, " points to a non-existent tree"),
            CheckoutError::CommitTreeNotTree(id) => framed("Commit ", id, " points to a non-tree object as its tree"),
            CheckoutError::NotTreeish(id) => framed("Object ", id, " is not a commit-ish or tree-ish thing"),
            CheckoutError::NotADirectory(path) => framed("Path ", path, " is not a directory"),
            CheckoutError::DirectoryNotEmpty(path) => framed("Path ", path, " is not empty"),
            CheckoutError::OutOfOrder => String::from_str("checkout steps out of order"),
        }
    }
}

/// What the caller is asked to do next.
pub enum CheckoutAction {
    /// Resolve this name to an object id.
    FindObject(String),
    /// Read the object with this id.
    ReadObject(String),
    /// Find out whether this path exists and is a directory.
    InspectDest(String),
    /// Find out whether this directory is empty.
    CheckDirEmpty(String),
    /// Create this directory and its parents.
    CreateDir(String),
    /// Write out the tree with this id (the one last read) into `dest`.
    CheckoutTree { tree_id: String, dest: String },
    /// Drop from the index the entries that the checkout did not write.
    UpdateIndex,
    /// Find out whether this name is a branch name.
    CheckBranch(String),
    /// Point HEAD at this branch.
    UpdateHead(String),
    /// Detach HEAD at this object id.
    UpdateHeadDetached(String),
    /// The checkout is over.
    Finish(Result<CheckoutOutcome, CheckoutError>),
}

/// How far a checkout has got.
pub enum CheckoutPhase {
    Start,
    AwaitTargetId,
    AwaitTarget { target_id: String },
    AwaitCommitTree { target_id: String, tree_id: String },
    AwaitDestInfo { target_id: String, tree_id: String },
    AwaitDirEmptiness { target_id: String, tree_id: String },
    AwaitDirCreated { target_id: String, tree_id: String },
    AwaitTreeCheckout { target_id: String },
    AwaitIndex { target_id: String },
    AwaitBranch { target_id: String },
    AwaitHead { outcome: CheckoutOutcome },
    Done,
}

/// A checkout of `target_name` into the directory `dest`.
pub struct Checkout {
    pub target_name: String,
    pub dest: String,
    pub phase: CheckoutPhase,
}

/// The checkout `c` moved to `phase`.
pub open spec fn with_phase(c: Checkout, phase: CheckoutPhase) -> Checkout {
    Checkout { target_name: c.target_name, dest: c.dest, phase }
}

/// Ends the checkout `c` with `result`.
pub open spec fn finish(c: Checkout, result: Result<CheckoutOutcome, CheckoutError>) -> (Checkout, CheckoutAction) {
    (with_phase(c, CheckoutPhase::Done), CheckoutAction::Finish(result))
}

/// The next state and action of checkout `c` on `event`.
pub open spec fn next_step(c: Checkout, event: CheckoutEvent) -> (Checkout, CheckoutAction) {
    match (c.phase, event) {
        (CheckoutPhase::Start, CheckoutEvent::Begin) => (
            with_phase(c, CheckoutPhase::AwaitTargetId),
            CheckoutAction::FindObject(c.target_name),
        ),
        (CheckoutPhase::AwaitTargetId, CheckoutEvent::TargetFound(id)) => (
            with_phase(c, CheckoutPhase::AwaitTarget { target_id: id }),
            CheckoutAction::ReadObject(id),
        ),
        (CheckoutPhase::AwaitTarget { target_id }, CheckoutEvent::ObjectRead(obj)) => match obj {
            None => finish(c, Err(CheckoutError::ObjectNotFound(c.target_name))),
            Some(ObjectSummary::Tree) => (
                with_phase(c, CheckoutPhase::AwaitDestInfo { target_id, tree_id: target_id }),
                CheckoutAction::InspectDest(c.dest),
            ),
            Some(ObjectSummary::Commit { tree_entries }) => match tree_entries {
                None => finish(c, Err(CheckoutError::CommitMissingTree(target_id))),
                Some(entries) => if entries@.len() == 0 {
                    finish(c, Err(CheckoutError::CommitEmptyTreeEntry(target_id)))
                } else {
                    (
                        with_phase(c, CheckoutPhase::AwaitCommitTree { target_id, tree_id: entries@[0] }),
                        CheckoutAction::ReadObject(entries@[0]),
                    )
                },
            },
            Some(ObjectSummary::Other) => finish(c, Err(CheckoutError::NotTreeish(target_id))),
        },
        (CheckoutPhase::AwaitCommitTree { target_id, tree_id }, CheckoutEvent::ObjectRead(obj)) => match obj {
            None => finish(c, Err(CheckoutError::CommitTreeMissing(target_id))),
            Some(ObjectSummary::Tree) => (
                with_phase(c, CheckoutPhase::AwaitDestInfo { target_id, tree_id }),
                CheckoutAction::InspectDest(c.dest),
            ),
            Some(_) => finish(c, Err(CheckoutError::CommitTreeNotTree(target_id))),
        },
        (CheckoutPhase::AwaitDestInfo { target_id, tree_id }, CheckoutEvent::DestInspected { exists, is_dir }) => if !exists {
            (with_phase(c, CheckoutPhase::AwaitDirCreated { target_id, tree_id }), CheckoutAction::CreateDir(c.dest))
        } else if !is_dir {
            finish(c, Err(CheckoutError::NotADirectory(c.dest)))
        } else {
            (with_phase(c, CheckoutPhase::AwaitDirEmptiness { target_id, tree_id }), CheckoutAction::CheckDirEmpty(c.dest))
        },
        (CheckoutPhase::AwaitDirEmptiness { target_id, tree_id }, CheckoutEvent::DirEmptiness(empty)) => if empty {
            (
                with_phase(c, CheckoutPhase::AwaitTreeCheckout { target_id }),
                CheckoutAction::CheckoutTree { tree_id, dest: c.dest },
            )
        } else {
            finish(c, Err(CheckoutError::DirectoryNotEmpty(c.dest)))
        },
        (CheckoutPhase::AwaitDirCreated { target_id, tree_id }, CheckoutEvent::DirCreated) => (
            with_phase(c, CheckoutPhase::AwaitTreeCheckout { target_id }),
            CheckoutAction::CheckoutTree { tree_id, dest: c.dest },
        ),
        (CheckoutPhase::AwaitTreeCheckout { target_id }, CheckoutEvent::TreeCheckedOut) => (
            with_phase(c, CheckoutPhase::AwaitIndex { target_id }),
            CheckoutAction::UpdateIndex,
        ),
        (CheckoutPhase::AwaitIndex { target_id }, CheckoutEvent::IndexUpdated) => (
            with_phase(c, CheckoutPhase::AwaitBranch { target_id }),
            CheckoutAction::CheckBranch(c.target_name),
        ),
        (CheckoutPhase::AwaitBranch { target_id }, CheckoutEvent::BranchChecked(is_branch)) => if is_branch {
            (
                with_phase(c, CheckoutPhase::AwaitHead { outcome: CheckoutOutcome::OnBranch(c.target_name) }),
                CheckoutAction::UpdateHead(c.target_name),
            )
        } else {
            (
                with_phase(c, CheckoutPhase::AwaitHead { outcome: CheckoutOutcome::Detached(target_id) }),
                CheckoutAction::UpdateHeadDetached(target_id),
            )
        },
        (CheckoutPhase::AwaitHead { outcome }, CheckoutEvent::HeadUpdated) => finish(c, Ok(outcome)),
        _ => finish(c, Err(CheckoutError::OutOfOrder)),
    }
}

impl Checkout {
    /// A checkout of `target_name` into `dest`, not yet begun.
    pub fn new(target_name: String, dest: String) -> (c: Checkout)
        ensures
            c == (Checkout { target_name, dest, phase: CheckoutPhase::Start }),
    {
        Checkout { target_name, dest, phase: CheckoutPhase::Start }
    }

    /// Moves the checkout on by one event and says what to do next.
    pub fn step(self, event: CheckoutEvent) -> (res: (Checkout, CheckoutAction))
        ensures
            res == next_step(self, event),
    {
        let Checkout { target_name, dest, phase } = self;
        match (phase, event) {
            (CheckoutPhase::Start, CheckoutEvent::Begin) => {
                let name = target_name.clone();
                (Checkout { target_name, dest, phase: CheckoutPhase::AwaitTargetId }, CheckoutAction::FindObject(name))
            },
            (CheckoutPhase::AwaitTargetId, CheckoutEvent::TargetFound(id)) => {
                let read = id.clone();
                (
                    Checkout { target_name, dest, phase: CheckoutPhase::AwaitTarget { target_id: id } },
                    CheckoutAction::ReadObject(read),
                )
            },
            (CheckoutPhase::AwaitTarget { target_id }, CheckoutEvent::ObjectRead(obj)) => match obj {
                None => {
                    let name = target_name.clone();
                    (
                        Checkout { target_name, dest, phase: CheckoutPhase::Done },
                        CheckoutAction::Finish(Err(CheckoutError::ObjectNotFound(name))),
                    )
                },
                Some(ObjectSummary::Tree) => {
                    let tree_id = target_id.clone();
                    let d = dest.clone();
                    (
                        Checkout { target_name, dest, phase: CheckoutPhase::AwaitDestInfo { target_id, tree_id } },
                        CheckoutAction::InspectDest(d),
                    )
                },
                Some(ObjectSummary::Commit { tree_entries }) => match tree_entries {
                    None => (
                        Checkout { target_name, dest, phase: CheckoutPhase::Done },
                        CheckoutAction::Finish(Err(CheckoutError::CommitMissingTree(target_id))),
                    ),
                    Some(entries) => {
                        if entries.len() == 0 {
                            (
                                Checkout { target_name, dest, phase: CheckoutPhase::Done },
                                CheckoutAction::Finish(Err(CheckoutError::CommitEmptyTreeEntry(target_id))),
                            )
                        } else {
                            let tree_id = entries[0].clone();
                            let read = entries[0].clone();
                            (
                                Checkout {
                                    target_name,
                                    dest,
                                    phase: CheckoutPhase::AwaitCommitTree { target_id, tree_id },
                                },
                                CheckoutAction::ReadObject(read),
                            )
                        }
                    },
                },
                Some(ObjectSummary::Other) => (
                    Checkout { target_name, dest, phase: CheckoutPhase::Done },
                    CheckoutAction::Finish(Err(CheckoutError::NotTreeish(target_id))),
                ),
            },
            (CheckoutPhase::AwaitCommitTree { target_id, tree_id }, CheckoutEvent::ObjectRead(obj)) => match obj {
                None => (
                    Checkout { target_name, dest, phase: CheckoutPhase::Done },
                    CheckoutAction::Finish(Err(CheckoutError::CommitTreeMissing(target_id))),
                ),
                Some(ObjectSummary::Tree) => {
                    let d = dest.clone();
                    (
                        Checkout { target_name, dest, phase: CheckoutPhase::AwaitDestInfo { target_id, tree_id } },
                        CheckoutAction::InspectDest(d),
                    )
                },
                Some(_) => (
                    Checkout { target_name, dest, phase: CheckoutPhase::Done },
                    CheckoutAction::Finish(Err(CheckoutError::CommitTreeNotTree(target_id))),
                ),
            },
            (CheckoutPhase::AwaitDestInfo { target_id, tree_id }, CheckoutEvent::DestInspected { exists, is_dir }) => {
                let d = dest.clone();
                if !exists {
                    (
                        Checkout { target_name, dest, phase: CheckoutPhase::AwaitDirCreated { target_id, tree_id } },
                        CheckoutAction::CreateDir(d),
                    )
                } else if !is_dir {
                    (
                        Checkout { target_name, dest, phase: CheckoutPhase::Done },
                        CheckoutAction::Finish(Err(CheckoutError::NotADirectory(d))),
                    )
                } else {
                    (
                        Checkout { target_name, dest, phase: CheckoutPhase::AwaitDirEmptiness { target_id, tree_id } },
                        CheckoutAction::CheckDirEmpty(d),
                    )
                }
            },
            (CheckoutPhase::AwaitDirEmptiness { target_id, tree_id }, CheckoutEvent::DirEmptiness(empty)) => {
                let d = dest.clone();
                if empty {
                    (
                        Checkout { target_name, dest, phase: CheckoutPhase::AwaitTreeCheckout { target_id } },
                        CheckoutAction::CheckoutTree { tree_id, dest: d },
                    )
                } else {
                    (
                        Checkout { target_name, dest, phase: CheckoutPhase::Done },
                        CheckoutAction::Finish(Err(CheckoutError::DirectoryNotEmpty(d))),
                    )
                }
            },
            (CheckoutPhase::AwaitDirCreated { target_id, tree_id }, CheckoutEvent::DirCreated) => {
                let d = dest.clone();
                (
                    Checkout { target_name, dest, phase: CheckoutPhase::AwaitTreeCheckout { target_id } },
                    CheckoutAction::CheckoutTree { tree_id, dest: d },
                )
            },
            (CheckoutPhase::AwaitTreeCheckout { target_id }, CheckoutEvent::TreeCheckedOut) => (
                Checkout { target_name, dest, phase: CheckoutPhase::AwaitIndex { target_id } },
                CheckoutAction::UpdateIndex,
            ),
            (CheckoutPhase::AwaitIndex { target_id }, CheckoutEvent::IndexUpdated) => {
                let name = target_name.clone();
                (
                    Checkout { target_name, dest, phase: CheckoutPhase::AwaitBranch { target_id } },
                    CheckoutAction::CheckBranch(name),
                )
            },
            (CheckoutPhase::AwaitBranch { target_id }, CheckoutEvent::BranchChecked(is_branch)) => {
                if is_branch {
                    let name = target_name.clone();
                    let head = target_name.clone();
                    (
                        Checkout {
                            target_name,
                            dest,
                            phase: CheckoutPhase::AwaitHead { outcome: CheckoutOutcome::OnBranch(name) },
                        },
                        CheckoutAction::UpdateHead(head),
                    )
                } else {
                    let head = target_id.clone();
                    (
                        Checkout {
                            target_name,
                            dest,
                            phase: CheckoutPhase::AwaitHead { outcome: CheckoutOutcome::Detached(target_id) },
                        },
                        CheckoutAction::UpdateHeadDetached(head),
                    )
                }
            },
            (CheckoutPhase::AwaitHead { outcome }, CheckoutEvent::HeadUpdated) => (
                Checkout { target_name, dest, phase: CheckoutPhase::Done },
                CheckoutAction::Finish(Ok(outcome)),
            ),
            _ => (
                Checkout { target_name, dest, phase: CheckoutPhase::Done },
                CheckoutAction::Finish(Err(CheckoutError::OutOfOrder)),
            ),
        }
    }
}

/// A tree is only ever written out into a directory that was just found
/// empty or that the checkout just created.
pub proof fn lemma_checkout_only_into_empty_or_new_dir(c: Checkout, event: CheckoutEvent)
    ensures
        next_step(c, event).1 is CheckoutTree ==> {
            ||| (c.phase is AwaitDirEmptiness && event == CheckoutEvent::DirEmptiness(true))
            ||| (c.phase is AwaitDirCreated && event is DirCreated)
        },
{
}

/// HEAD is only moved once the index has been updated: the step that asks
/// for it answers a branch check, and a branch check is only asked for
/// after the index update.
pub proof fn lemma_head_moves_after_index(c: Checkout, event: CheckoutEvent)
    ensures
        (next_step(c, event).1 is UpdateHead || next_step(c, event).1 is UpdateHeadDetached) ==> c.phase is AwaitBranch
            && event is BranchChecked,
        next_step(c, event).0.phase is AwaitBranch ==> c.phase is AwaitIndex && event is IndexUpdated,
        next_step(c, event).1 is UpdateIndex ==> c.phase is AwaitTreeCheckout && event is TreeCheckedOut,
{
}

/// A finished checkout stays finished, and every step keeps the target
/// name and the destination.
pub proof fn lemma_done_is_final(c: Checkout, event: CheckoutEvent)
    ensures
        next_step(c, event).0.target_name == c.target_name,
        next_step(c, event).0.dest == c.dest,
        c.phase is Done ==> next_step(c, event).0.phase is Done && next_step(c, event).1 == CheckoutAction::Finish(
            Err(CheckoutError::OutOfOrder),
        ),
{
}

/// The state reached and the actions asked for when checkout `c` is given
/// `events` one after another.
pub open spec fn run(c: Checkout, events: Seq<CheckoutEvent>) -> (Checkout, Seq<CheckoutAction>)
    decreases events.len(),
{
    if events.len() == 0 {
        (c, Seq::empty())
    } else {
        let (before, actions) = run(c, events.drop_last());
        let (after, action) = next_step(before, events.last());
        (after, actions.push(action))
    }
}

/// Some action asked for writes out a tree, and a later one updates the index.
pub open spec fn index_updated_after_tree(actions: Seq<CheckoutAction>, before: int) -> bool {
    exists|i: int, j: int|
        0 <= i < j < before && #[trigger] actions[i] is CheckoutTree && #[trigger] actions[j] is UpdateIndex
}

/// What each phase tells of the actions asked for on the way to it.
spec fn history_fits(phase: CheckoutPhase, actions: Seq<CheckoutAction>) -> bool {
    &&& phase is AwaitTreeCheckout ==> exists|i: int| 0 <= i < actions.len() && #[trigger] actions[i] is CheckoutTree
    &&& (phase is AwaitIndex || phase is AwaitBranch || phase is AwaitHead) ==> index_updated_after_tree(
        actions,
        actions.len() as int,
    )
    &&& forall|k: int|
        0 <= k < actions.len() && (#[trigger] actions[k] is UpdateHead || actions[k] is UpdateHeadDetached)
            ==> index_updated_after_tree(actions, k)
}

proof fn lemma_history(c: Checkout, events: Seq<CheckoutEvent>)
    requires
        c.phase is Start,
    ensures
        history_fits(run(c, events).0.phase, run(c, events).1),
        run(c, events).1.len() == events.len(),
    decreases events.len(),
{
    if events.len() > 0 {
        lemma_history(c, events.drop_last());
        let (before, actions) = run(c, events.drop_last());
        let (after, action) = next_step(before, events.last());
        let all = actions.push(action);
        assert(run(c, events) == (after, all));
        if after.phase is AwaitTreeCheckout {
            assert(all[all.len() - 1] is CheckoutTree);
        }
        if after.phase is AwaitIndex {
            let i = choose|i: int| 0 <= i < actions.len() && #[trigger] actions[i] is CheckoutTree;
            assert(all[i] is CheckoutTree);
            assert(all[all.len() - 1] is UpdateIndex);
        }
        if after.phase is AwaitBranch || after.phase is AwaitHead {
            let (i, j) = choose|i: int, j: int|
                0 <= i < j < actions.len() && #[trigger] actions[i] is CheckoutTree && #[trigger] actions[j] is UpdateIndex;
            assert(all[i] is CheckoutTree && all[j] is UpdateIndex);
        }
        assert forall|k: int|
            0 <= k < all.len() && (#[trigger] all[k] is UpdateHead || all[k] is UpdateHeadDetached)
            implies index_updated_after_tree(all, k) by {
            if k < actions.len() {
                assert(all[k] == actions[k]);
                let (i, j) = choose|i: int, j: int|
                    0 <= i < j < k && #[trigger] actions[i] is CheckoutTree && #[trigger] actions[j] is UpdateIndex;
                assert(all[i] is CheckoutTree && all[j] is UpdateIndex);
            } else {
                let (i, j) = choose|i: int, j: int|
                    0 <= i < j < actions.len() && #[trigger] actions[i] is CheckoutTree && #[trigger] actions[j] is UpdateIndex;
                assert(all[i] is CheckoutTree && all[j] is UpdateIndex);
            }
        }
    }
}

/// Whatever events a checkout is given from its start, every request to
/// move HEAD comes after a request to write out the tree and, after that,
/// one to update the index.
pub proof fn lemma_head_moves_after_checkout_and_index(c: Checkout, events: Seq<CheckoutEvent>)
    requires
        c.phase is Start,
    ensures
        forall|k: int|
            0 <= k < run(c, events).1.len() && (#[trigger] run(c, events).1[k] is UpdateHead
                || run(c, events).1[k] is UpdateHeadDetached) ==> index_updated_after_tree(run(c, events).1, k),
{
    lemma_history(c, events);
}

/// The object id a phase carries for moving HEAD: the target's id while
/// the checkout is under way, and the id HEAD is to be detached at.
spec fn phase_target(phase: CheckoutPhase) -> Option<String> {
    match phase {
        CheckoutPhase::AwaitTarget { target_id } => Some(target_id),
        CheckoutPhase::AwaitCommitTree { target_id, .. } => Some(target_id),
        CheckoutPhase::AwaitDestInfo { target_id, .. } => Some(target_id),
        CheckoutPhase::AwaitDirEmptiness { target_id, .. } => Some(target_id),
        CheckoutPhase::AwaitDirCreated { target_id, .. } => Some(target_id),
        CheckoutPhase::AwaitTreeCheckout { target_id } => Some(target_id),
        CheckoutPhase::AwaitIndex { target_id } => Some(target_id),
        CheckoutPhase::AwaitBranch { target_id } => Some(target_id),
        CheckoutPhase::AwaitHead { outcome: CheckoutOutcome::Detached(x) } => Some(x),
        _ => None,
    }
}

/// The events begin the checkout and then report that the target name
/// resolved to the object id `x`.
pub open spec fn target_found_as(events: Seq<CheckoutEvent>, x: String) -> bool {
    &&& events.len() >= 2
    &&& events[0] == CheckoutEvent::Begin
    &&& events[1] == CheckoutEvent::TargetFound(x)
}

/// Every HEAD move in `actions`, and every successful end, names the
/// target: a detached HEAD the id reported for it, a branch its name.
pub open spec fn head_names_target(c: Checkout, events: Seq<CheckoutEvent>, actions: Seq<CheckoutAction>) -> bool {
    &&& forall|k: int|
        0 <= k < actions.len() ==> (#[trigger] actions[k] matches CheckoutAction::UpdateHeadDetached(x)
            ==> target_found_as(events, x))
    &&& forall|k: int|
        0 <= k < actions.len() ==> (#[trigger] actions[k] matches CheckoutAction::Finish(Ok(CheckoutOutcome::Detached(x)))
            ==> target_found_as(events, x))
    &&& forall|k: int|
        0 <= k < actions.len() ==> (#[trigger] actions[k] matches CheckoutAction::UpdateHead(x) ==> x == c.target_name)
    &&& forall|k: int|
        0 <= k < actions.len() ==> (#[trigger] actions[k] matches CheckoutAction::Finish(Ok(CheckoutOutcome::OnBranch(x)))
            ==> x == c.target_name)
}

/// What each phase tells of the events that led to it.
spec fn target_fits(c: Checkout, phase: CheckoutPhase, events: Seq<CheckoutEvent>) -> bool {
    &&& phase is Start ==> events.len() == 0
    &&& phase is AwaitTargetId ==> events.len() == 1 && events[0] == CheckoutEvent::Begin
    &&& phase_target(phase) matches Some(x) ==> target_found_as(events, x)
    &&& phase matches CheckoutPhase::AwaitHead { outcome: CheckoutOutcome::OnBranch(x) } ==> x == c.target_name
}

proof fn lemma_target_history(c: Checkout, events: Seq<CheckoutEvent>)
    requires
        c.phase is Start,
    ensures
        run(c, events).0.target_name == c.target_name,
        run(c, events).0.dest == c.dest,
        target_fits(c, run(c, events).0.phase, events),
        head_names_target(c, events, run(c, events).1),
        run(c, events).1.len() == events.len(),
    decreases events.len(),
{
    if events.len() > 0 {
        let prev = events.drop_last();
        lemma_target_history(c, prev);
        let (before, actions) = run(c, prev);
        let (after, action) = next_step(before, events.last());
        let all = actions.push(action);
        assert(run(c, events) == (after, all));
        if prev.len() >= 2 {
            assert(events[0] == prev[0] && events[1] == prev[1]);
        }
        assert forall|x: String| target_found_as(prev, x) implies target_found_as(events, x) by {
            assert(events[0] == prev[0] && events[1] == prev[1]);
        }
        assert(events.last() == events[events.len() - 1]);
        assert forall|k: int| 0 <= k < all.len() implies
            (#[trigger] all[k] matches CheckoutAction::UpdateHeadDetached(x) ==> target_found_as(events, x))
            && (all[k] matches CheckoutAction::Finish(Ok(CheckoutOutcome::Detached(x))) ==> target_found_as(events, x))
            && (all[k] matches CheckoutAction::UpdateHead(x) ==> x == c.target_name)
            && (all[k] matches CheckoutAction::Finish(Ok(CheckoutOutcome::OnBranch(x))) ==> x == c.target_name) by {
            if k < actions.len() {
                assert(all[k] == actions[k]);
            }
        }
    }
}

/// The events resolved the target name and then read a tree with id `t`:
/// the target itself, or the tree that the target commit names first.
pub open spec fn tree_found_as(events: Seq<CheckoutEvent>, t: String) -> bool {
    ||| (target_found_as(events, t) && events.len() >= 3 && events[2] == CheckoutEvent::ObjectRead(
        Some(ObjectSummary::Tree),
    ))
    ||| (events.len() >= 4 && events[0] == CheckoutEvent::Begin && events[1] is TargetFound && commit_names_tree(events[2], t)
        && events[3] == CheckoutEvent::ObjectRead(Some(ObjectSummary::Tree)))
}

/// `e` reports reading a commit whose first `tree` value is `t`.
pub open spec fn commit_names_tree(e: CheckoutEvent, t: String) -> bool {
    e matches CheckoutEvent::ObjectRead(Some(ObjectSummary::Commit { tree_entries: Some(entries) })) && entries@.len() > 0
        && entries@[0] == t
}

/// Every tree written out in `actions` is written into the destination,
/// and is the tree the events found.
pub open spec fn tree_written_is_found(c: Checkout, events: Seq<CheckoutEvent>, actions: Seq<CheckoutAction>) -> bool {
    forall|k: int|
        0 <= k < actions.len() ==> (#[trigger] actions[k] matches CheckoutAction::CheckoutTree { tree_id, dest }
            ==> dest == c.dest && tree_found_as(events, tree_id))
}

/// What each phase tells of the tree the events found.
spec fn tree_fits(phase: CheckoutPhase, events: Seq<CheckoutEvent>) -> bool {
    &&& phase matches CheckoutPhase::AwaitCommitTree { tree_id, .. } ==> events.len() == 3 && commit_names_tree(
        events[2],
        tree_id,
    )
    &&& phase matches CheckoutPhase::AwaitDestInfo { tree_id, .. } ==> tree_found_as(events, tree_id)
    &&& phase matches CheckoutPhase::AwaitDirEmptiness { tree_id, .. } ==> tree_found_as(events, tree_id)
    &&& phase matches CheckoutPhase::AwaitDirCreated { tree_id, .. } ==> tree_found_as(events, tree_id)
    &&& (phase is AwaitTarget ==> events.len() == 2)
}

proof fn lemma_tree_history(c: Checkout, events: Seq<CheckoutEvent>)
    requires
        c.phase is Start,
    ensures
        tree_fits(run(c, events).0.phase, events),
        tree_written_is_found(c, events, run(c, events).1),
    decreases events.len(),
{
    lemma_target_history(c, events);
    if events.len() > 0 {
        let prev = events.drop_last();
        lemma_tree_history(c, prev);
        lemma_target_history(c, prev);
        let (before, actions) = run(c, prev);
        let (after, action) = next_step(before, events.last());
        let all = actions.push(action);
        assert(run(c, events) == (after, all));
        assert(events.last() == events[events.len() - 1]);
        assert forall|i: int| 0 <= i < prev.len() implies events[i] == prev[i] by {}
        assert forall|t: String| tree_found_as(prev, t) implies tree_found_as(events, t) by {
            assert(events[0] == prev[0] && events[1] == prev[1]);
            if prev.len() >= 3 {
                assert(events[2] == prev[2]);
            }
            if prev.len() >= 4 {
                assert(events[3] == prev[3]);
            }
        }
        assert forall|k: int| 0 <= k < all.len() implies (#[trigger] all[k] matches CheckoutAction::CheckoutTree {
            tree_id,
            dest,
        } ==> dest == c.dest && tree_found_as(events, tree_id)) by {
            if k < actions.len() {
                assert(all[k] == actions[k]);
            }
        }
    }
}

/// Whatever events a checkout is given from its start, a tree is only
/// ever written out into the destination, and it is the tree the checkout
/// found: the target itself when the target is a tree, or the tree that
/// the target commit names first.
pub proof fn lemma_checks_out_the_found_tree(c: Checkout, events: Seq<CheckoutEvent>)
    requires
        c.phase is Start,
    ensures
        tree_written_is_found(c, events, run(c, events).1),
{
    lemma_tree_history(c, events);
}

/// Whatever events a checkout is given from its start, HEAD is only ever
/// detached at, and a checkout only ever ends detached at, the object id
/// that the target name was reported to resolve to; HEAD is only ever
/// pointed at, and a checkout only ever ends on, the branch that the
/// target name names.
pub proof fn lemma_head_names_the_target(c: Checkout, events: Seq<CheckoutEvent>)
    requires
        c.phase is Start,
    ensures
        head_names_target(c, events, run(c, events).1),
{
    lemma_target_history(c, events);
}

} // verus!
