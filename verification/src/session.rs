//! The session: what the server remembers of one client's screen.
//!
//! A session holds the tree that the client last received, or nothing before
//! the first render. A render compares the new tree with it, remembers the
//! new tree where anything changed, and hands back the batch to send. The
//! caller holds the session exclusively while it renders, so that no two
//! renders ever compare against the same remembered tree.

use vstd::prelude::*;

use crate::apply::apply;
use crate::apply::lemma_chosen_of_one;
use crate::apply::lemma_no_patches_only_to_itself;
use crate::apply::lemma_no_patches_to_itself;
use crate::apply::lemma_round_trip;
use crate::apply::Place;
use crate::diff::diff;
use crate::diff::patches;
use crate::gui::Item;
use crate::gui::Tree;
use crate::types::patch_models;
use crate::types::path_model;
use crate::types::ClientAction;
use crate::types::Patch;
use crate::types::Replace;

verus! {

/// The batch that a render of `new_tree` sends when the client last
/// received `last`: the whole tree at the first render, later the patches
/// that lead from the last tree to the new one.
pub open spec fn outgoing(last: Option<Tree>, new_tree: Tree) -> Seq<Patch> {
    match last {
        Some(tree) => patches(tree, new_tree),
        None => seq![Patch::Replace { path: Seq::empty(), item: new_tree }],
    }
}

/// What a session remembers after a render of `new_tree`: the new tree
/// where a batch went out, and what it remembered before where none did.
pub open spec fn remembered(last: Option<Tree>, new_tree: Tree) -> Option<Tree> {
    if outgoing(last, new_tree).len() == 0 {
        last
    } else {
        Some(new_tree)
    }
}

/// What a client shows that showed `shown` and then received `batch`.
pub open spec fn shown_after(shown: Option<Tree>, batch: Seq<Patch>) -> Option<Tree> {
    if batch.len() == 0 {
        shown
    } else {
        match shown {
            Some(tree) => Some(apply(tree, batch)),
            None => Some(apply(Tree::View { children: Seq::empty() }, batch)),
        }
    }
}

/// The reconciliation state of one connection.
#[derive(Debug)]
pub struct Session {
    last_tree: Option<Item>,
}

impl Session {
    /// The tree that the client last received.
    pub closed spec fn last(&self) -> Option<Tree> {
        match self.last_tree {
            Some(item) => Some(item@),
            None => None,
        }
    }

    /// A session that has rendered nothing yet.
    pub fn new() -> (session: Session)
        ensures
            session.last() is None,
    {
        Session { last_tree: None }
    }

    /// Renders `new_tree`. Gives the batch to send as one frame, or `None`
    /// where nothing changed and nothing is to be sent.
    pub fn render(&mut self, new_tree: Item) -> (frame: Option<Vec<ClientAction>>)
        ensures
            frame is None <==> outgoing(old(self).last(), new_tree@).len() == 0,
            frame matches Some(batch) ==> patch_models(batch@) == outgoing(
                old(self).last(),
                new_tree@,
            ),
            old(self).last() is None ==> frame is Some && patch_models(frame->0@) == seq![
                Patch::Replace { path: Seq::empty(), item: new_tree@ },
            ],
            final(self).last() == remembered(old(self).last(), new_tree@),
    {
        let changes = match &self.last_tree {
            Some(last_root) => diff(last_root, &new_tree),
            None => {
                let mut whole: Vec<ClientAction> = Vec::new();
                let action = ClientAction::Replace(
                    Replace { path: Vec::new(), item: new_tree.clone() },
                );
                assert(path_model(action->Replace_0.path@) =~= Seq::<int>::empty());
                whole.push(action);
                assert(patch_models(whole@) =~= outgoing(None, new_tree@));
                whole
            },
        };
        if changes.len() == 0 {
            return None;
        }
        self.last_tree = Some(new_tree);
        Some(changes)
    }
}

/// No-op render: a render of the tree that was just rendered sends nothing
/// and leaves the session as it is.
pub proof fn lemma_second_render_is_silent(last: Option<Tree>, tree: Tree)
    ensures
        outgoing(remembered(last, tree), tree) == Seq::<Patch>::empty(),
        remembered(remembered(last, tree), tree) == remembered(last, tree),
{
    lemma_no_patches_to_itself(tree);
    if outgoing(last, tree).len() == 0 {
        assert(outgoing(last, tree) =~= Seq::<Patch>::empty());
    }
}

/// Two renders of one tree in a row send exactly one frame, the first,
/// where the session has not rendered that tree last.
pub proof fn lemma_two_renders_one_frame(last: Option<Tree>, tree: Tree)
    requires
        last != Some(tree),
    ensures
        outgoing(last, tree).len() > 0,
        outgoing(remembered(last, tree), tree).len() == 0,
{
    lemma_render_speaks_of_change(last, tree);
    lemma_second_render_is_silent(last, tree);
}

/// A render sends a batch exactly when the session has not rendered the
/// same tree last.
pub proof fn lemma_render_speaks_of_change(last: Option<Tree>, tree: Tree)
    ensures
        outgoing(last, tree).len() == 0 <==> last == Some(tree),
{
    match last {
        Some(before) => {
            if outgoing(last, tree).len() == 0 {
                assert(patches(before, tree) =~= Seq::<Patch>::empty());
                lemma_no_patches_only_to_itself(before, tree);
            }
            if before == tree {
                lemma_no_patches_to_itself(tree);
            }
        },
        None => {},
    }
}

/// After any render the session remembers the rendered tree.
pub proof fn lemma_render_remembers(last: Option<Tree>, tree: Tree)
    ensures
        remembered(last, tree) == Some(tree),
{
    lemma_render_speaks_of_change(last, tree);
}

/// A client that shows what the session remembers, and applies each batch
/// that a render sends, shows what the session remembers afterwards.
pub proof fn lemma_client_follows(last: Option<Tree>, tree: Tree)
    ensures
        shown_after(last, outgoing(last, tree)) == remembered(last, tree),
{
    match last {
        Some(before) => {
            lemma_round_trip(before, tree);
        },
        None => {
            lemma_chosen_of_one(Patch::Replace { path: Seq::empty(), item: tree }, Place::Whole);
        },
    }
}

} // verus!
