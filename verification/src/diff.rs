//! The tree differ: the patches that lead from one tree to another.
//!
//! Two containers are compared child list against child list, by the edit
//! script of the two lists. Where the script replaces a child, the differ
//! descends into it, so that a change deep in the tree gives a small patch
//! there and not a new subtree. Any other pair of nodes is either equal, and
//! gives nothing, or is replaced as a whole.

use vstd::prelude::*;

use crate::edit_distance::carry_out;
use crate::edit_distance::get_minimum_edits;
use crate::edit_distance::lemma_script_in_range;
use crate::edit_distance::lemma_script_of_equal_pairings;
use crate::edit_distance::paired;
use crate::edit_distance::pairing;
use crate::edit_distance::script;
use crate::edit_distance::EditOperation;
use crate::edit_distance::Step;
use crate::gui::trees;
use crate::gui::Item;
use crate::gui::Tree;
use crate::types::all_below;
use crate::types::patch_models;
use crate::types::path_model;
use crate::types::AddFront;
use crate::types::ClientAction;
use crate::types::InsertAt;
use crate::types::ItemPath;
use crate::types::Patch;
use crate::types::RemoveInx;
use crate::types::Replace;

verus! {

/// The pairing of two child lists: equal trees are paired.
pub open spec fn tree_pairing(old_children: Seq<Tree>, new_children: Seq<Tree>) -> spec_fn(
    int,
    int,
) -> bool {
    |i: int, j: int| old_children[i] == new_children[j]
}

/// The edit script between two child lists.
pub open spec fn child_script(old_children: Seq<Tree>, new_children: Seq<Tree>) -> Seq<Step> {
    script(
        tree_pairing(old_children, new_children),
        old_children.len() as int,
        new_children.len() as int,
    )
}

/// The patches that lead from `old_tree` to `new_tree`, with paths that
/// start at `old_tree`.
pub open spec fn patches(old_tree: Tree, new_tree: Tree) -> Seq<Patch>
    decreases old_tree,
{
    match (old_tree, new_tree) {
        (Tree::View { children: old_children }, Tree::View { children: new_children }) => {
            let steps = child_script(old_children, new_children);
            lifted(old_children, new_children, steps, steps.len() as int)
        },
        _ => if old_tree == new_tree {
            Seq::empty()
        } else {
            seq![Patch::Replace { path: Seq::empty(), item: new_tree }]
        },
    }
}

/// The patches of the first `k` steps of a script between two child lists.
/// An insertion or a removal becomes one patch of the container itself; a
/// replacement becomes the patches between the old child and the new one,
/// seen from the container.
pub open spec fn lifted(
    old_children: Seq<Tree>,
    new_children: Seq<Tree>,
    steps: Seq<Step>,
    k: int,
) -> Seq<Patch>
    decreases old_children, k,
{
    if k <= 0 || k > steps.len() {
        Seq::empty()
    } else {
        lifted(old_children, new_children, steps, k - 1) + (match steps[k - 1] {
            Step::InsertFirst { new_inx } => seq![
                Patch::AddFront { path: Seq::empty(), item: new_children[new_inx] },
            ],
            Step::InsertAt { old_inx, new_inx } => seq![
                Patch::InsertAt { path: Seq::empty(), inx: old_inx, item: new_children[new_inx] },
            ],
            Step::RemoveAt { old_inx } => seq![Patch::RemoveInx { path: Seq::empty(), inx: old_inx }],
            Step::ReplaceAt { old_inx, new_inx } => if 0 <= old_inx < old_children.len() {
                all_below(patches(old_children[old_inx], new_children[new_inx]), seq![old_inx])
            } else {
                Seq::empty()
            },
        })
    }
}

/// Seen from where they start, patches are themselves.
pub proof fn lemma_below_nothing(list: Seq<Patch>)
    ensures
        all_below(list, Seq::empty()) == list,
{
    assert forall|i: int| 0 <= i < list.len() implies list[i].below(Seq::empty()) == list[i] by {
        assert(Seq::<int>::empty() + list[i].path() =~= list[i].path());
    }
    assert(all_below(list, Seq::empty()) =~= list);
}

/// To look at patches from `inner` and then from `outer` is to look at them
/// from `outer + inner`.
pub proof fn lemma_below_twice(list: Seq<Patch>, inner: Seq<int>, outer: Seq<int>)
    ensures
        all_below(all_below(list, inner), outer) == all_below(list, outer + inner),
{
    assert forall|i: int| 0 <= i < list.len() implies list[i].below(inner).below(outer)
        == list[i].below(outer + inner) by {
        assert(outer + (inner + list[i].path()) =~= (outer + inner) + list[i].path());
    }
    assert(all_below(all_below(list, inner), outer) =~= all_below(list, outer + inner));
}

/// Appends to `changes` the patches that lead from `prev` to `next`, each
/// addressed from the root by way of `path`.
fn inner_diff(changes: &mut Vec<ClientAction>, prev: &Item, next: &Item, path: ItemPath)
    ensures
        patch_models(final(changes)@) == patch_models(old(changes)@) + all_below(
            patches(prev@, next@),
            path_model(path@),
        ),
    decreases prev,
{
    let ghost start = patch_models(changes@);
    let ghost here = path_model(path@);
    match (prev, next) {
        (Item::View(a), Item::View(b)) => {
            let edits = get_minimum_edits(&a.body, &b.body);
            let ghost old_children = trees(a.body@);
            let ghost new_children = trees(b.body@);
            let ghost steps = child_script(old_children, new_children);
            let ghost carried = edits@;
            proof {
                prev.lemma_view_of_container();
                next.lemma_view_of_container();
                assert forall|x: int, y: int|
                    0 <= x < a.body.len() && 0 <= y < b.body.len() implies #[trigger] paired(
                    pairing(a.body@, b.body@),
                    x,
                    y,
                ) == paired(tree_pairing(old_children, new_children), x, y) by {}
                lemma_script_of_equal_pairings(
                    pairing(a.body@, b.body@),
                    tree_pairing(old_children, new_children),
                    a.body.len() as int,
                    b.body.len() as int,
                );
                lemma_script_in_range(
                    tree_pairing(old_children, new_children),
                    a.body.len() as int,
                    b.body.len() as int,
                );
                assert(all_below(lifted(old_children, new_children, steps, 0), here) =~= Seq::<
                    Patch,
                >::empty());
            }
            for edit in iter: edits
                invariant
                    iter.seq() == carried,
                    carry_out(carried, steps, b.body@),
                    forall|k: int|
                        0 <= k < steps.len() ==> match #[trigger] steps[k] {
                            Step::InsertFirst { new_inx } => 0 <= new_inx < b.body.len(),
                            Step::InsertAt { old_inx, new_inx } => 0 <= old_inx < a.body.len() && 0
                                <= new_inx < b.body.len(),
                            Step::RemoveAt { old_inx } => 0 <= old_inx < a.body.len(),
                            Step::ReplaceAt { old_inx, new_inx } => 0 <= old_inx < a.body.len() && 0
                                <= new_inx < b.body.len(),
                        },
                    *prev == Item::View(*a),
                    prev@ == (Tree::View { children: old_children }),
                    old_children == trees(a.body@),
                    new_children == trees(b.body@),
                    here == path_model(path@),
                    patch_models(changes@) == start + all_below(
                        lifted(old_children, new_children, steps, iter.index()),
                        here,
                    ),
            {
                let ghost k = iter.index();
                let ghost sofar = patch_models(changes@);
                let ghost known = lifted(old_children, new_children, steps, k);
                assert(carried[k].carries_out(steps[k], b.body@));
                assert(here + Seq::<int>::empty() =~= here);
                match edit {
                    EditOperation::InsertFirst(item) => {
                        let action = ClientAction::AddFront(AddFront { path: path.clone(), item });
                        assert(path_model(action->AddFront_0.path@) =~= here);
                        changes.push(action);
                        assert(patch_models(changes@) =~= sofar.push(action@));
                    },
                    EditOperation::InsertAt(inx, item) => {
                        let action = ClientAction::InsertAt(
                            InsertAt { path: path.clone(), inx, item },
                        );
                        assert(path_model(action->InsertAt_0.path@) =~= here);
                        changes.push(action);
                        assert(patch_models(changes@) =~= sofar.push(action@));
                    },
                    EditOperation::RemoveAt(inx) => {
                        let action = ClientAction::RemoveInx(RemoveInx { path: path.clone(), inx });
                        assert(path_model(action->RemoveInx_0.path@) =~= here);
                        changes.push(action);
                        assert(patch_models(changes@) =~= sofar.push(action@));
                    },
                    EditOperation::ReplaceAt(inx, item) => {
                        let mut deeper = path.clone();
                        deeper.push(inx);
                        assert(path_model(deeper@) =~= here + seq![inx as int]);
                        inner_diff(changes, &a.body[inx], &item, deeper);
                        proof {
                            lemma_below_twice(
                                patches(a.body@[inx as int]@, item@),
                                seq![inx as int],
                                here,
                            );
                        }
                    },
                }
                proof {
                    let one = lifted(old_children, new_children, steps, k + 1).subrange(
                        known.len() as int,
                        lifted(old_children, new_children, steps, k + 1).len() as int,
                    );
                    assert(lifted(old_children, new_children, steps, k + 1) =~= known + one);
                    assert(all_below(known + one, here) =~= all_below(known, here) + all_below(
                        one,
                        here,
                    ));
                    assert(patch_models(changes@) =~= sofar + all_below(one, here));
                }
            }
            proof {
                assert(carried.len() == steps.len());
            }
        },
        _ => {
            if !prev.same_as(next) {
                let action = ClientAction::Replace(Replace { path: path.clone(), item: next.clone() });
                assert(path_model(action->Replace_0.path@) =~= here);
                assert(here + Seq::<int>::empty() =~= here);
                changes.push(action);
                assert(patch_models(changes@) =~= start + all_below(patches(prev@, next@), here));
            } else {
                assert(patch_models(changes@) =~= start + all_below(patches(prev@, next@), here));
            }
        },
    }
}

/// The patches that lead from `prev` to `next`: what [`patches`] gives for
/// the two trees, in that order, with paths from the root.
pub fn diff(prev: &Item, next: &Item) -> (changes: Vec<ClientAction>)
    ensures
        patch_models(changes@) == patches(prev@, next@),
{
    let mut changes: Vec<ClientAction> = Vec::new();
    let path: ItemPath = Vec::new();
    proof {
        lemma_below_nothing(patches(prev@, next@));
        assert(path_model(path@) =~= Seq::<int>::empty());
        assert(patch_models(changes@) =~= Seq::<Patch>::empty());
    }
    inner_diff(&mut changes, prev, next, path);
    assert(patch_models(changes@) =~= patches(prev@, next@));
    changes
}

} // verus!
