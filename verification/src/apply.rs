//! What a batch of patches does to a tree, and the laws that tie the differ
//! to it.
//!
//! A batch speaks of the tree as it stood before the batch: every path and
//! every index is a position in that old tree. A patch with the empty path
//! concerns the node itself; any other patch concerns the child that its
//! path begins with. Of a container the batch rebuilds the child list: first
//! what was added in front, then, old child by old child, the child (patched
//! by what concerns it, or nothing if it was removed) followed by what was
//! inserted at its position, and last what was added at the back. Items that
//! come to the same place keep the order that they have in the batch.

use vstd::prelude::*;

use crate::diff::lifted;
use crate::diff::patches;
use crate::diff::tree_pairing;
use crate::edit_distance::cost;
use crate::edit_distance::lemma_script_of_equal_lists;
use crate::edit_distance::paired;
use crate::edit_distance::script;
use crate::edit_distance::Step;
use crate::gui::Tree;
use crate::types::all_below;
use crate::types::Patch;

verus! {

/// A place in a node that a patch may concern.
pub enum Place {
    /// The node as a whole.
    Whole,
    /// Before the first child.
    Front,
    /// Behind the last child.
    Back,
    /// Directly behind the old child at the position.
    After(int),
    /// The old child at the position, which goes.
    Gone(int),
    /// Anywhere inside the old child at the position.
    Below(int),
}

impl Patch {
    /// Whether the patch concerns `place` of the node that its path starts
    /// from.
    pub open spec fn concerns(self, place: Place) -> bool {
        match place {
            Place::Whole => self is Replace && self.path().len() == 0,
            Place::Front => self is AddFront && self.path().len() == 0,
            Place::Back => self is AddBack && self.path().len() == 0,
            Place::After(k) => self is InsertAt && self.path().len() == 0 && self->InsertAt_inx
                == k,
            Place::Gone(k) => self is RemoveInx && self.path().len() == 0 && self->RemoveInx_inx
                == k,
            Place::Below(k) => self.path().len() > 0 && self.path()[0] == k,
        }
    }

    /// The item that the patch brings; of a removal, the empty container.
    pub open spec fn item(self) -> Tree {
        match self {
            Patch::Replace { item, .. } => item,
            Patch::AddBack { item, .. } => item,
            Patch::AddFront { item, .. } => item,
            Patch::InsertAt { item, .. } => item,
            Patch::RemoveInx { .. } => Tree::View { children: Seq::empty() },
        }
    }

    /// The same patch seen from the child that its path begins with.
    pub open spec fn inside(self) -> Patch {
        self.at(self.path().drop_first())
    }
}

/// The patches of `batch` that concern `place`, in order.
pub open spec fn chosen(batch: Seq<Patch>, place: Place) -> Seq<Patch>
    decreases batch.len(),
{
    if batch.len() == 0 {
        Seq::empty()
    } else if batch.last().concerns(place) {
        chosen(batch.drop_last(), place).push(batch.last())
    } else {
        chosen(batch.drop_last(), place)
    }
}

/// The items that the patches of `list` bring, in order.
pub open spec fn items(list: Seq<Patch>) -> Seq<Tree> {
    Seq::new(list.len(), |i: int| list[i].item())
}

/// Every patch of `list` seen from the child that its path begins with.
pub open spec fn all_inside(list: Seq<Patch>) -> Seq<Patch> {
    Seq::new(list.len(), |i: int| list[i].inside())
}

/// The tree that `batch` makes of `tree`.
pub open spec fn apply(tree: Tree, batch: Seq<Patch>) -> Tree
    decreases tree,
{
    let whole = chosen(batch, Place::Whole);
    if whole.len() > 0 {
        whole.last().item()
    } else {
        match tree {
            Tree::View { children } => Tree::View {
                children: items(chosen(batch, Place::Front)) + rebuilt(
                    children,
                    batch,
                    children.len() as int,
                ) + items(chosen(batch, Place::Back)),
            },
            _ => tree,
        }
    }
}

/// What `batch` makes of the first `k` children of a container, without
/// what it adds in front.
pub open spec fn rebuilt(children: Seq<Tree>, batch: Seq<Patch>, k: int) -> Seq<Tree>
    decreases children, k,
{
    if k <= 0 || k > children.len() {
        Seq::empty()
    } else {
        rebuilt(children, batch, k - 1) + (if chosen(batch, Place::Gone(k - 1)).len() > 0 {
            Seq::empty()
        } else {
            seq![apply(children[k - 1], all_inside(chosen(batch, Place::Below(k - 1))))]
        }) + items(chosen(batch, Place::After(k - 1)))
    }
}

/// Choosing goes through concatenation.
pub proof fn lemma_chosen_of_sum(a: Seq<Patch>, b: Seq<Patch>, place: Place)
    ensures
        chosen(a + b, place) == chosen(a, place) + chosen(b, place),
    decreases b.len(),
{
    if b.len() == 0 {
        assert(a + b =~= a);
        assert(chosen(a, place) + chosen(b, place) =~= chosen(a, place));
    } else {
        assert((a + b).drop_last() =~= a + b.drop_last());
        assert((a + b).last() == b.last());
        lemma_chosen_of_sum(a, b.drop_last(), place);
        assert(chosen(a + b, place) =~= chosen(a, place) + chosen(b, place));
    }
}

/// Where no patch concerns a place, nothing is chosen for it.
pub proof fn lemma_chosen_none(list: Seq<Patch>, place: Place)
    requires
        forall|i: int| 0 <= i < list.len() ==> !(#[trigger] list[i]).concerns(place),
    ensures
        chosen(list, place) == Seq::<Patch>::empty(),
    decreases list.len(),
{
    if list.len() > 0 {
        assert(!list[list.len() - 1].concerns(place));
        lemma_chosen_none(list.drop_last(), place);
    }
}

/// Where every patch concerns a place, all are chosen for it.
pub proof fn lemma_chosen_all(list: Seq<Patch>, place: Place)
    requires
        forall|i: int| 0 <= i < list.len() ==> (#[trigger] list[i]).concerns(place),
    ensures
        chosen(list, place) == list,
    decreases list.len(),
{
    if list.len() > 0 {
        assert(list[list.len() - 1].concerns(place));
        lemma_chosen_all(list.drop_last(), place);
        assert(list.drop_last().push(list.last()) =~= list);
    }
}

/// What is chosen of one patch.
pub proof fn lemma_chosen_of_one(p: Patch, place: Place)
    ensures
        chosen(seq![p], place) == if p.concerns(place) {
            seq![p]
        } else {
            Seq::<Patch>::empty()
        },
{
    if p.concerns(place) {
        lemma_chosen_all(seq![p], place);
    } else {
        lemma_chosen_none(seq![p], place);
    }
}

/// Patches that were made for the child at `k` concern that child and
/// nothing else, and seen from it they are what they were.
pub proof fn lemma_chosen_of_child(list: Seq<Patch>, k: int, place: Place)
    ensures
        chosen(all_below(list, seq![k]), place) == if place == Place::Below(k) {
            all_below(list, seq![k])
        } else {
            Seq::<Patch>::empty()
        },
        all_inside(all_below(list, seq![k])) == list,
{
    let up = all_below(list, seq![k]);
    assert forall|i: int| 0 <= i < list.len() implies up[i].path() == seq![k] + list[i].path()
        && up[i].inside() == list[i] by {
        assert((seq![k] + list[i].path()).drop_first() =~= list[i].path());
    }
    if place == Place::Below(k) {
        lemma_chosen_all(up, place);
    } else {
        lemma_chosen_none(up, place);
    }
    assert(all_inside(up) =~= list);
}

/// An empty batch leaves a tree as it is.
pub proof fn lemma_apply_nothing(tree: Tree)
    ensures
        apply(tree, Seq::empty()) == tree,
    decreases tree,
{
    match tree {
        Tree::View { children } => {
            lemma_rebuilt_by_nothing(children, children.len() as int);
            assert(items(Seq::<Patch>::empty()) =~= Seq::<Tree>::empty());
            assert(Seq::<Tree>::empty() + children.take(children.len() as int) + Seq::<
                Tree,
            >::empty() =~= children);
        },
        _ => {},
    }
}

/// An empty batch leaves the first `k` children as they are.
pub proof fn lemma_rebuilt_by_nothing(children: Seq<Tree>, k: int)
    requires
        0 <= k <= children.len(),
    ensures
        rebuilt(children, Seq::empty(), k) == children.take(k),
    decreases children, k,
{
    if k > 0 {
        lemma_rebuilt_by_nothing(children, k - 1);
        lemma_apply_nothing(children[k - 1]);
        assert(all_inside(Seq::<Patch>::empty()) =~= Seq::<Patch>::empty());
        assert(items(Seq::<Patch>::empty()) =~= Seq::<Tree>::empty());
        assert(rebuilt(children, Seq::empty(), k) =~= children.take(k));
    } else {
        assert(rebuilt(children, Seq::empty(), k) =~= children.take(k));
    }
}

/// Two batches that agree on what concerns the first `k` children rebuild
/// them alike.
pub proof fn lemma_rebuilt_alike(children: Seq<Tree>, a: Seq<Patch>, b: Seq<Patch>, k: int)
    requires
        forall|x: int|
            0 <= x < k ==> #[trigger] chosen(a, Place::Gone(x)) == chosen(b, Place::Gone(x)),
        forall|x: int|
            0 <= x < k ==> #[trigger] chosen(a, Place::After(x)) == chosen(b, Place::After(x)),
        forall|x: int|
            0 <= x < k ==> #[trigger] chosen(a, Place::Below(x)) == chosen(b, Place::Below(x)),
    ensures
        rebuilt(children, a, k) == rebuilt(children, b, k),
    decreases k,
{
    if 0 < k <= children.len() {
        lemma_rebuilt_alike(children, a, b, k - 1);
        assert(chosen(a, Place::Gone(k - 1)) == chosen(b, Place::Gone(k - 1)));
        assert(chosen(a, Place::After(k - 1)) == chosen(b, Place::After(k - 1)));
        assert(chosen(a, Place::Below(k - 1)) == chosen(b, Place::Below(k - 1)));
    }
}

/// The patches of the first `k` steps depend on those steps alone.
pub proof fn lemma_lifted_of_prefix(
    old_children: Seq<Tree>,
    new_children: Seq<Tree>,
    a: Seq<Step>,
    b: Seq<Step>,
    k: int,
)
    requires
        k <= a.len(),
        k <= b.len(),
        forall|x: int| 0 <= x < k ==> a[x] == b[x],
    ensures
        lifted(old_children, new_children, a, k) == lifted(old_children, new_children, b, k),
    decreases k,
{
    if k > 0 {
        lemma_lifted_of_prefix(old_children, new_children, a, b, k - 1);
    }
}

/// What is chosen of a batch with one more patch.
pub proof fn lemma_chosen_after_patch(batch: Seq<Patch>, p: Patch)
    ensures
        forall|place: Place| #[trigger]
            chosen(batch.push(p), place) == if p.concerns(place) {
                chosen(batch, place).push(p)
            } else {
                chosen(batch, place)
            },
{
    assert(batch.push(p).drop_last() =~= batch);
}

/// What is chosen of a batch with, behind it, the patches that were made
/// for the child at `k`.
pub proof fn lemma_chosen_after_child(batch: Seq<Patch>, list: Seq<Patch>, k: int)
    ensures
        forall|place: Place| #[trigger]
            chosen(batch + all_below(list, seq![k]), place) == if place == Place::Below(k) {
                chosen(batch, place) + all_below(list, seq![k])
            } else {
                chosen(batch, place)
            },
{
    assert forall|place: Place| #[trigger]
        chosen(batch + all_below(list, seq![k]), place) == if place == Place::Below(k) {
            chosen(batch, place) + all_below(list, seq![k])
        } else {
            chosen(batch, place)
        } by {
        lemma_chosen_of_sum(batch, all_below(list, seq![k]), place);
        lemma_chosen_of_child(list, k, place);
        assert(chosen(batch, place) + Seq::<Patch>::empty() =~= chosen(batch, place));
    }
}

/// `batch` turns the first `i` of `old_children` into the first `j` of
/// `new_children`, and touches nothing from the old position `i` on.
pub open spec fn rebuilds(
    old_children: Seq<Tree>,
    new_children: Seq<Tree>,
    batch: Seq<Patch>,
    i: int,
    j: int,
) -> bool {
    &&& items(chosen(batch, Place::Front)) + rebuilt(old_children, batch, i) == new_children.take(
        j,
    )
    &&& chosen(batch, Place::Whole) == Seq::<Patch>::empty()
    &&& chosen(batch, Place::Back) == Seq::<Patch>::empty()
    &&& forall|k: int| k >= i ==> #[trigger] chosen(batch, Place::Gone(k)) == Seq::<Patch>::empty()
    &&& forall|k: int|
        k >= i ==> #[trigger] chosen(batch, Place::After(k)) == Seq::<Patch>::empty()
    &&& forall|k: int|
        k >= i ==> #[trigger] chosen(batch, Place::Below(k)) == Seq::<Patch>::empty()
}

/// The patches of the script between the first `i` old children and the
/// first `j` new ones turn the former into the latter.
pub proof fn lemma_children_round_trip(
    old_children: Seq<Tree>,
    new_children: Seq<Tree>,
    i: int,
    j: int,
)
    requires
        0 <= i <= old_children.len(),
        0 <= j <= new_children.len(),
    ensures
        ({
            let steps = script(tree_pairing(old_children, new_children), i, j);
            rebuilds(
                old_children,
                new_children,
                lifted(old_children, new_children, steps, steps.len() as int),
                i,
                j,
            )
        }),
    decreases old_children, i + j,
{
    let same = tree_pairing(old_children, new_children);
    let steps = script(same, i, j);
    let batch = lifted(old_children, new_children, steps, steps.len() as int);
    let nothing = Seq::<Patch>::empty();
    if i == 0 && j == 0 {
        assert(items(chosen(batch, Place::Front)) + rebuilt(old_children, batch, i)
            =~= new_children.take(j));
    } else if same(i - 1, j - 1) && i > 0 && j > 0 {
        assert(paired(same, i - 1, j - 1));
        lemma_children_round_trip(old_children, new_children, i - 1, j - 1);
        lemma_apply_nothing(old_children[i - 1]);
        assert(all_inside(nothing) =~= nothing);
        assert(items(nothing) =~= Seq::<Tree>::empty());
        assert(chosen(batch, Place::Gone(i - 1)) == nothing);
        assert(chosen(batch, Place::After(i - 1)) == nothing);
        assert(chosen(batch, Place::Below(i - 1)) == nothing);
        assert(rebuilt(old_children, batch, i) =~= rebuilt(old_children, batch, i - 1).push(
            new_children[j - 1],
        ));
        assert(items(chosen(batch, Place::Front)) + rebuilt(old_children, batch, i)
            =~= new_children.take(j - 1).push(new_children[j - 1]));
        assert(new_children.take(j - 1).push(new_children[j - 1]) =~= new_children.take(j));
    } else {
        // The script ends with one step more than the script of a cell
        // next to this one.
        let (pi, pj) = if i == 0 {
            (0int, j - 1)
        } else if j == 0 {
            (i - 1, 0int)
        } else if cost(same, i - 1, j - 1) < cost(same, i - 1, j) && cost(same, i - 1, j - 1)
            < cost(same, i, j - 1) {
            (i - 1, j - 1)
        } else if cost(same, i - 1, j) < cost(same, i, j - 1) {
            (i - 1, j)
        } else {
            (i, j - 1)
        };
        let before = script(same, pi, pj);
        let step = steps.last();
        assert(steps == before.push(step));
        assert(steps.len() == before.len() + 1);
        let known = lifted(old_children, new_children, before, before.len() as int);
        lemma_children_round_trip(old_children, new_children, pi, pj);
        lemma_lifted_of_prefix(old_children, new_children, steps, before, before.len() as int);
        assert(lifted(old_children, new_children, steps, before.len() as int) == known);
        assert(items(nothing) =~= Seq::<Tree>::empty());
        assert(all_inside(nothing) =~= nothing);
        match step {
            Step::InsertFirst { new_inx } => {
                let p = Patch::AddFront { path: Seq::empty(), item: new_children[j - 1] };
                assert(batch =~= known.push(p));
                lemma_chosen_after_patch(known, p);
                assert(items(chosen(batch, Place::Front)) =~= items(
                    chosen(known, Place::Front),
                ).push(new_children[j - 1]));
                assert(items(chosen(batch, Place::Front)) + rebuilt(old_children, batch, i)
                    =~= new_children.take(j - 1).push(new_children[j - 1]));
                assert(new_children.take(j - 1).push(new_children[j - 1]) =~= new_children.take(j));
            },
            Step::RemoveAt { old_inx } => {
                let p = Patch::RemoveInx { path: Seq::empty(), inx: i - 1 };
                assert(batch =~= known.push(p));
                lemma_chosen_after_patch(known, p);
                lemma_rebuilt_alike(old_children, batch, known, i - 1);
                assert(chosen(known, Place::Gone(i - 1)) == nothing);
                assert(chosen(known, Place::After(i - 1)) == nothing);
                assert(chosen(batch, Place::Gone(i - 1)).len() > 0);
                assert(rebuilt(old_children, batch, i) =~= rebuilt(old_children, known, i - 1));
            },
            Step::InsertAt { old_inx, new_inx } => {
                let p = Patch::InsertAt {
                    path: Seq::empty(),
                    inx: i - 1,
                    item: new_children[j - 1],
                };
                assert(batch =~= known.push(p));
                lemma_chosen_after_patch(known, p);
                lemma_rebuilt_alike(old_children, batch, known, i - 1);
                assert(chosen(batch, Place::Gone(i - 1)) == chosen(known, Place::Gone(i - 1)));
                assert(chosen(batch, Place::Below(i - 1)) == chosen(known, Place::Below(i - 1)));
                assert(items(chosen(batch, Place::After(i - 1))) =~= items(
                    chosen(known, Place::After(i - 1)),
                ).push(new_children[j - 1]));
                assert(rebuilt(old_children, batch, i) =~= rebuilt(old_children, known, i).push(
                    new_children[j - 1],
                ));
                assert(items(chosen(batch, Place::Front)) + rebuilt(old_children, batch, i)
                    =~= new_children.take(j - 1).push(new_children[j - 1]));
                assert(new_children.take(j - 1).push(new_children[j - 1]) =~= new_children.take(j));
            },
            Step::ReplaceAt { old_inx, new_inx } => {
                let inner = patches(old_children[i - 1], new_children[j - 1]);
                assert(batch =~= known + all_below(inner, seq![i - 1]));
                lemma_chosen_after_child(known, inner, i - 1);
                lemma_chosen_of_child(inner, i - 1, Place::Below(i - 1));
                lemma_rebuilt_alike(old_children, batch, known, i - 1);
                lemma_round_trip(old_children[i - 1], new_children[j - 1]);
                assert(chosen(known, Place::Gone(i - 1)) == nothing);
                assert(chosen(known, Place::After(i - 1)) == nothing);
                assert(chosen(known, Place::Below(i - 1)) == nothing);
                assert(chosen(batch, Place::Below(i - 1)) =~= all_below(inner, seq![i - 1]));
                assert(rebuilt(old_children, batch, i) =~= rebuilt(old_children, known, i - 1).push(
                    new_children[j - 1],
                ));
                assert(items(chosen(batch, Place::Front)) + rebuilt(old_children, batch, i)
                    =~= new_children.take(j - 1).push(new_children[j - 1]));
                assert(new_children.take(j - 1).push(new_children[j - 1]) =~= new_children.take(j));
            },
        }
    }
}

/// Round trip: the patches that the differ gives for two trees turn the
/// first into the second.
pub proof fn lemma_round_trip(old_tree: Tree, new_tree: Tree)
    ensures
        apply(old_tree, patches(old_tree, new_tree)) == new_tree,
    decreases old_tree,
{
    match (old_tree, new_tree) {
        (Tree::View { children: old_children }, Tree::View { children: new_children }) => {
            lemma_children_round_trip(
                old_children,
                new_children,
                old_children.len() as int,
                new_children.len() as int,
            );
            let batch = patches(old_tree, new_tree);
            assert(items(chosen(batch, Place::Back)) =~= Seq::<Tree>::empty());
            assert(new_children.take(new_children.len() as int) =~= new_children);
            assert(items(chosen(batch, Place::Front)) + rebuilt(
                old_children,
                batch,
                old_children.len() as int,
            ) + Seq::<Tree>::empty() =~= new_children);
        },
        _ => {
            if old_tree == new_tree {
                lemma_apply_nothing(old_tree);
            } else {
                lemma_chosen_of_one(
                    Patch::Replace { path: Seq::empty(), item: new_tree },
                    Place::Whole,
                );
            }
        },
    }
}

/// Idempotence: between a tree and itself the differ gives no patch.
pub proof fn lemma_no_patches_to_itself(tree: Tree)
    ensures
        patches(tree, tree) == Seq::<Patch>::empty(),
{
    match tree {
        Tree::View { children } => {
            let same = tree_pairing(children, children);
            assert forall|k: int| 0 <= k < children.len() implies #[trigger] paired(same, k, k) by {}
            lemma_script_of_equal_lists(same, children.len() as int);
        },
        _ => {},
    }
}

/// Where the differ gives no patch, the two trees are one.
pub proof fn lemma_no_patches_only_to_itself(old_tree: Tree, new_tree: Tree)
    requires
        patches(old_tree, new_tree) == Seq::<Patch>::empty(),
    ensures
        old_tree == new_tree,
{
    lemma_round_trip(old_tree, new_tree);
    lemma_apply_nothing(old_tree);
}

} // verus!
