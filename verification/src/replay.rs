//! What an edit script does to a list, and the law that ties the solver to
//! it.
//!
//! Every position in a script is one of the old list as it stood before
//! the script. The script rebuilds the list: first what it inserts in
//! front, then, old element by old element, the element (or what replaces
//! it, or nothing if it is removed) followed by what is inserted behind it.
//! Items that come to the same place keep the order that they have in the
//! script.

use vstd::prelude::*;

use crate::edit_distance::carry_out;
use crate::edit_distance::cost;
use crate::edit_distance::paired;
use crate::edit_distance::script;
use crate::edit_distance::EditOperation;
use crate::edit_distance::Step;

verus! {

/// A place in the old list that an operation may concern.
pub enum Spot {
    /// Before the first element.
    Front,
    /// Directly behind the old element at the position.
    After(int),
    /// In place of the old element at the position.
    Swapped(int),
}

impl<T> EditOperation<T> {
    /// Whether the operation brings an item to `spot`.
    pub open spec fn brings_to(self, spot: Spot) -> bool {
        match (self, spot) {
            (EditOperation::InsertFirst(_), Spot::Front) => true,
            (EditOperation::InsertAt(inx, _), Spot::After(k)) => inx == k,
            (EditOperation::ReplaceAt(inx, _), Spot::Swapped(k)) => inx == k,
            _ => false,
        }
    }

    /// The item that the operation brings, if it brings one.
    pub open spec fn item(self) -> Seq<T> {
        match self {
            EditOperation::InsertFirst(item) => seq![item],
            EditOperation::InsertAt(_, item) => seq![item],
            EditOperation::ReplaceAt(_, item) => seq![item],
            EditOperation::RemoveAt(_) => Seq::empty(),
        }
    }

    /// Whether the operation removes the old element at `k`.
    pub open spec fn takes(self, k: int) -> bool {
        self matches EditOperation::RemoveAt(inx) && inx == k
    }
}

/// The items that `edits` bring to `spot`, in order.
pub open spec fn brought<T>(edits: Seq<EditOperation<T>>, spot: Spot) -> Seq<T>
    decreases edits.len(),
{
    if edits.len() == 0 {
        Seq::empty()
    } else if edits.last().brings_to(spot) {
        brought(edits.drop_last(), spot) + edits.last().item()
    } else {
        brought(edits.drop_last(), spot)
    }
}

/// Whether `edits` remove the old element at `k`.
pub open spec fn removed<T>(edits: Seq<EditOperation<T>>, k: int) -> bool
    decreases edits.len(),
{
    if edits.len() == 0 {
        false
    } else {
        edits.last().takes(k) || removed(edits.drop_last(), k)
    }
}

/// What `edits` make of the first `k` elements of `old_list`, without what
/// they insert in front.
pub open spec fn rewritten<T>(old_list: Seq<T>, edits: Seq<EditOperation<T>>, k: int) -> Seq<T>
    decreases k,
{
    if k <= 0 || k > old_list.len() {
        Seq::empty()
    } else {
        rewritten(old_list, edits, k - 1) + (if removed(edits, k - 1) {
            Seq::empty()
        } else if brought(edits, Spot::Swapped(k - 1)).len() > 0 {
            seq![brought(edits, Spot::Swapped(k - 1)).last()]
        } else {
            seq![old_list[k - 1]]
        }) + brought(edits, Spot::After(k - 1))
    }
}

/// The list that `edits` make of `old_list`.
pub open spec fn replay<T>(old_list: Seq<T>, edits: Seq<EditOperation<T>>) -> Seq<T> {
    brought(edits, Spot::Front) + rewritten(old_list, edits, old_list.len() as int)
}

/// The operation that carries out `step` with the very item of the new
/// list.
pub open spec fn edit_of<T>(step: Step, new_list: Seq<T>) -> EditOperation<T> {
    match step {
        Step::InsertFirst { new_inx } => EditOperation::InsertFirst(new_list[new_inx]),
        Step::InsertAt { old_inx, new_inx } => EditOperation::InsertAt(
            old_inx as usize,
            new_list[new_inx],
        ),
        Step::RemoveAt { old_inx } => EditOperation::RemoveAt(old_inx as usize),
        Step::ReplaceAt { old_inx, new_inx } => EditOperation::ReplaceAt(
            old_inx as usize,
            new_list[new_inx],
        ),
    }
}

/// The operations that carry out `steps` with the very items of the new
/// list.
pub open spec fn edits_of<T>(steps: Seq<Step>, new_list: Seq<T>) -> Seq<EditOperation<T>> {
    Seq::new(steps.len(), |k: int| edit_of(steps[k], new_list))
}

/// Where a clone is the same value, the operations that carry out a script
/// are those of the script itself.
pub proof fn lemma_carried_out_exactly<T: Clone>(
    edits: Seq<EditOperation<T>>,
    steps: Seq<Step>,
    new_list: Seq<T>,
)
    requires
        carry_out(edits, steps, new_list),
        forall|a: T, b: T| #[trigger] cloned(a, b) ==> a == b,
        forall|k: int|
            0 <= k < steps.len() ==> match #[trigger] steps[k] {
                Step::InsertFirst { new_inx } => true,
                Step::InsertAt { old_inx, new_inx } => 0 <= old_inx <= usize::MAX,
                Step::RemoveAt { old_inx } => 0 <= old_inx <= usize::MAX,
                Step::ReplaceAt { old_inx, new_inx } => 0 <= old_inx <= usize::MAX,
            },
    ensures
        edits == edits_of(steps, new_list),
{
    assert forall|k: int| 0 <= k < edits.len() implies edits[k] == edits_of(steps, new_list)[k] by {
        assert(edits[k].carries_out(steps[k], new_list));
    }
    assert(edits =~= edits_of(steps, new_list));
}

/// What is brought and removed by a script with one more operation.
pub proof fn lemma_after_one_more<T>(edits: Seq<EditOperation<T>>, e: EditOperation<T>)
    ensures
        forall|spot: Spot| #[trigger]
            brought(edits.push(e), spot) == if e.brings_to(spot) {
                brought(edits, spot) + e.item()
            } else {
                brought(edits, spot)
            },
        forall|k: int| #[trigger] removed(edits.push(e), k) == (e.takes(k) || removed(edits, k)),
{
    assert(edits.push(e).drop_last() =~= edits);
}

/// Two scripts that agree on what concerns the first `k` old elements
/// rewrite them alike.
pub proof fn lemma_rewritten_alike<T>(
    old_list: Seq<T>,
    a: Seq<EditOperation<T>>,
    b: Seq<EditOperation<T>>,
    k: int,
)
    requires
        forall|x: int| 0 <= x < k ==> #[trigger] removed(a, x) == removed(b, x),
        forall|x: int|
            0 <= x < k ==> #[trigger] brought(a, Spot::After(x)) == brought(b, Spot::After(x)),
        forall|x: int|
            0 <= x < k ==> #[trigger] brought(a, Spot::Swapped(x)) == brought(b, Spot::Swapped(x)),
    ensures
        rewritten(old_list, a, k) == rewritten(old_list, b, k),
    decreases k,
{
    if 0 < k <= old_list.len() {
        lemma_rewritten_alike(old_list, a, b, k - 1);
        assert(removed(a, k - 1) == removed(b, k - 1));
        assert(brought(a, Spot::After(k - 1)) == brought(b, Spot::After(k - 1)));
        assert(brought(a, Spot::Swapped(k - 1)) == brought(b, Spot::Swapped(k - 1)));
    }
}

/// `edits` turn the first `i` of `old_list` into the first `j` of
/// `new_list`, and touch nothing from the old position `i` on.
pub open spec fn rewrites<T>(
    old_list: Seq<T>,
    new_list: Seq<T>,
    edits: Seq<EditOperation<T>>,
    i: int,
    j: int,
) -> bool {
    &&& brought(edits, Spot::Front) + rewritten(old_list, edits, i) == new_list.take(j)
    &&& forall|k: int| k >= i ==> !#[trigger] removed(edits, k)
    &&& forall|k: int| k >= i ==> #[trigger] brought(edits, Spot::After(k)) == Seq::<T>::empty()
    &&& forall|k: int| k >= i ==> #[trigger] brought(edits, Spot::Swapped(k)) == Seq::<T>::empty()
}

/// The script between the first `i` old and the first `j` new elements
/// turns the former into the latter, where paired elements are equal.
pub proof fn lemma_prefix_round_trip<T>(
    old_list: Seq<T>,
    new_list: Seq<T>,
    same: spec_fn(int, int) -> bool,
    i: int,
    j: int,
)
    requires
        0 <= i <= old_list.len() <= usize::MAX,
        0 <= j <= new_list.len(),
        forall|x: int, y: int|
            0 <= x < old_list.len() && 0 <= y < new_list.len() && #[trigger] paired(same, x, y)
                ==> old_list[x] == new_list[y],
    ensures
        rewrites(old_list, new_list, edits_of(script(same, i, j), new_list), i, j),
    decreases i + j,
{
    let steps = script(same, i, j);
    let edits = edits_of(steps, new_list);
    if i == 0 && j == 0 {
        assert(edits =~= Seq::<EditOperation<T>>::empty());
        assert(brought(edits, Spot::Front) + rewritten(old_list, edits, i) =~= new_list.take(j));
    } else if i > 0 && j > 0 && paired(same, i - 1, j - 1) {
        lemma_prefix_round_trip(old_list, new_list, same, i - 1, j - 1);
        assert(!removed(edits, i - 1));
        assert(brought(edits, Spot::After(i - 1)) == Seq::<T>::empty());
        assert(brought(edits, Spot::Swapped(i - 1)) == Seq::<T>::empty());
        assert(rewritten(old_list, edits, i) =~= rewritten(old_list, edits, i - 1).push(
            new_list[j - 1],
        ));
        assert(brought(edits, Spot::Front) + rewritten(old_list, edits, i) =~= new_list.take(
            j - 1,
        ).push(new_list[j - 1]));
        assert(new_list.take(j - 1).push(new_list[j - 1]) =~= new_list.take(j));
    } else {
        let (pi, pj) = if i == 0 {
            (0int, j - 1)
        } else if j == 0 {
            (i - 1, 0int)
        } else if cost(same, i - 1, j - 1) < cost(same, i - 1, j) && cost(same, i - 1, j - 1)
            < cost(same, i, j - 1) {
            (i - 1, j - 1)
        } else if cost(same, i - 1, j) < cost(same, i, j - 1) {
            (i - 1, j)
        } else {
            (i, j - 1)
        };
        let before = script(same, pi, pj);
        let step = steps.last();
        assert(steps == before.push(step));
        let known = edits_of(before, new_list);
        let e = edit_of(step, new_list);
        assert(edits =~= known.push(e));
        lemma_prefix_round_trip(old_list, new_list, same, pi, pj);
        lemma_after_one_more(known, e);
        match step {
            Step::InsertFirst { new_inx } => {
                assert(brought(edits, Spot::Front) + rewritten(old_list, edits, i)
                    =~= new_list.take(j - 1).push(new_list[j - 1]));
                assert(new_list.take(j - 1).push(new_list[j - 1]) =~= new_list.take(j));
            },
            Step::RemoveAt { old_inx } => {
                lemma_rewritten_alike(old_list, edits, known, i - 1);
                assert(removed(edits, i - 1));
                assert(brought(known, Spot::After(i - 1)) == Seq::<T>::empty());
                assert(rewritten(old_list, edits, i) =~= rewritten(old_list, known, i - 1));
            },
            Step::InsertAt { old_inx, new_inx } => {
                lemma_rewritten_alike(old_list, edits, known, i - 1);
                assert(removed(edits, i - 1) == removed(known, i - 1));
                assert(brought(edits, Spot::Swapped(i - 1)) == brought(known, Spot::Swapped(i - 1)));
                assert(brought(edits, Spot::After(i - 1)) =~= brought(
                    known,
                    Spot::After(i - 1),
                ).push(new_list[j - 1]));
                assert(rewritten(old_list, edits, i) =~= rewritten(old_list, known, i).push(
                    new_list[j - 1],
                ));
                assert(brought(edits, Spot::Front) + rewritten(old_list, edits, i)
                    =~= new_list.take(j - 1).push(new_list[j - 1]));
                assert(new_list.take(j - 1).push(new_list[j - 1]) =~= new_list.take(j));
            },
            Step::ReplaceAt { old_inx, new_inx } => {
                lemma_rewritten_alike(old_list, edits, known, i - 1);
                assert(!removed(known, i - 1));
                assert(brought(known, Spot::After(i - 1)) == Seq::<T>::empty());
                assert(brought(known, Spot::Swapped(i - 1)) == Seq::<T>::empty());
                assert(brought(edits, Spot::Swapped(i - 1)) =~= seq![new_list[j - 1]]);
                assert(rewritten(old_list, edits, i) =~= rewritten(old_list, known, i - 1).push(
                    new_list[j - 1],
                ));
                assert(brought(edits, Spot::Front) + rewritten(old_list, edits, i)
                    =~= new_list.take(j - 1).push(new_list[j - 1]));
                assert(new_list.take(j - 1).push(new_list[j - 1]) =~= new_list.take(j));
            },
        }
    }
}

/// Round trip: where paired elements are equal, the script between two
/// lists, carried out with the items of the new list, turns the old list
/// into the new one.
pub proof fn lemma_replay_round_trip<T>(
    old_list: Seq<T>,
    new_list: Seq<T>,
    same: spec_fn(int, int) -> bool,
)
    requires
        old_list.len() <= usize::MAX,
        forall|x: int, y: int|
            0 <= x < old_list.len() && 0 <= y < new_list.len() && #[trigger] paired(same, x, y)
                ==> old_list[x] == new_list[y],
    ensures
        replay(
            old_list,
            edits_of(script(same, old_list.len() as int, new_list.len() as int), new_list),
        ) == new_list,
{
    lemma_prefix_round_trip(
        old_list,
        new_list,
        same,
        old_list.len() as int,
        new_list.len() as int,
    );
    assert(new_list.take(new_list.len() as int) =~= new_list);
}

} // verus!
