//! The edit script between two ordered lists.
//!
//! The solver fills the cost table of insertions and removals (Wagner and
//! Fischer's dynamic program without a substitution cost) and walks it back
//! from the far corner. A substitution is found only on the way back, where
//! the diagonal neighbour is strictly cheaper than both others.
//!
//! Which steps are taken depends on the two lists only through the question
//! of which old element equals which new one. The model is therefore stated
//! over a *pairing*: a predicate on an old and a new position.
//!
//! The script stands for the least number of insertions and removals that
//! turn the old list into the new one, a replacement counted as one of
//! each ([`lemma_cost_is_least`], [`lemma_script_weighs_its_cost`]). Counted
//! as one, replacements can make a script with fewer operations than this
//! one has: from `a x b` to `b y a` three replacements lead, and the script
//! has four operations.

use vstd::prelude::*;
use vstd::std_specs::cmp::PartialEqSpec;

use crate::replay::lemma_carried_out_exactly;
use crate::replay::lemma_replay_round_trip;
use crate::replay::replay;

verus! {

/// One operation of an edit script. Positions are those of the old list
/// before any operation is applied.
#[derive(Debug, PartialEq)]
pub enum EditOperation<T> {
    /// Put the item before the first old element.
    InsertFirst(T),
    /// Put the item directly behind the old element at the position.
    InsertAt(usize, T),
    /// Drop the old element at the position.
    RemoveAt(usize),
    /// Put the item in place of the old element at the position.
    ReplaceAt(usize, T),
}

/// One step of an edit script by positions alone: `old_inx` is a position in
/// the old list, `new_inx` the position in the new list of the item that the
/// step brings in.
pub enum Step {
    InsertFirst { new_inx: int },
    InsertAt { old_inx: int, new_inx: int },
    RemoveAt { old_inx: int },
    ReplaceAt { old_inx: int, new_inx: int },
}

/// The pairing of two lists under `==`: position `i` of `old` is paired with
/// position `j` of `new` when the two elements are equal.
pub open spec fn pairing<T: PartialEq>(old_list: Seq<T>, new_list: Seq<T>) -> spec_fn(
    int,
    int,
) -> bool {
    |i: int, j: int| old_list[i].eq_spec(&new_list[j])
}

/// Whether `same` pairs old position `i` with new position `j`.
pub open spec fn paired(same: spec_fn(int, int) -> bool, i: int, j: int) -> bool {
    same(i, j)
}

/// The smaller of two numbers.
pub open spec fn lesser(a: int, b: int) -> int {
    if a <= b {
        a
    } else {
        b
    }
}

/// The cost table: the least number of insertions and removals that turn
/// the first `i` old elements into the first `j` new ones.
pub open spec fn cost(same: spec_fn(int, int) -> bool, i: int, j: int) -> int
    decreases i + j,
{
    if i <= 0 || j <= 0 {
        if i <= 0 {
            if j <= 0 {
                0
            } else {
                j
            }
        } else {
            i
        }
    } else if paired(same, i - 1, j - 1) {
        cost(same, i - 1, j - 1)
    } else {
        1 + lesser(cost(same, i - 1, j), cost(same, i, j - 1))
    }
}

/// The edit script that turns the first `i` old elements into the first `j`
/// new ones, in the order in which it is applied.
pub open spec fn script(same: spec_fn(int, int) -> bool, i: int, j: int) -> Seq<Step>
    decreases i + j,
{
    if i < 0 || j < 0 || (i == 0 && j == 0) {
        Seq::empty()
    } else if i == 0 {
        script(same, 0, j - 1).push(Step::InsertFirst { new_inx: j - 1 })
    } else if j == 0 {
        script(same, i - 1, 0).push(Step::RemoveAt { old_inx: i - 1 })
    } else if paired(same, i - 1, j - 1) {
        script(same, i - 1, j - 1)
    } else if cost(same, i - 1, j - 1) < cost(same, i - 1, j) && cost(same, i - 1, j - 1) < cost(
        same,
        i,
        j - 1,
    ) {
        script(same, i - 1, j - 1).push(Step::ReplaceAt { old_inx: i - 1, new_inx: j - 1 })
    } else if cost(same, i - 1, j) < cost(same, i, j - 1) {
        script(same, i - 1, j).push(Step::RemoveAt { old_inx: i - 1 })
    } else {
        script(same, i, j - 1).push(Step::InsertAt { old_inx: i - 1, new_inx: j - 1 })
    }
}

impl<T: Clone> EditOperation<T> {
    /// The operation carries out `step`: it is of the same kind, names the
    /// same old position, and its item is a clone of the new element that
    /// the step names.
    pub open spec fn carries_out(self, step: Step, new_list: Seq<T>) -> bool {
        match (self, step) {
            (EditOperation::InsertFirst(item), Step::InsertFirst { new_inx }) => cloned(
                new_list[new_inx],
                item,
            ),
            (EditOperation::InsertAt(inx, item), Step::InsertAt { old_inx, new_inx }) => inx
                == old_inx && cloned(new_list[new_inx], item),
            (EditOperation::RemoveAt(inx), Step::RemoveAt { old_inx }) => inx == old_inx,
            (EditOperation::ReplaceAt(inx, item), Step::ReplaceAt { old_inx, new_inx }) => inx
                == old_inx && cloned(new_list[new_inx], item),
            _ => false,
        }
    }
}

/// Operation by operation, `edits` carries out `steps`.
pub open spec fn carry_out<T: Clone>(
    edits: Seq<EditOperation<T>>,
    steps: Seq<Step>,
    new_list: Seq<T>,
) -> bool {
    &&& edits.len() == steps.len()
    &&& forall|k: int| 0 <= k < edits.len() ==> (#[trigger] edits[k]).carries_out(steps[k], new_list)
}

/// The items of `list` in the opposite order.
fn reversed<T>(list: Vec<T>) -> (r: Vec<T>)
    ensures
        r@ == list@.reverse(),
{
    let ghost before = list@;
    let mut list = list;
    let mut r: Vec<T> = Vec::new();
    while list.len() > 0
        invariant
            list.len() + r.len() == before.len(),
            list@ == before.take(list.len() as int),
            forall|k: int| 0 <= k < r.len() ==> r[k] == before[before.len() - 1 - k],
        decreases list.len(),
    {
        let last = list.pop();
        if let Some(item) = last {
            r.push(item);
        }
    }
    assert(r@ =~= before.reverse());
    r
}

/// Fills the cost table of `old_list` against `new_list`: one row for each
/// prefix of the old list, one column for each prefix of the new one. Costs
/// are kept in 128 bits, where the sum of two lengths always fits.
fn cost_table<T: PartialEq>(old_list: &Vec<T>, new_list: &Vec<T>) -> (dp: Vec<Vec<u128>>)
    ensures
        dp.len() == old_list.len() + 1,
        forall|a: int| 0 <= a <= old_list.len() ==> (#[trigger] dp[a]).len() == new_list.len() + 1,
        forall|a: int, b: int|
            0 <= a <= old_list.len() && 0 <= b <= new_list.len() ==> #[trigger] dp[a][b] <= a + b,
        T::obeys_eq_spec() ==> forall|a: int, b: int|
            0 <= a <= old_list.len() && 0 <= b <= new_list.len() ==> #[trigger] dp[a][b] == cost(
                pairing(old_list@, new_list@),
                a,
                b,
            ),
{
    let m = old_list.len();
    let n = new_list.len();
    let ghost same = pairing(old_list@, new_list@);
    let mut first: Vec<u128> = Vec::new();
    first.push(0);
    let mut j: usize = 0;
    while j < n
        invariant
            j <= n,
            first.len() == j + 1,
            forall|b: int| 0 <= b <= j ==> first[b] == b,
        decreases n - j,
    {
        j += 1;
        first.push(j as u128);
    }
    let mut dp: Vec<Vec<u128>> = Vec::new();
    dp.push(first);
    let mut i: usize = 0;
    while i < m
        invariant
            i <= m,
            m == old_list.len(),
            n == new_list.len(),
            same == pairing(old_list@, new_list@),
            dp.len() == i + 1,
            forall|a: int| 0 <= a <= i ==> (#[trigger] dp[a]).len() == n + 1,
            forall|a: int, b: int| 0 <= a <= i && 0 <= b <= n ==> #[trigger] dp[a][b] <= a + b,
            T::obeys_eq_spec() ==> forall|a: int, b: int|
                0 <= a <= i && 0 <= b <= n ==> #[trigger] dp[a][b] == cost(same, a, b),
        decreases m - i,
    {
        i += 1;
        let mut row: Vec<u128> = Vec::new();
        row.push(i as u128);
        let mut j: usize = 0;
        while j < n
            invariant
                j <= n,
                1 <= i <= m,
                m == old_list.len(),
                n == new_list.len(),
                same == pairing(old_list@, new_list@),
                dp.len() == i,
                row.len() == j + 1,
                forall|a: int| 0 <= a < i ==> (#[trigger] dp[a]).len() == n + 1,
                forall|a: int, b: int| 0 <= a < i && 0 <= b <= n ==> #[trigger] dp[a][b] <= a + b,
                forall|b: int| 0 <= b <= j ==> #[trigger] row[b] <= i + b,
                T::obeys_eq_spec() ==> forall|a: int, b: int|
                    0 <= a < i && 0 <= b <= n ==> #[trigger] dp[a][b] == cost(same, a, b),
                T::obeys_eq_spec() ==> forall|b: int|
                    0 <= b <= j ==> #[trigger] row[b] == cost(same, i as int, b),
            decreases n - j,
        {
            j += 1;
            let value = if old_list[i - 1] == new_list[j - 1] {
                dp[i - 1][j - 1]
            } else {
                let top = dp[i - 1][j];
                let left = row[j - 1];
                if top <= left {
                    top + 1
                } else {
                    left + 1
                }
            };
            proof {
                if T::obeys_eq_spec() {
                    assert(paired(same, i - 1, j - 1) == old_list@[i - 1].eq_spec(
                        &new_list@[j - 1],
                    ));
                }
            }
            row.push(value);
        }
        dp.push(row);
    }
    dp
}

/// Whether equal values of `T` are the same value, and a clone is the same
/// value as the one it was made of.
pub open spec fn is_plain<T: PartialEq + Clone>() -> bool {
    &&& forall|a: T, b: T| #[trigger] a.eq_spec(&b) ==> a == b
    &&& forall|a: T, b: T| #[trigger] cloned(a, b) ==> a == b
}

/// The edit script that turns `s` into `t`.
///
/// Where `==` on `T` is what its specification says, the result carries
/// out, step by step, the script of the two lists under that equality: it
/// has the script's length, each operation has the kind and the old
/// position of its step, and each item is a clone of the new element that
/// the step names. Where moreover `T` is plain, the result replayed on `s`
/// gives `t`.
pub fn get_minimum_edits<T: PartialEq + Clone>(s: &Vec<T>, t: &Vec<T>) -> (edits: Vec<
    EditOperation<T>,
>)
    ensures
        T::obeys_eq_spec() ==> carry_out(
            edits@,
            script(pairing(s@, t@), s.len() as int, t.len() as int),
            t@,
        ),
        T::obeys_eq_spec() && is_plain::<T>() ==> replay(s@, edits@) == t@,
{
    let m = s.len();
    let n = t.len();
    let ghost same = pairing(s@, t@);
    let dp = cost_table(s, t);
    let mut found: Vec<EditOperation<T>> = Vec::new();
    let ghost mut done: Seq<Step> = Seq::empty();
    let mut i = m;
    let mut j = n;
    while i > 0 || j > 0
        invariant
            i <= m,
            j <= n,
            m == s.len(),
            n == t.len(),
            same == pairing(s@, t@),
            dp.len() == m + 1,
            forall|a: int| 0 <= a <= m ==> (#[trigger] dp[a]).len() == n + 1,
            T::obeys_eq_spec() ==> forall|a: int, b: int|
                0 <= a <= m && 0 <= b <= n ==> #[trigger] dp[a][b] == cost(same, a, b),
            found.len() == done.len(),
            forall|k: int|
                0 <= k < found.len() ==> (#[trigger] found[k]).carries_out(
                    done[done.len() - 1 - k],
                    t@,
                ),
            T::obeys_eq_spec() ==> script(same, m as int, n as int) == script(
                same,
                i as int,
                j as int,
            ) + done,
        decreases i + j,
    {
        let ghost before = done;
        let ghost rest = script(same, i as int, j as int);
        if i == 0 {
            let item = t[j - 1].clone();
            found.push(EditOperation::InsertFirst(item));
            proof {
                done = seq![Step::InsertFirst { new_inx: j - 1 }] + done;
            }
            j -= 1;
        } else if j == 0 {
            found.push(EditOperation::RemoveAt(i - 1));
            proof {
                done = seq![Step::RemoveAt { old_inx: i - 1 }] + done;
            }
            i -= 1;
        } else if s[i - 1] == t[j - 1] {
            i -= 1;
            j -= 1;
        } else {
            let top = dp[i - 1][j];
            let left = dp[i][j - 1];
            let diag = dp[i - 1][j - 1];
            if diag < top && diag < left {
                let item = t[j - 1].clone();
                found.push(EditOperation::ReplaceAt(i - 1, item));
                proof {
                    done = seq![Step::ReplaceAt { old_inx: i - 1, new_inx: j - 1 }] + done;
                }
                i -= 1;
                j -= 1;
            } else if top < left {
                found.push(EditOperation::RemoveAt(i - 1));
                proof {
                    done = seq![Step::RemoveAt { old_inx: i - 1 }] + done;
                }
                i -= 1;
            } else {
                let item = t[j - 1].clone();
                found.push(EditOperation::InsertAt(i - 1, item));
                proof {
                    done = seq![Step::InsertAt { old_inx: i - 1, new_inx: j - 1 }] + done;
                }
                j -= 1;
            }
        }
        proof {
            if T::obeys_eq_spec() {
                assert(rest =~= script(same, i as int, j as int) + done.take(
                    done.len() - before.len(),
                ));
                assert(rest + before =~= script(same, i as int, j as int) + done);
            }
        }
    }
    let edits = reversed(found);
    proof {
        if T::obeys_eq_spec() {
            assert(script(same, m as int, n as int) =~= done);
        }
        assert forall|k: int| 0 <= k < edits.len() implies (#[trigger] edits[k]).carries_out(
            done[k],
            t@,
        ) by {
            assert(edits[k] == found[found.len() - 1 - k]);
        }
        if T::obeys_eq_spec() && is_plain::<T>() {
            lemma_script_in_range(same, m as int, n as int);
            lemma_carried_out_exactly(edits@, done, t@);
            assert forall|x: int, y: int|
                0 <= x < s.len() && 0 <= y < t.len() && #[trigger] paired(same, x, y) implies s@[x]
                == t@[y] by {
                assert(s@[x].eq_spec(&t@[y]));
            }
            lemma_replay_round_trip(s@, t@, same);
        }
    }
    edits
}

/// The cost of a cell lies between the difference and the sum of its
/// coordinates.
pub proof fn lemma_cost_bounds(same: spec_fn(int, int) -> bool, i: int, j: int)
    requires
        0 <= i,
        0 <= j,
    ensures
        0 <= cost(same, i, j) <= i + j,
    decreases i + j,
{
    if i > 0 && j > 0 {
        lemma_cost_bounds(same, i - 1, j - 1);
        lemma_cost_bounds(same, i - 1, j);
        lemma_cost_bounds(same, i, j - 1);
    }
}

/// Every step of a script names an old position below `i` and a new
/// position below `j`.
pub proof fn lemma_script_in_range(same: spec_fn(int, int) -> bool, i: int, j: int)
    requires
        0 <= i,
        0 <= j,
    ensures
        forall|k: int|
            0 <= k < script(same, i, j).len() ==> match #[trigger] script(same, i, j)[k] {
                Step::InsertFirst { new_inx } => 0 <= new_inx < j,
                Step::InsertAt { old_inx, new_inx } => 0 <= old_inx < i && 0 <= new_inx < j,
                Step::RemoveAt { old_inx } => 0 <= old_inx < i,
                Step::ReplaceAt { old_inx, new_inx } => 0 <= old_inx < i && 0 <= new_inx < j,
            },
    decreases i + j,
{
    if i <= 0 && j <= 0 {
    } else if i <= 0 {
        lemma_script_in_range(same, 0, j - 1);
    } else if j <= 0 {
        lemma_script_in_range(same, i - 1, 0);
    } else {
        lemma_script_in_range(same, i - 1, j - 1);
        lemma_script_in_range(same, i - 1, j);
        lemma_script_in_range(same, i, j - 1);
    }
}

/// Two pairings that agree below `i` and `j` give the same costs and the
/// same script there.
pub proof fn lemma_script_of_equal_pairings(
    a: spec_fn(int, int) -> bool,
    b: spec_fn(int, int) -> bool,
    i: int,
    j: int,
)
    requires
        forall|x: int, y: int|
            0 <= x < i && 0 <= y < j ==> #[trigger] paired(a, x, y) == paired(b, x, y),
    ensures
        cost(a, i, j) == cost(b, i, j),
        script(a, i, j) == script(b, i, j),
    decreases i + j,
{
    if i < 0 || j < 0 || (i == 0 && j == 0) {
    } else if i == 0 {
        lemma_script_of_equal_pairings(a, b, 0, j - 1);
    } else if j == 0 {
        lemma_script_of_equal_pairings(a, b, i - 1, 0);
    } else {
        assert(paired(a, i - 1, j - 1) == paired(b, i - 1, j - 1));
        lemma_script_of_equal_pairings(a, b, i - 1, j - 1);
        lemma_script_of_equal_pairings(a, b, i - 1, j);
        lemma_script_of_equal_pairings(a, b, i, j - 1);
    }
}

/// Where every position is paired with itself, the script between two lists
/// of one length is empty.
pub proof fn lemma_script_of_equal_lists(same: spec_fn(int, int) -> bool, n: int)
    requires
        forall|k: int| 0 <= k < n ==> #[trigger] paired(same, k, k),
    ensures
        script(same, n, n) == Seq::<Step>::empty(),
    decreases n,
{
    if n > 0 {
        assert(paired(same, n - 1, n - 1));
        lemma_script_of_equal_lists(same, n - 1);
    }
}

/// A common subsequence of the first `i` old and the first `j` new elements:
/// pairs of an old and a new position that are paired, in rising order of
/// both positions.
pub open spec fn is_common(
    same: spec_fn(int, int) -> bool,
    kept: Seq<(int, int)>,
    i: int,
    j: int,
) -> bool {
    &&& forall|k: int|
        0 <= k < kept.len() ==> 0 <= (#[trigger] kept[k]).0 < i && 0 <= kept[k].1 < j && paired(
            same,
            kept[k].0,
            kept[k].1,
        )
    &&& forall|k: int, l: int|
        0 <= k < l < kept.len() ==> (#[trigger] kept[k]).0 < (#[trigger] kept[l]).0 && kept[k].1
            < kept[l].1
}

/// The number of insertions and removals that a script stands for: a
/// replacement is a removal and an insertion.
pub open spec fn weight(steps: Seq<Step>) -> int
    decreases steps.len(),
{
    if steps.len() == 0 {
        0
    } else {
        weight(steps.drop_last()) + (if steps.last() is ReplaceAt {
            2int
        } else {
            1int
        })
    }
}

/// From a cell to the next in its row or its column the cost changes by one
/// at most.
pub proof fn lemma_cost_of_neighbours(same: spec_fn(int, int) -> bool, i: int, j: int)
    requires
        0 <= i,
        0 <= j,
    ensures
        i > 0 ==> -1 <= cost(same, i, j) - cost(same, i - 1, j) <= 1,
        j > 0 ==> -1 <= cost(same, i, j) - cost(same, i, j - 1) <= 1,
    decreases i + j,
{
    if i > 0 && j > 0 {
        lemma_cost_of_neighbours(same, i - 1, j);
        lemma_cost_of_neighbours(same, i, j - 1);
    }
}

/// The cost is the least that can be: whatever common subsequence is kept,
/// the old elements outside it have to go and the new ones outside it have
/// to come, and they are no fewer than the cost.
pub proof fn lemma_cost_is_least(
    same: spec_fn(int, int) -> bool,
    kept: Seq<(int, int)>,
    i: int,
    j: int,
)
    requires
        0 <= i,
        0 <= j,
        is_common(same, kept, i, j),
    ensures
        cost(same, i, j) <= (i - kept.len()) + (j - kept.len()),
    decreases i + j,
{
    lemma_cost_bounds(same, i, j);
    if kept.len() == 0 {
    } else if i == 0 || j == 0 {
        assert(0 <= kept[0].0 < i);
    } else {
        let last = kept.last();
        lemma_cost_of_neighbours(same, i - 1, j);
        lemma_cost_of_neighbours(same, i, j - 1);
        if last.0 == i - 1 && last.1 == j - 1 {
            assert(paired(same, i - 1, j - 1));
            let fewer = kept.drop_last();
            assert forall|k: int| 0 <= k < fewer.len() implies 0 <= (#[trigger] fewer[k]).0 < i - 1
                && 0 <= fewer[k].1 < j - 1 && paired(same, fewer[k].0, fewer[k].1) by {
                assert(fewer[k] == kept[k]);
                assert(kept[k].0 < kept[kept.len() - 1].0);
            }
            assert(is_common(same, fewer, i - 1, j - 1));
            lemma_cost_is_least(same, fewer, i - 1, j - 1);
        } else if last.0 < i - 1 {
            assert forall|k: int| 0 <= k < kept.len() implies 0 <= (#[trigger] kept[k]).0 < i
                - 1 by {
                if k < kept.len() - 1 {
                    assert(kept[k].0 < kept[kept.len() - 1].0);
                }
            }
            assert(is_common(same, kept, i - 1, j));
            lemma_cost_is_least(same, kept, i - 1, j);
        } else {
            assert forall|k: int| 0 <= k < kept.len() implies 0 <= (#[trigger] kept[k]).1 < j
                - 1 by {
                if k < kept.len() - 1 {
                    assert(kept[k].1 < kept[kept.len() - 1].1);
                }
            }
            assert(is_common(same, kept, i, j - 1));
            lemma_cost_is_least(same, kept, i, j - 1);
        }
    }
}

/// The script stands for as many insertions and removals as the cost says,
/// and so for the least number that can be.
pub proof fn lemma_script_weighs_its_cost(same: spec_fn(int, int) -> bool, i: int, j: int)
    requires
        0 <= i,
        0 <= j,
    ensures
        weight(script(same, i, j)) == cost(same, i, j),
    decreases i + j,
{
    if i == 0 && j == 0 {
    } else if i == 0 {
        lemma_script_weighs_its_cost(same, 0, j - 1);
        assert(script(same, i, j).drop_last() =~= script(same, 0, j - 1));
    } else if j == 0 {
        lemma_script_weighs_its_cost(same, i - 1, 0);
        assert(script(same, i, j).drop_last() =~= script(same, i - 1, 0));
    } else {
        lemma_cost_of_neighbours(same, i - 1, j);
        lemma_cost_of_neighbours(same, i, j - 1);
        lemma_script_weighs_its_cost(same, i - 1, j - 1);
        lemma_script_weighs_its_cost(same, i - 1, j);
        lemma_script_weighs_its_cost(same, i, j - 1);
        if paired(same, i - 1, j - 1) {
        } else if cost(same, i - 1, j - 1) < cost(same, i - 1, j) && cost(same, i - 1, j - 1)
            < cost(same, i, j - 1) {
            assert(script(same, i, j).drop_last() =~= script(same, i - 1, j - 1));
        } else if cost(same, i - 1, j) < cost(same, i, j - 1) {
            assert(script(same, i, j).drop_last() =~= script(same, i - 1, j));
        } else {
            assert(script(same, i, j).drop_last() =~= script(same, i, j - 1));
        }
    }
}

} // verus!
