use monolith_core::diff::diff;
use monolith_core::edit_distance::get_minimum_edits;
use monolith_core::edit_distance::EditOperation;
use monolith_core::gui::Button;
use monolith_core::gui::Checkbox;
use monolith_core::gui::Item;
use monolith_core::gui::Text;
use monolith_core::gui::TextInput;
use monolith_core::gui::View;
use monolith_core::types::ClientAction;
use monolith_core::types::InsertAt;
use monolith_core::types::RemoveInx;
use monolith_core::types::Replace;

fn text(s: &str) -> Item {
    Item::Text(Text { text: s.to_string() })
}

fn view(body: Vec<Item>) -> Item {
    Item::View(View { body })
}

fn button(title: &str) -> Item {
    Item::Button(Button { id: "b".to_string(), name: "b".to_string(), title: title.to_string() })
}

fn input(value: &str) -> Item {
    Item::TextInput(TextInput {
        id: "i".to_string(),
        name: "i".to_string(),
        placeholder: "p".to_string(),
        value: value.to_string(),
    })
}

fn checkbox(checked: bool) -> Item {
    Item::Checkbox(Checkbox { id: "c".to_string(), name: "c".to_string(), checked })
}

/// The patches of `batch` that concern the child at `k`, seen from it.
fn below(batch: &[ClientAction], k: usize) -> Vec<ClientAction> {
    let mut inner = Vec::new();
    for action in batch {
        let mut action = action.clone();
        let path = match &mut action {
            ClientAction::Replace(p) => &mut p.path,
            ClientAction::AddBack(p) => &mut p.path,
            ClientAction::AddFront(p) => &mut p.path,
            ClientAction::InsertAt(p) => &mut p.path,
            ClientAction::RemoveInx(p) => &mut p.path,
        };
        if path.first() == Some(&k) {
            path.remove(0);
            inner.push(action);
        }
    }
    inner
}

/// What a client makes of `tree` when it receives `batch`: every position
/// is one of the tree as it stood before the batch.
fn apply(tree: &Item, batch: &[ClientAction]) -> Item {
    let mut whole = None;
    for action in batch {
        if let ClientAction::Replace(p) = action {
            if p.path.is_empty() {
                whole = Some(p.item.clone());
            }
        }
    }
    if let Some(item) = whole {
        return item;
    }
    let children = match tree {
        Item::View(v) => &v.body,
        _ => return tree.clone(),
    };
    let mut body = Vec::new();
    for action in batch {
        if let ClientAction::AddFront(p) = action {
            if p.path.is_empty() {
                body.push(p.item.clone());
            }
        }
    }
    for (k, child) in children.iter().enumerate() {
        let gone = batch.iter().any(|action| match action {
            ClientAction::RemoveInx(p) => p.path.is_empty() && p.inx == k,
            _ => false,
        });
        if !gone {
            body.push(apply(child, &below(batch, k)));
        }
        for action in batch {
            if let ClientAction::InsertAt(p) = action {
                if p.path.is_empty() && p.inx == k {
                    body.push(p.item.clone());
                }
            }
        }
    }
    for action in batch {
        if let ClientAction::AddBack(p) = action {
            if p.path.is_empty() {
                body.push(p.item.clone());
            }
        }
    }
    view(body)
}

fn samples() -> Vec<Item> {
    vec![
        text("Hello"),
        text("Hello World"),
        button("Hello"),
        input(""),
        input("x"),
        checkbox(false),
        checkbox(true),
        view(vec![]),
        view(vec![text("1")]),
        view(vec![text("1"), text("2"), text("3")]),
        view(vec![text("0"), text("1"), text("2"), text("3")]),
        view(vec![text("1"), text("3")]),
        view(vec![text("3"), text("1"), text("2")]),
        view(vec![text("1"), text("2"), text("3"), text("4")]),
        view(vec![text("a"), text("x"), text("b")]),
        view(vec![text("b"), text("y"), text("a")]),
        view(vec![text("x"), text("y")]),
        view(vec![text("y"), text("x")]),
        view(vec![text("x"), text("x"), text("y"), text("x")]),
        view(vec![view(vec![input(""), button("Hello")]), view(vec![])]),
        view(vec![view(vec![input("newvalue"), button("Hello")]), view(vec![view(vec![text("Newrow")])])]),
        view(vec![view(vec![view(vec![checkbox(false), text("Makkara")])]), text("tail")]),
        view(vec![view(vec![view(vec![checkbox(true), text("Makkara"), text("more")])]), button("tail")]),
        view(vec![view(vec![]), view(vec![]), view(vec![text("1")])]),
        view(vec![view(vec![text("1")]), view(vec![])]),
    ]
}

#[test]
fn round_trip_between_all_samples() {
    let all = samples();
    for old in &all {
        for new in &all {
            let batch = diff(old, new);
            assert_eq!(&apply(old, &batch), new, "from {:?} to {:?} by {:?}", old, new, batch);
        }
    }
}

#[test]
fn no_patches_between_a_tree_and_itself() {
    for tree in samples() {
        assert_eq!(diff(&tree, &tree), vec![]);
        assert_eq!(diff(&tree, &tree.clone()), vec![]);
    }
}

#[test]
fn patches_between_any_two_different_trees() {
    let all = samples();
    for (i, old) in all.iter().enumerate() {
        for (j, new) in all.iter().enumerate() {
            assert_eq!(diff(old, new).is_empty(), i == j);
        }
    }
}

#[test]
fn removing_the_middle_child() {
    let changes = diff(
        &view(vec![text("1"), text("2"), text("3")]),
        &view(vec![text("1"), text("3")]),
    );
    assert_eq!(changes, vec![ClientAction::RemoveInx(RemoveInx { path: vec![], inx: 1 })]);
}

#[test]
fn appending_a_child_inserts_behind_the_last_old_one() {
    let changes = diff(
        &view(vec![text("1"), text("2"), text("3")]),
        &view(vec![text("1"), text("2"), text("3"), text("4")]),
    );
    assert_eq!(
        changes,
        vec![ClientAction::InsertAt(InsertAt { path: vec![], inx: 2, item: text("4") })]
    );
}

#[test]
fn a_container_against_a_leaf_is_replaced_as_a_whole() {
    let changes = diff(&view(vec![text("1")]), &text("1"));
    assert_eq!(changes, vec![ClientAction::Replace(Replace { path: vec![], item: text("1") })]);
    let back = diff(&text("1"), &view(vec![text("1")]));
    assert_eq!(
        back,
        vec![ClientAction::Replace(Replace { path: vec![], item: view(vec![text("1")]) })]
    );
}

#[test]
fn a_replaced_child_of_another_kind_is_replaced_at_its_old_position() {
    let changes = diff(
        &view(vec![text("keep"), button("old")]),
        &view(vec![text("keep"), text("new")]),
    );
    assert_eq!(
        changes,
        vec![ClientAction::Replace(Replace { path: vec![1], item: text("new") })]
    );
}

#[test]
fn edits_between_empty_lists() {
    let none: Vec<i32> = vec![];
    assert_eq!(get_minimum_edits(&none, &none), vec![]);
    assert_eq!(
        get_minimum_edits(&none, &vec![1, 2]),
        vec![EditOperation::InsertFirst(1), EditOperation::InsertFirst(2)]
    );
    assert_eq!(
        get_minimum_edits(&vec![1, 2], &none),
        vec![EditOperation::RemoveAt(0), EditOperation::RemoveAt(1)]
    );
}

#[test]
fn a_replacement_is_found_only_where_the_diagonal_is_cheapest() {
    let old: Vec<char> = "axb".chars().collect();
    let new: Vec<char> = "bya".chars().collect();
    assert_eq!(
        get_minimum_edits(&old, &new),
        vec![
            EditOperation::RemoveAt(0),
            EditOperation::RemoveAt(1),
            EditOperation::InsertAt(2, 'y'),
            EditOperation::InsertAt(2, 'a'),
        ]
    );
}

#[test]
fn edits_between_equal_lists() {
    assert_eq!(get_minimum_edits(&vec![1, 2, 3], &vec![1, 2, 3]), vec![]);
}

/// What `edits` make of `old`: every position is one of `old` as it stood
/// before the script.
fn replay(old: &[u8], edits: &[EditOperation<u8>]) -> Vec<u8> {
    let mut list = Vec::new();
    for edit in edits {
        if let EditOperation::InsertFirst(item) = edit {
            list.push(*item);
        }
    }
    for (k, element) in old.iter().enumerate() {
        let gone = edits.iter().any(|edit| matches!(edit, EditOperation::RemoveAt(inx) if *inx == k));
        let swapped = edits.iter().rev().find_map(|edit| match edit {
            EditOperation::ReplaceAt(inx, item) if *inx == k => Some(*item),
            _ => None,
        });
        if !gone {
            list.push(swapped.unwrap_or(*element));
        }
        for edit in edits {
            if let EditOperation::InsertAt(inx, item) = edit {
                if *inx == k {
                    list.push(*item);
                }
            }
        }
    }
    list
}

/// All lists over `0, 1, 2` of at most `longest` elements.
fn small_lists(longest: usize) -> Vec<Vec<u8>> {
    let mut all: Vec<Vec<u8>> = vec![vec![]];
    let mut last: Vec<Vec<u8>> = vec![vec![]];
    for _ in 0..longest {
        let mut next = Vec::new();
        for list in &last {
            for symbol in 0..3u8 {
                let mut longer = list.clone();
                longer.push(symbol);
                next.push(longer);
            }
        }
        all.extend(next.iter().cloned());
        last = next;
    }
    all
}

/// The length of the longest common subsequence of two lists.
fn longest_common(a: &[u8], b: &[u8]) -> usize {
    let mut table = vec![vec![0usize; b.len() + 1]; a.len() + 1];
    for i in 1..=a.len() {
        for j in 1..=b.len() {
            table[i][j] = if a[i - 1] == b[j - 1] {
                table[i - 1][j - 1] + 1
            } else {
                table[i - 1][j].max(table[i][j - 1])
            };
        }
    }
    table[a.len()][b.len()]
}

#[test]
fn edit_scripts_round_trip_between_all_small_lists() {
    let all = small_lists(4);
    for old in &all {
        for new in &all {
            let edits = get_minimum_edits(old, new);
            assert_eq!(&replay(old, &edits), new, "from {:?} to {:?} by {:?}", old, new, edits);
        }
    }
}

#[test]
fn edit_scripts_stand_for_the_fewest_insertions_and_removals() {
    let all = small_lists(4);
    for old in &all {
        for new in &all {
            let edits = get_minimum_edits(old, new);
            let weight: usize = edits
                .iter()
                .map(|edit| if matches!(edit, EditOperation::ReplaceAt(_, _)) { 2 } else { 1 })
                .sum();
            assert_eq!(weight, old.len() + new.len() - 2 * longest_common(old, new));
        }
    }
}

#[test]
fn edit_scripts_name_old_positions_in_rising_order() {
    let all = small_lists(4);
    for old in &all {
        for new in &all {
            let mut before: Option<usize> = None;
            for edit in get_minimum_edits(old, new) {
                let at = match edit {
                    EditOperation::InsertFirst(_) => {
                        assert_eq!(before, None);
                        continue;
                    }
                    EditOperation::InsertAt(inx, _) => inx,
                    EditOperation::RemoveAt(inx) => inx,
                    EditOperation::ReplaceAt(inx, _) => inx,
                };
                assert!(at < old.len());
                assert!(before.map_or(true, |b| b <= at));
                before = Some(at);
            }
        }
    }
}

#[test]
fn round_trip_between_all_small_containers() {
    let all: Vec<Item> = small_lists(3)
        .iter()
        .map(|list| view(list.iter().map(|symbol| text(&symbol.to_string())).collect()))
        .collect();
    for old in &all {
        for new in &all {
            let batch = diff(old, new);
            assert_eq!(&apply(old, &batch), new, "from {:?} to {:?} by {:?}", old, new, batch);
        }
    }
}

#[test]
fn round_trip_between_nested_containers() {
    let leaves = vec![text("a"), text("b"), button("a")];
    let mut level: Vec<Item> = leaves.clone();
    for first in &leaves {
        level.push(view(vec![first.clone()]));
        for second in &leaves {
            level.push(view(vec![first.clone(), second.clone()]));
        }
    }
    let mut all: Vec<Item> = level.clone();
    for first in level.iter().step_by(2) {
        for second in level.iter().step_by(3) {
            all.push(view(vec![first.clone(), second.clone()]));
            all.push(view(vec![second.clone(), text("x"), first.clone()]));
        }
    }
    for old in &all {
        for new in &all {
            let batch = diff(old, new);
            assert_eq!(&apply(old, &batch), new, "from {:?} to {:?} by {:?}", old, new, batch);
        }
    }
}
