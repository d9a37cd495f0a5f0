use monolith_core::edit_distance::get_minimum_edits;
use monolith_core::edit_distance::EditOperation;


#[test]
fn test_insert_front() {
    let a = vec![1, 2, 3];
    let b = vec![0, 1, 2, 3];

    let edits = get_minimum_edits(&a, &b);

    assert_eq!(edits, vec![EditOperation::InsertFirst(0)]);
}

#[test]
fn test_insert_back() {
    let a = vec![1, 2, 3];
    let b = vec![1, 2, 3, 4];
    let edits = get_minimum_edits(&a, &b);

    assert_eq!(edits, vec![EditOperation::InsertAt(2, 4)]);
}

#[test]
fn test_insert_middle() {
    let a = vec![1, 2, 3];
    let b = vec![1, 2, 4, 3];
    let edits = get_minimum_edits(&a, &b);

    assert_eq!(edits, vec![EditOperation::InsertAt(1, 4)]);
}

#[test]
fn test_remove_first() {
    let a = vec![1, 2, 3];
    let b = vec![2, 3];
    let edits = get_minimum_edits(&a, &b);

    assert_eq!(edits, vec![EditOperation::RemoveAt(0)]);
}

#[test]
fn test_remove_last() {
    let a = vec![1, 2, 3];
    let b = vec![1, 2];
    let edits = get_minimum_edits(&a, &b);

    assert_eq!(edits, vec![EditOperation::RemoveAt(2)]);
}

#[test]
fn test_remove_middle() {
    let a = vec![1, 2, 3];
    let b = vec![1, 3];
    let edits = get_minimum_edits(&a, &b);

    assert_eq!(edits, vec![EditOperation::RemoveAt(1)]);
}

#[test]
fn test_replace_first() {
    let a = vec![1, 2, 3];
    let b = vec![4, 2, 3];

    let edits = get_minimum_edits(&a, &b);

    assert_eq!(edits, vec![EditOperation::ReplaceAt(0, 4)]);
}

#[test]
fn test_replace_last() {
    let a = vec![1, 2, 3];
    let b = vec![1, 2, 4];
    let edits = get_minimum_edits(&a, &b);

    assert_eq!(edits, vec![EditOperation::ReplaceAt(2, 4)]);
}

#[test]
fn test_replace_middle() {
    let a = vec![1, 2, 3];
    let b = vec![1, 4, 3];
    let edits = get_minimum_edits(&a, &b);

    assert_eq!(edits, vec![EditOperation::ReplaceAt(1, 4)]);
}

#[test]
fn test_replace_all() {
    let a = vec![1, 2, 3];
    let b = vec![4, 5, 6];
    let edits = get_minimum_edits(&a, &b);

    assert_eq!(edits, vec![EditOperation::ReplaceAt(0, 4), EditOperation::ReplaceAt(1, 5), EditOperation::ReplaceAt(2, 6)]);
}

#[test]
fn test_move_from_back_to_front() {
    let a = vec![1, 2, 3];
    let b = vec![3, 1, 2];

    let edits = get_minimum_edits(&a, &b);

    assert_eq!(edits, vec![EditOperation::InsertFirst(3), EditOperation::RemoveAt(2)]);
}

#[test]
fn test_string() {
    let old = "sitting";
    let new = "kitten";

    let edits = get_minimum_edits(&old.chars().collect::<Vec<_>>(), &new.chars().collect::<Vec<_>>());

    assert_eq!(edits,
        vec![
            EditOperation::ReplaceAt(0, 'k'),
            EditOperation::ReplaceAt(4, 'e'),
            EditOperation::RemoveAt(6),
        ]
    );
}
