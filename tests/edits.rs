use edit_distance::costs::levenshtein_costs;
use edit_distance::costs::Cost::{Deletion, Insertion, NoAction, Substitution};
use edit_distance::edit_matrix::create_edit_matrix;
use edit_distance::edit_operation::EditOperation::{Delete, Insert, Keep, Substitute};
use edit_distance::edits::{edit_distance, edit_operations, extract_operations};
use edit_distance::matrix::Matrix;

fn dist(a: &str, b: &str) -> usize {
    edit_distance(&levenshtein_costs(), a.to_string(), b.to_string())
}

#[test]
fn hello_to_hey() {
    let m = create_edit_matrix(&levenshtein_costs(), "hello".to_string(), "hey".to_string());
    assert_eq!(m.rows[5][3], Substitution(3));
    assert_eq!(dist("hello", "hey"), 3);
    assert_eq!(
        extract_operations(&m, "hello".to_string(), "hey".to_string()),
        vec![Keep('h'), Keep('e'), Delete('l'), Delete('l'), Substitute('o', 'y')]
    );
}

#[test]
fn from_empty_is_all_insertions() {
    assert_eq!(dist("", "abc"), 3);
    assert_eq!(
        edit_operations(&levenshtein_costs(), "".to_string(), "abc".to_string()),
        vec![Insert('a'), Insert('b'), Insert('c')]
    );
}

#[test]
fn to_empty_is_all_deletions() {
    assert_eq!(dist("abc", ""), 3);
    assert_eq!(
        edit_operations(&levenshtein_costs(), "abc".to_string(), "".to_string()),
        vec![Delete('a'), Delete('b'), Delete('c')]
    );
}

#[test]
fn both_empty() {
    assert_eq!(dist("", ""), 0);
    assert_eq!(
        edit_operations(&levenshtein_costs(), "".to_string(), "".to_string()),
        vec![]
    );
}

#[test]
fn equal_strings_are_all_kept() {
    assert_eq!(dist("abc", "abc"), 0);
    assert_eq!(
        edit_operations(&levenshtein_costs(), "abc".to_string(), "abc".to_string()),
        vec![Keep('a'), Keep('b'), Keep('c')]
    );
}

#[test]
fn single_differing_characters() {
    assert_eq!(dist("a", "b"), 1);
    assert_eq!(
        edit_operations(&levenshtein_costs(), "a".to_string(), "b".to_string()),
        vec![Substitute('a', 'b')]
    );
}

#[test]
fn distance_is_symmetric() {
    assert_eq!(dist("kitten", "sitting"), 3);
    assert_eq!(dist("sitting", "kitten"), 3);
    assert_eq!(dist("hello", "hey"), dist("hey", "hello"));
}

#[test]
fn distance_to_self_is_zero() {
    assert_eq!(dist("kitten", "kitten"), 0);
    assert_eq!(dist("", ""), 0);
}

#[test]
fn triangle_inequality() {
    let (a, b, c) = ("kitten", "sitting", "fitting");
    assert!(dist(a, c) <= dist(a, b) + dist(b, c));
    assert_eq!(dist(a, c), 3);
    assert_eq!(dist(b, c), 1);
}

fn apply(ops: &[edit_distance::edit_operation::EditOperation<char>], s1: &str) -> String {
    let mut input = s1.chars();
    let mut out = String::new();
    for op in ops {
        match *op {
            Keep(c) => {
                assert_eq!(input.next(), Some(c));
                out.push(c);
            }
            Substitute(a, b) => {
                assert_eq!(input.next(), Some(a));
                out.push(b);
            }
            Delete(a) => assert_eq!(input.next(), Some(a)),
            Insert(b) => out.push(b),
        }
    }
    assert_eq!(input.next(), None);
    out
}

#[test]
fn operations_rebuild_the_second_string() {
    for (a, b) in [("kitten", "sitting"), ("hello", "hey"), ("", "xy"), ("abc", "cab")] {
        let ops = edit_operations(&levenshtein_costs(), a.to_string(), b.to_string());
        assert_eq!(apply(&ops, a), b);
    }
}

#[test]
fn operation_costs_sum_to_the_final_cell() {
    for (a, b) in [("kitten", "sitting"), ("hello", "hey"), ("", "xy"), ("abc", "cab")] {
        let ops = edit_operations(&levenshtein_costs(), a.to_string(), b.to_string());
        let total = ops.iter().filter(|op| !matches!(op, Keep(_))).count();
        assert_eq!(total, dist(a, b));
    }
}

#[test]
fn extract_from_a_hand_built_matrix() {
    let m = Matrix {
        rows: vec![
            vec![Insertion(0), Insertion(1)],
            vec![Deletion(1), Insertion(2)],
        ],
    };
    // cell (1, 1) tagged Insertion walks left, then (1, 0) deletes
    assert_eq!(
        extract_operations(&m, "a".to_string(), "b".to_string()),
        vec![Delete('a'), Insert('b')]
    );
    let m = Matrix {
        rows: vec![vec![Insertion(0), Insertion(1)], vec![Deletion(1), NoAction(0)]],
    };
    assert_eq!(
        extract_operations(&m, "z".to_string(), "z".to_string()),
        vec![Keep('z')]
    );
}
