use edit_distance::costs::levenshtein_costs;
use edit_distance::costs::Cost::{Deletion, Insertion, NoAction, Substitution};
use edit_distance::edit_matrix::{cartesian, cost_of, create_edit_matrix};
use edit_distance::matrix::{init_matrix, Matrix};

#[test]
fn test_cartesian() {
    assert_eq!(
        cartesian(2, 3),
        vec![(0, 0), (0, 1), (0, 2), (1, 0), (1, 1), (1, 2)]
    );
}

#[test]
fn test_create_edit_matrix() {
    assert_eq!(
        create_edit_matrix(&levenshtein_costs(), "hello".to_string(), "hey".to_string()),
        Matrix {
            rows: vec![
                vec![Insertion(0), Insertion(1), Insertion(2), Insertion(3)],
                vec![Deletion(1), NoAction(0), Insertion(1), Insertion(2)],
                vec![Deletion(2), Deletion(1), NoAction(0), Insertion(1)],
                vec![Deletion(3), Deletion(2), Deletion(1), Substitution(1)],
                vec![Deletion(4), Deletion(3), Deletion(2), Substitution(2)],
                vec![Deletion(5), Deletion(4), Deletion(3), Substitution(3)]
            ]
        }
    );
}

#[test]
fn cartesian_empty_side() {
    assert_eq!(cartesian(0, 3), vec![]);
    assert_eq!(cartesian(2, 0), vec![]);
}

#[test]
fn empty_first_string_gives_one_row_of_insertions() {
    assert_eq!(
        create_edit_matrix(&levenshtein_costs(), "".to_string(), "ab".to_string()),
        Matrix {
            rows: vec![vec![Insertion(0), Insertion(1), Insertion(2)]]
        }
    );
}

#[test]
fn empty_second_string_gives_one_column_of_deletions() {
    assert_eq!(
        create_edit_matrix(&levenshtein_costs(), "ab".to_string(), "".to_string()),
        Matrix {
            rows: vec![vec![Insertion(0)], vec![Deletion(1)], vec![Deletion(2)]]
        }
    );
}

#[test]
fn matrix_counts_characters_not_bytes() {
    let m = create_edit_matrix(&levenshtein_costs(), "é".to_string(), "e".to_string());
    assert_eq!(
        m,
        Matrix {
            rows: vec![vec![Insertion(0), Insertion(1)], vec![Deletion(1), Substitution(1)]]
        }
    );
}

#[test]
fn cost_of_collapses_equal_characters_to_no_action() {
    let m = Matrix {
        rows: vec![vec![Insertion(0), Insertion(1)], vec![Deletion(1), NoAction(0)]],
    };
    assert_eq!(
        cost_of(&levenshtein_costs(), "a".to_string(), "a".to_string(), 1, 1, &m),
        Some(NoAction(0))
    );
    assert_eq!(
        cost_of(&levenshtein_costs(), "a".to_string(), "b".to_string(), 1, 1, &m),
        Some(Substitution(1))
    );
}

#[test]
fn cost_of_prefers_cheaper_insertion_and_deletion() {
    // left neighbour is cheapest: insertion
    let m = Matrix {
        rows: vec![vec![Insertion(5), Insertion(5)], vec![Deletion(0), NoAction(0)]],
    };
    assert_eq!(
        cost_of(&levenshtein_costs(), "a".to_string(), "b".to_string(), 1, 1, &m),
        Some(Insertion(1))
    );
    // upper neighbour is cheapest: deletion
    let m = Matrix {
        rows: vec![vec![Insertion(5), Insertion(0)], vec![Deletion(5), NoAction(0)]],
    };
    assert_eq!(
        cost_of(&levenshtein_costs(), "a".to_string(), "b".to_string(), 1, 1, &m),
        Some(Deletion(1))
    );
}

#[test]
fn cost_of_outside_the_matrix_or_strings_is_none() {
    let m = init_matrix(2, 2, NoAction(0));
    assert_eq!(
        cost_of(&levenshtein_costs(), "a".to_string(), "a".to_string(), 2, 1, &m),
        None
    );
    assert_eq!(
        cost_of(&levenshtein_costs(), "".to_string(), "a".to_string(), 1, 1, &m),
        None
    );
}

#[test]
fn matrix_get_and_set() {
    let mut m = init_matrix(2, 3, 7u32);
    assert_eq!(m.get_value(1, 2), Some(7));
    assert_eq!(m.get_value(2, 0), None);
    assert_eq!(m.get_value(0, 3), None);
    m.set_value(1, 2, 9);
    assert_eq!(m.get_value(1, 2), Some(9));
    assert_eq!(m.get_value(0, 2), Some(7));
}
