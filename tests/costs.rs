use edit_distance::costs::Cost::{Deletion, Insertion, NoAction, Substitution};
use edit_distance::costs::{levenshtein_costs, show_cost, Costs};

#[test]
fn cost_of_each_variant() {
    assert_eq!(Insertion(3).cost(), 3);
    assert_eq!(Deletion(4).cost(), 4);
    assert_eq!(Substitution(5).cost(), 5);
    assert_eq!(NoAction(6).cost(), 6);
}

#[test]
fn show_cost_prefixes_each_variant() {
    assert_eq!(show_cost(&Insertion(3)), "+ 3");
    assert_eq!(show_cost(&Deletion(0)), "- 0");
    assert_eq!(show_cost(&Substitution(42)), "~ 42");
    assert_eq!(show_cost(&NoAction(1207)), "o 1207");
    assert_eq!(show_cost(&Insertion(usize::MAX)), format!("+ {}", usize::MAX));
}

#[test]
fn levenshtein_unit_costs() {
    let c = levenshtein_costs();
    assert_eq!(c.insertion_cost(&'a'), 1);
    assert_eq!(c.deletion_cost(&'a'), 1);
    assert_eq!(c.substitution_cost(&'a', &'a'), 0);
    assert_eq!(c.substitution_cost(&'a', &'b'), 1);
}

#[test]
fn levenshtein_tie_break_order() {
    let c = levenshtein_costs();
    // insertion strictly cheapest
    assert_eq!(c.lower_cost(&'a', &'b', 3, 3, 2), Insertion(2));
    // insertion tied with substitution: insertion only on equal characters
    assert_eq!(c.lower_cost(&'a', &'a', 3, 2, 2), Insertion(2));
    assert_eq!(c.lower_cost(&'a', &'b', 3, 2, 2), Substitution(2));
    // deletion strictly cheapest
    assert_eq!(c.lower_cost(&'a', &'b', 1, 3, 2), Deletion(1));
    // deletion tied with substitution: deletion only on equal characters
    assert_eq!(c.lower_cost(&'a', &'a', 1, 1, 2), Deletion(1));
    assert_eq!(c.lower_cost(&'a', &'b', 1, 1, 2), Substitution(1));
    // substitution strictly cheapest
    assert_eq!(c.lower_cost(&'a', &'b', 2, 0, 2), Substitution(0));
    // all tied
    assert_eq!(c.lower_cost(&'a', &'b', 1, 1, 1), Substitution(1));
    assert_eq!(c.lower_cost(&'a', &'a', 1, 1, 1), Deletion(1));
}
