use edit_distance::difference::{
    brackets_separators, default_display_edit_operations, make_char_separators,
    parens_separators, Separators,
};
use edit_distance::edit_operation::EditOperation::{Delete, Insert, Keep, Substitute};

#[test]
fn char_separators() {
    assert_eq!(
        make_char_separators('<', '>'),
        Separators {
            start_separator: "<".to_string(),
            end_separator: ">".to_string()
        }
    );
    assert_eq!(parens_separators().start_separator, "(");
    assert_eq!(parens_separators().end_separator, ")");
    assert_eq!(brackets_separators().start_separator, "[");
    assert_eq!(brackets_separators().end_separator, "]");
}

#[test]
fn display_each_operation() {
    assert_eq!(default_display_edit_operations(Insert('a')), "+a");
    assert_eq!(default_display_edit_operations(Delete('b')), "-b");
    assert_eq!(default_display_edit_operations(Substitute('c', 'd')), "~c/d");
    assert_eq!(default_display_edit_operations(Keep('e')), "e");
    assert_eq!(default_display_edit_operations(Keep('é')), "é");
}
