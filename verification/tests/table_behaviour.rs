use recipe_table::table::{
    add_next_table_row, add_padding, create_row_ingredient, create_table, get_longest_ingredient_height,
    get_longest_word, get_seperator_string, print_recipe_table, try_print_recipe_table,
};

#[test]
fn longest_word_prefers_the_last_of_equal_length() {
    assert_eq!(get_longest_word(vec!["abc def", "ghi"]), "ghi");
    assert_eq!(get_longest_word(vec!["abcd", "efg"]), "abcd");
}

#[test]
fn longest_word_of_nothing_is_empty() {
    assert_eq!(get_longest_word(vec![]), "");
    assert_eq!(get_longest_word(vec!["  ", ""]), "");
}

#[test]
fn longest_word_counts_bytes() {
    // Two two-byte characters outweigh three one-byte ones.
    assert_eq!(get_longest_word(vec!["\u{e9}\u{e9}", "abc"]), "\u{e9}\u{e9}");
}

#[test]
fn ingredient_height_of_nothing_is_zero() {
    assert_eq!(get_longest_ingredient_height(vec![]), 0);
    assert_eq!(get_longest_ingredient_height(vec!["", "  "]), 0);
    assert_eq!(get_longest_ingredient_height(vec!["a  b\tc"]), 3);
}

#[test]
fn separator_has_three_columns() {
    assert_eq!(get_seperator_string(2), "+--+--+--+");
    assert_eq!(get_seperator_string(0), "++++");
}

#[test]
fn next_row_goes_on_a_new_line() {
    assert_eq!(add_next_table_row(String::from("a"), String::from("b")), "a\nb");
}

#[test]
fn padding_adds_spaces() {
    assert_eq!(add_padding(String::from("|"), 3), "|   ");
}

#[test]
fn row_ingredient_centres_words_with_extra_line_below() {
    let r = create_row_ingredient("a b", 5);
    assert_eq!(r.padding, vec![true, false, false, true, true]);
    assert_eq!(r.words, vec!["", "a", "b", "", ""]);
}

#[test]
fn row_ingredient_drops_words_that_do_not_fit() {
    let r = create_row_ingredient("a b c", 2);
    assert_eq!(r.padding, vec![false, false]);
    assert_eq!(r.words, vec!["a", "b"]);
}

#[test]
fn row_ingredient_with_no_lines_is_empty() {
    let r = create_row_ingredient("a", 0);
    assert!(r.padding.is_empty());
    assert!(r.words.is_empty());
    let r = create_row_ingredient("a", -3);
    assert!(r.words.is_empty());
}

fn nine(names: [&'static str; 9]) -> Vec<&'static str> {
    names.to_vec()
}

#[test]
fn tall_table_closes_with_a_separator() {
    let table = create_table(nine(["a b", "c", "d", "e", "f", "g", "h", "i", "j"]), 1, 2);
    let expected = "```\n\n+---+---+---+\n|   |   |   |\n| a | c | d |\n| b |   |   |\n|   |   |   |\n+---+---+---+\n|   |   |   |\n| e | f | g |\n|   |   |   |\n|   |   |   |\n+---+---+---+\n|   |   |   |\n| h | i | j |\n|   |   |   |\n|   |   |   |\n+---+---+---+\n```";
    assert_eq!(table, expected);
}

#[test]
fn blank_table_separates_every_row() {
    let table = create_table(nine(["", "", "", "", "", "", "", "", ""]), 0, 0);
    let expected = "```\n\n+--+--+--+\n|  |  |  |\n|  |  |  |\n+--+--+--+\n|  |  |  |\n|  |  |  |\n+--+--+--+\n|  |  |  |\n|  |  |  |\n+--+--+--+\n```";
    assert_eq!(table, expected);
}

#[test]
fn all_table_lines_have_equal_width() {
    let table = print_recipe_table(nine(["Oak Planks", "Stick", "#", "#", "Iron Ingot", "#", "a b c", "#", "#"]));
    let lines: Vec<&str> = table.lines().collect();
    assert_eq!(lines.first(), Some(&"```"));
    assert_eq!(lines.last(), Some(&"```"));
    let body: Vec<&&str> = lines[2..lines.len() - 1].iter().collect();
    let width = body[0].len();
    assert_eq!(width, 3 * (6 + 2) + 4);
    assert!(body.iter().all(|l| l.len() == width));
}

#[test]
fn try_print_refuses_short_recipes() {
    assert_eq!(try_print_recipe_table(vec!["a", "b"]), None);
}

#[test]
fn try_print_refuses_pieces_wider_than_the_column() {
    let ingredients = nine(["aaaa\tbbbb", "b", "c", "d", "e", "f", "g", "h", "i"]);
    assert_eq!(try_print_recipe_table(ingredients), None);
}

#[test]
fn try_print_draws_what_print_draws() {
    let ingredients = nine(["a", "b", "c", "d", "e", "f", "g", "h", "i"]);
    let expected = print_recipe_table(ingredients.clone());
    assert_eq!(try_print_recipe_table(ingredients), Some(expected));
}

#[test]
fn ingredients_after_the_ninth_are_not_drawn() {
    let nine_only = nine(["a", "b", "c", "d", "e", "f", "g", "h", "i"]);
    let mut ten = nine_only.clone();
    ten.push("jjj");
    assert_eq!(create_table(ten, 1, 1), create_table(nine_only, 1, 1));
}
