use recipe_table::table::{
    add_centered_ingredient, build_rows, create_ingredient_row, create_row_ingredients, create_table,
    get_longest_ingredient_height, get_longest_word, print_recipe_table, RowIngredient,
};

#[test]
fn longest_word() {
    let words = vec!["short", "longer", "longest"];
    let expectation = "longest";

    let result = get_longest_word(words);

    assert_eq!(result, expectation)
}

#[test]
fn longest_multiple_words() {
    let words = vec!["short", "longer longest", "short"];
    let expectation = "longest";

    let result = get_longest_word(words);

    assert_eq!(result, expectation)
}

#[test]
fn ingredient_height_one_word() {
    let words = vec!["one", "one", "one"];
    let expectation = 1;

    let result = get_longest_ingredient_height(words);

    assert_eq!(result, expectation)
}

#[test]
fn ingredient_height_multiple_words() {
    let words = vec!["one two", "one two three", "one"];
    let expectation = 3;

    let result = get_longest_ingredient_height(words);

    assert_eq!(result, expectation)
}

#[test]
fn centered_ingredient() {
    let expected_string = String::from("  test  ");

    let result = add_centered_ingredient(String::from(""), String::from("test"), 8);

    assert_eq!(result, expected_string);
}

#[test]
fn row_ingredients() {
    let expected_row_ingredients = vec![
        RowIngredient {
            words: vec![String::from(""), String::from("test"), String::from("")],
            padding: vec![true, false, true],
        },
        RowIngredient {
            words: vec![
                String::from("test"),
                String::from("test"),
                String::from("test"),
            ],
            padding: vec![false, false, false],
        },
        RowIngredient {
            words: vec![String::from("test"), String::from("test"), String::from("")],
            padding: vec![false, false, true],
        },
    ];

    let result = create_row_ingredients(&vec!["test", "test test test", "test test"], 3);

    assert_eq!(result, expected_row_ingredients)
}

#[test]
fn building_rows_with_one_word() {
    let expected_row = vec![String::from("| test | test |")];

    let result = build_rows(
        vec![
            RowIngredient {
                words: vec![String::from("test")],
                padding: vec![false],
            },
            RowIngredient {
                words: vec![String::from("test")],
                padding: vec![false],
            },
        ],
        1,
        6,
    );

    assert_eq!(result, expected_row);
}

#[test]
fn building_rows_with_multiple_words() {
    let expected_row = vec![
        String::from("|      | test |      |"),
        String::from("| test | test | test |"),
        String::from("|      | test | test |"),
    ];

    let result = build_rows(
        vec![
            RowIngredient {
                words: vec![String::from(""), String::from("test"), String::from("")],
                padding: vec![true, false, true],
            },
            RowIngredient {
                words: vec![
                    String::from("test"),
                    String::from("test"),
                    String::from("test"),
                ],
                padding: vec![false, false, false],
            },
            RowIngredient {
                words: vec![String::from(""), String::from("test"), String::from("test")],
                padding: vec![true, false, false],
            },
        ],
        3,
        6,
    );

    assert_eq!(result, expected_row);
}

#[test]
fn test_build_rows() {
    let expected = vec![
        "|    |    |    |".to_string(),
        "|    |test|test|".to_string(),
        "|test|test|test|".to_string(),
        "|    |test|    |".to_string(),
        "|    |    |    |".to_string(),
    ];

    let row_ingredients = vec![
        RowIngredient {
            words: vec![
                "".to_string(),
                "".to_string(),
                "test".to_string(),
                "".to_string(),
                "".to_string(),
            ],
            padding: vec![true, true, false, true, true],
        },
        RowIngredient {
            words: vec![
                "".to_string(),
                "test".to_string(),
                "test".to_string(),
                "test".to_string(),
                "".to_string(),
            ],
            padding: vec![true, false, false, false, true],
        },
        RowIngredient {
            words: vec![
                "".to_string(),
                "test".to_string(),
                "test".to_string(),
                "".to_string(),
                "".to_string(),
            ],
            padding: vec![true, false, false, true, true],
        },
    ];

    let result = build_rows(row_ingredients, 5, 4);

    assert_eq!(result, expected);
}

#[test]
fn create_ingredient_row_empty() {
    let ingredients: Vec<&str> = vec![];
    let result = create_ingredient_row(3, 4, ingredients);
    assert_eq!(result, "||\n||\n||\n||");
}

#[test]
fn create_ingredient_row_ingredients() {
    let expected = "|      |      |      |\n|      | test | test |\n| test | test | test |\n|      | test |      |\n|      |      |      |".to_string();
    let ingredients = vec!["test", "test test test", "test test"];

    let result = create_ingredient_row(6, 5, ingredients);
    assert_eq!(result, expected);
}

#[test]
fn test_create_table() {
    let ingredients = vec![
        "Ingredient1",
        "Ingredient2",
        "Ingredient3",
        "Ingredient4",
        "Ingredient5",
        "Ingredient6",
        "Ingredient7",
        "Ingredient8",
        "Ingredient9",
    ];
    let longest_word_length = 11;
    let longest_ingredient_height = 1;

    let expected_output: &str = "```\n\n+-------------+-------------+-------------+\n|             |             |             |\n| Ingredient1 | Ingredient2 | Ingredient3 |\n|             |             |             |\n+-------------+-------------+-------------+\n|             |             |             |\n| Ingredient4 | Ingredient5 | Ingredient6 |\n|             |             |             |\n+-------------+-------------+-------------+\n|             |             |             |\n| Ingredient7 | Ingredient8 | Ingredient9 |\n|             |             |             |\n```";

    let result = create_table(ingredients, longest_word_length, longest_ingredient_height);

    assert_eq!(result, expected_output);
}

#[test]
fn test_print_recipe_table() {
    let ingredients = vec![
        "Ingredient1",
        "Ingredient2",
        "Ingredient3",
        "Ingredient4",
        "Ingredient5",
        "Ingredient6",
        "Ingredient7",
        "Ingredient8",
        "Ingredient9",
    ];

    let expected_output: &str = "```\n\n+-------------+-------------+-------------+\n|             |             |             |\n| Ingredient1 | Ingredient2 | Ingredient3 |\n|             |             |             |\n+-------------+-------------+-------------+\n|             |             |             |\n| Ingredient4 | Ingredient5 | Ingredient6 |\n|             |             |             |\n+-------------+-------------+-------------+\n|             |             |             |\n| Ingredient7 | Ingredient8 | Ingredient9 |\n|             |             |             |\n```";

    let result = print_recipe_table(ingredients);

    assert_eq!(result, expected_output);
}
