use recipe_table::recipe::{find_recipe, recipe_reply, Recipe, RecipeError};
use recipe_table::scrape::{
    is_craftable, item_paths, recipe_ingredients, recipe_name_from_path, recipe_of_page, toc_text, ItemIndex,
    RecipePage, ScrapeError, Slot,
};
use recipe_table::table::print_recipe_table;

fn planks() -> Vec<String> {
    ["Oak Log", "#", "#", "#", "#", "#", "#", "#", "#"].iter().map(|s| s.to_string()).collect()
}

fn book() -> Vec<Recipe> {
    vec![
        Recipe { name: String::from("oak planks"), ingredients: Some(planks()) },
        Recipe { name: String::from("broken"), ingredients: None },
        Recipe { name: String::from("short"), ingredients: Some(vec![String::from("a")]) },
    ]
}

#[test]
fn reply_for_unknown_item_names_it() {
    assert_eq!(recipe_reply(&book(), "Diamond").unwrap(), "Item: Diamond recept bestaat niet.");
}

#[test]
fn reply_looks_items_up_in_lowercase() {
    let expected = print_recipe_table(planks().iter().map(|s| s.as_str()).collect());
    assert_eq!(recipe_reply(&book(), "Oak PLANKS").unwrap(), expected);
    assert_eq!(recipe_reply(&book(), "oak planks").unwrap(), expected);
}

#[test]
fn reply_reports_malformed_entries() {
    assert_eq!(recipe_reply(&book(), "Broken"), Err(RecipeError::MalformedEntry));
}

#[test]
fn reply_reports_tables_that_cannot_be_drawn() {
    assert_eq!(recipe_reply(&book(), "short"), Err(RecipeError::TableNotDrawable));
}

#[test]
fn find_takes_the_first_match() {
    let mut b = book();
    b.push(Recipe { name: String::from("oak planks"), ingredients: None });
    assert_eq!(find_recipe(&b, &String::from("oak planks")), Some(0));
    assert_eq!(find_recipe(&b, &String::from("nothing")), None);
}

#[test]
fn recipe_name_is_last_segment_spaced_and_lowercase() {
    assert_eq!(recipe_name_from_path("/wiki/Oak_Planks"), "oak planks");
    assert_eq!(recipe_name_from_path("Stick"), "stick");
    assert_eq!(recipe_name_from_path("/wiki/"), "");
}

#[test]
fn craftable_pages_list_crafting() {
    assert!(is_craftable(&toc(&["Obtaining", "Crafting"])));
    assert!(!is_craftable(&toc(&["crafting", "Usage"])));
    assert!(!is_craftable(&vec![None, Some(String::from("Crafting "))]));
    assert!(!is_craftable(&vec![]));
}

#[test]
fn toc_entry_text_joins_text_children() {
    assert_eq!(toc_text(&vec![Some(String::from("Craft")), Some(String::from("ing"))]), Some(String::from("Crafting")));
    assert_eq!(toc_text(&vec![]), Some(String::new()));
    assert_eq!(toc_text(&vec![Some(String::from("Crafting")), None]), None);
}

#[test]
fn ingredients_mark_empty_slots() {
    let slots = vec![Some(String::from("Stick")), None, Some(String::from("Coal"))];
    assert_eq!(recipe_ingredients(true, &slots), vec!["Stick", "#", "Coal"]);
    assert_eq!(recipe_ingredients(false, &slots), vec!["#"; 9]);
}

#[test]
fn item_paths_collect_link_targets_column_by_column() {
    let index = ItemIndex {
        columns: vec![
            Some(vec![Some(String::from("/wiki/Stick")), None, Some(String::from("/wiki/Coal"))]),
            Some(vec![]),
            Some(vec![Some(String::from("/wiki/Torch"))]),
        ],
    };
    assert_eq!(item_paths(&index).unwrap(), vec!["/wiki/Stick", "/wiki/Coal", "/wiki/Torch"]);
}

#[test]
fn item_paths_need_a_list_in_every_column() {
    let index = ItemIndex { columns: vec![Some(vec![]), None] };
    assert_eq!(item_paths(&index), Err(ScrapeError::MissingList));
}

fn toc(entries: &[&str]) -> Vec<Option<String>> {
    entries.iter().map(|s| Some(s.to_string())).collect()
}

#[test]
fn page_without_recipe_gives_nothing() {
    let page = RecipePage { toc_texts: toc(&["Crafting"]), grid: None };
    assert_eq!(recipe_of_page(&page), Ok(None));
}

#[test]
fn crafting_page_lists_its_grid() {
    let grid = vec![
        vec![Slot::Linked(Some(String::from("Coal"))), Slot::Empty],
        vec![Slot::Unlinked, Slot::Linked(Some(String::from("Stick")))],
    ];
    let page = RecipePage { toc_texts: toc(&["Obtaining", "Crafting"]), grid: Some(grid) };
    assert_eq!(recipe_of_page(&page), Ok(Some(vec![
        String::from("Coal"),
        String::from("#"),
        String::from("#"),
        String::from("Stick"),
    ])));
}

#[test]
fn other_pages_get_an_empty_grid() {
    let grid = vec![vec![Slot::Linked(None)]];
    let page = RecipePage { toc_texts: toc(&["Smelting"]), grid: Some(grid) };
    assert_eq!(recipe_of_page(&page), Ok(Some(vec![String::from("#"); 9])));
}

#[test]
fn crafting_page_needs_titled_links() {
    let grid = vec![vec![Slot::Empty], vec![Slot::Linked(None)]];
    let page = RecipePage { toc_texts: toc(&["Crafting"]), grid: Some(grid) };
    assert_eq!(recipe_of_page(&page), Err(ScrapeError::MissingTitle));
}
