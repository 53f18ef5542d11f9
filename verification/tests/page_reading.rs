use recipe_table::recipe::{recipe_reply_from_text, RecipeError};
use recipe_table::scrape::{item_paths_of_page, recipe_of_html, ScrapeError};
use recipe_table::table::print_recipe_table;

const RECIPES: &str = r##"{"oak planks": ["Oak Log", "#", "#", "#", "#", "#", "#", "#", "#"], "broken": 3, "short": ["a"]}"##;

#[test]
fn reply_from_file_text_draws_the_recipe() {
    let expected = print_recipe_table(vec!["Oak Log", "#", "#", "#", "#", "#", "#", "#", "#"]);
    assert_eq!(recipe_reply_from_text(RECIPES, "Oak Planks"), Some(Ok(expected)));
}

#[test]
fn reply_from_file_text_for_unknown_item() {
    assert_eq!(
        recipe_reply_from_text(RECIPES, "Stick"),
        Some(Ok(String::from("Item: Stick recept bestaat niet.")))
    );
}

#[test]
fn reply_from_file_text_reports_entries_that_are_no_list() {
    assert_eq!(recipe_reply_from_text(RECIPES, "broken"), Some(Err(RecipeError::MalformedEntry)));
    assert_eq!(recipe_reply_from_text(RECIPES, "short"), Some(Err(RecipeError::TableNotDrawable)));
}

#[test]
fn reply_from_text_that_is_no_json() {
    assert_eq!(recipe_reply_from_text("{not json", "oak planks"), None);
    assert_eq!(
        recipe_reply_from_text("[1, 2]", "x"),
        Some(Ok(String::from("Item: x recept bestaat niet.")))
    );
}

const INDEX: &str = r#"<html><body>
<div class="div-col columns column-width"><ul><li><a href="/wiki/Stick">Stick</a></li><li><a>none</a></li></ul><ul><li><a href="/wiki/Other">x</a></li></ul></div>
<div class="div-col columns column-width"><ul><li><a href="/wiki/Coal">Coal</a></li></ul></div>
</body></html>"#;

#[test]
fn item_paths_read_from_the_index_page() {
    assert_eq!(
        item_paths_of_page(INDEX),
        Some(Ok(vec![String::from("/wiki/Stick"), String::from("/wiki/Coal")]))
    );
}

#[test]
fn item_index_column_without_list() {
    let page = r#"<div class="div-col columns column-width"><p>nothing</p></div>"#;
    assert_eq!(item_paths_of_page(page), Some(Err(ScrapeError::MissingList)));
}

fn recipe_page(toc: &str) -> String {
    format!(
        r#"<html><body><span class="toctext">{}</span>
<span class="mcui-input">
<span class="mcui-row"><span class="invslot"><span class="invslot-item"><a title="Coal" href="/wiki/Coal">c</a></span></span><span class="invslot"></span></span>
<span class="mcui-row"><span class="invslot"><span class="invslot-item">plain</span></span><span class="invslot"><span class="invslot-item"><a title="Stick">s</a></span></span></span>
</span></body></html>"#,
        toc
    )
}

#[test]
fn crafting_page_read_from_html() {
    assert_eq!(
        recipe_of_html(&recipe_page("Crafting")),
        Some(Ok(Some(vec![
            String::from("Coal"),
            String::from("#"),
            String::from("#"),
            String::from("Stick"),
        ])))
    );
}

#[test]
fn page_about_something_else_read_from_html() {
    assert_eq!(recipe_of_html(&recipe_page("Smelting")), Some(Ok(Some(vec![String::from("#"); 9]))));
}

#[test]
fn toc_entry_holding_markup_is_no_crafting_entry() {
    let page = recipe_page(r##"<a href="#x" title="y">Crafting</a>"##);
    assert_eq!(recipe_of_html(&page), Some(Ok(Some(vec![String::from("#"); 9]))));
}

#[test]
fn toc_entry_holding_a_comment_is_no_crafting_entry() {
    let page = recipe_page("Craft<!---->ing");
    assert_eq!(recipe_of_html(&page), Some(Ok(Some(vec![String::from("#"); 9]))));
}

#[test]
fn page_without_recipe_read_from_html() {
    assert_eq!(recipe_of_html("<html><body><p>no recipe</p></body></html>"), Some(Ok(None)));
}
