//! The replies of the recipe bot: a user names an item, the bot answers
//! with the crafting table of its recipe.

use vstd::prelude::*;
use crate::text::{lowercase, to_lowercase, string_views, views};
use crate::table::{
    recipe_table_drawable, recipe_table_text, try_print_recipe_table, all_words, longest, max_word_count,
};
use crate::table_laws::lemma_plain_recipe_drawable;
use crate::text::{byte_len, is_white_space, space_pieces};

verus! {

/// One entry of the recipe book: the item's name and its ingredients, or
/// `None` where the entry does not hold a list of strings.
#[derive(Debug)]
pub struct Recipe {
    pub name: String,
    pub ingredients: Option<Vec<String>>,
}

/// Why no reply can be given.
#[derive(Debug, Clone, Copy, PartialEq, Eq, Structural)]
pub enum RecipeError {
    /// The entry of the item does not hold a list of ingredient names.
    MalformedEntry,
    /// The ingredients cannot be drawn as a table (fewer than nine, or a
    /// piece wider than its column).
    TableNotDrawable,
}

/// The names of the recipes, in order.
pub open spec fn recipe_names(book: Seq<Recipe>) -> Seq<Seq<char>> {
    book.map_values(|r: Recipe| r.name@)
}

/// A recipe as plain values: its name, and its ingredients where it has a
/// list of them.
pub open spec fn entry_view(r: Recipe) -> (Seq<char>, Option<Seq<Seq<char>>>) {
    (r.name@, match r.ingredients {
        Some(v) => Some(string_views(v@)),
        None => None,
    })
}

/// A recipe book as plain values.
pub open spec fn book_view(book: Seq<Recipe>) -> Seq<(Seq<char>, Option<Seq<Seq<char>>>)> {
    book.map_values(|r: Recipe| entry_view(r))
}

/// The names of the entries, in order.
pub open spec fn entry_names(entries: Seq<(Seq<char>, Option<Seq<Seq<char>>>)>) -> Seq<Seq<char>> {
    entries.map_values(|e: (Seq<char>, Option<Seq<Seq<char>>>)| e.0)
}

/// The index of the first recipe named `key`, if any.
pub open spec fn first_named(names: Seq<Seq<char>>, key: Seq<char>) -> Option<int>
    decreases names.len(),
{
    if names.len() == 0 {
        None
    } else {
        match first_named(names.drop_last(), key) {
            Some(i) => Some(i),
            None => if names.last() == key { Some(names.len() - 1) } else { None },
        }
    }
}

/// `first_named` finds the first name equal to `key`, and nothing where
/// no name is.
pub proof fn lemma_first_named(names: Seq<Seq<char>>, key: Seq<char>)
    ensures
        first_named(names, key) matches Some(i) ==> {
            &&& 0 <= i < names.len()
            &&& names[i] == key
            &&& forall|j: int| 0 <= j < i ==> #[trigger] names[j] != key
        },
        first_named(names, key) is None ==> forall|j: int| 0 <= j < names.len() ==> #[trigger] names[j] != key,
    decreases names.len(),
{
    if names.len() > 0 {
        let prev = names.drop_last();
        lemma_first_named(prev, key);
        let last = names.len() - 1;
        match first_named(prev, key) {
            Some(i) => {
                assert(names[i] == prev[i]);
                assert forall|j: int| 0 <= j < i implies #[trigger] names[j] != key by {
                    assert(names[j] == prev[j]);
                }
            },
            None => {
                assert forall|j: int| 0 <= j < last implies #[trigger] names[j] != key by {
                    assert(names[j] == prev[j]);
                }
            },
        }
    }
}

/// The index of the first recipe named `key`.
pub fn find_recipe(book: &Vec<Recipe>, key: &String) -> (res: Option<usize>)
    ensures
        res matches Some(i) ==> i < book.len() && first_named(recipe_names(book@), key@) == Some(i as int),
        res is None ==> first_named(recipe_names(book@), key@) is None,
        res matches Some(i) ==> book@[i as int].name@ == key@
            && forall|j: int| 0 <= j < i ==> #[trigger] book@[j].name@ != key@,
        res is None ==> forall|j: int| 0 <= j < book.len() ==> #[trigger] book@[j].name@ != key@,
{
    proof {
        let names = recipe_names(book@);
        lemma_first_named(names, key@);
        assert forall|j: int| 0 <= j < book.len() implies #[trigger] book@[j].name@ == names[j] by {}
        assert forall|j: int| 0 <= j < book.len() implies (#[trigger] book@[j].name@ != key@ <==> names[j] != key@) by {
            assert(book@[j].name@ == names[j]);
        }
    }
    let ghost names = recipe_names(book@);
    let mut i: usize = 0;
    assert(names.take(0) =~= Seq::<Seq<char>>::empty());
    while i < book.len()
        invariant
            i <= book.len(),
            names == recipe_names(book@),
            first_named(names.take(i as int), key@) is None,
        decreases book.len() - i,
    {
        assert(names.take(i + 1).drop_last() =~= names.take(i as int));
        assert(names.take(i + 1).last() == book@[i as int].name@);
        if book[i].name == *key {
            proof {
                lemma_first_named_prefix(names, key@, (i + 1) as int);
                lemma_first_named(names, key@);
                assert forall|j: int| 0 <= j < i implies #[trigger] book@[j].name@ != key@ by {
                    assert(book@[j].name@ == names[j]);
                }
            }
            return Some(i);
        }
        i = i + 1;
    }
    assert(names.take(book.len() as int) =~= names);
    None
}

/// A match in a prefix is the first match of the whole list.
proof fn lemma_first_named_prefix(names: Seq<Seq<char>>, key: Seq<char>, n: int)
    requires
        0 <= n <= names.len(),
        first_named(names.take(n), key) is Some,
    ensures
        first_named(names, key) == first_named(names.take(n), key),
    decreases names.len() - n,
{
    if n < names.len() {
        assert(names.take(n + 1).drop_last() =~= names.take(n));
        lemma_first_named_prefix(names, key, n + 1);
    } else {
        assert(names.take(n) =~= names);
    }
}

/// The reply to a request for an item that the book does not hold.
pub open spec fn unknown_item_reply(item: Seq<char>) -> Seq<char> {
    "Item: "@ + item + " recept bestaat niet."@
}

/// The reply to a request for `item`: the recipe is looked up by the
/// lowercase of `item`; the reply is its table, or a message that the
/// item has no recipe.
pub open spec fn recipe_reply_spec(
    entries: Seq<(Seq<char>, Option<Seq<Seq<char>>>)>,
    item: Seq<char>,
) -> Result<Seq<char>, RecipeError> {
    match first_named(entry_names(entries), lowercase(item)) {
        None => Ok(unknown_item_reply(item)),
        Some(i) => match entries[i].1 {
            None => Err(RecipeError::MalformedEntry),
            Some(ings) => {
                if recipe_table_drawable(ings) {
                    Ok(recipe_table_text(ings))
                } else {
                    Err(RecipeError::TableNotDrawable)
                }
            },
        },
    }
}

/// The string slices of a list of strings.
fn as_slices(v: &Vec<String>) -> (res: Vec<&str>)
    ensures
        views(res@) == string_views(v@),
{
    let mut res: Vec<&str> = Vec::new();
    let mut i: usize = 0;
    while i < v.len()
        invariant
            i <= v.len(),
            views(res@) == string_views(v@).take(i as int),
        decreases v.len() - i,
    {
        let ghost before = views(res@);
        let w = v[i].as_str();
        res.push(w);
        assert(views(res@) =~= before.push(w@));
        assert(string_views(v@).take(i + 1) =~= string_views(v@).take(i as int).push(v@[i as int]@));
        i = i + 1;
    }
    assert(string_views(v@).take(v.len() as int) =~= string_views(v@));
    res
}

/// Whether a reply is the one that `recipe_reply_spec` describes.
pub open spec fn matches_reply(res: Result<String, RecipeError>, expected: Result<Seq<char>, RecipeError>) -> bool {
    match (res, expected) {
        (Ok(s), Ok(t)) => s@ == t,
        (Err(e), Err(f)) => e == f,
        _ => false,
    }
}

/// The bot's reply to a request for `item`.
pub fn recipe_reply(book: &Vec<Recipe>, item: &str) -> (res: Result<String, RecipeError>)
    ensures
        matches_reply(res, recipe_reply_spec(book_view(book@), item@)),
{
    proof {
        assert(recipe_names(book@) =~= entry_names(book_view(book@)));
    }
    let key = to_lowercase(item);
    match find_recipe(book, &key) {
        None => {
            proof {
                reveal_strlit("Item: ");
                reveal_strlit(" recept bestaat niet.");
            }
            let mut reply = String::new();
            reply.append("Item: ");
            reply.append(item);
            reply.append(" recept bestaat niet.");
            Ok(reply)
        },
        Some(i) => match &book[i].ingredients {
            None => Err(RecipeError::MalformedEntry),
            Some(ingredients) => {
                assert(book_view(book@)[i as int].1 == Some(string_views(ingredients@)));
                let slices = as_slices(ingredients);
                match try_print_recipe_table(slices) {
                    Some(table) => Ok(table),
                    None => Err(RecipeError::TableNotDrawable),
                }
            },
        },
    }
}

/// Requests that differ only in case get the same reply where the book
/// holds the item: the recipe is looked up by the lowercase of the request.
pub proof fn lemma_reply_ignores_case(entries: Seq<(Seq<char>, Option<Seq<Seq<char>>>)>, a: Seq<char>, b: Seq<char>)
    requires
        lowercase(a) == lowercase(b),
        first_named(entry_names(entries), lowercase(a)) is Some,
    ensures
        recipe_reply_spec(entries, a) == recipe_reply_spec(entries, b),
{
}

/// What `serde_json` reads from the recipe file `text`: `None` where
/// `text` is not JSON; `Some(None)` where it is JSON but no object; else,
/// for each member of the object (in the order of its map), the name and,
/// where the member's value, written out as JSON, reads back as a list of
/// borrowed strings (an array of strings without escapes), those strings.
pub uninterp spec fn recipe_entries(text: Seq<char>) -> Option<Option<Seq<(Seq<char>, Option<Seq<Seq<char>>>)>>>;

/// A read recipe file as plain values.
pub open spec fn parsed_view(parsed: Option<Option<Vec<Recipe>>>) -> Option<Option<Seq<(Seq<char>, Option<Seq<Seq<char>>>)>>> {
    match parsed {
        None => None,
        Some(None) => Some(None),
        Some(Some(book)) => Some(Some(book_view(book@))),
    }
}

/// The entries of the recipe book in a file that is JSON: those of its
/// object, none where it holds no object.
pub open spec fn book_entries(
    object: Option<Seq<(Seq<char>, Option<Seq<Seq<char>>>)>>,
) -> Seq<(Seq<char>, Option<Seq<Seq<char>>>)> {
    match object {
        Some(entries) => entries,
        None => Seq::empty(),
    }
}

/// Reads the recipe file with `serde_json`: `from_str` into a `Value`,
/// `as_object`, then, for each member of the object, `to_string` of its
/// value and `from_str` of that into a list of `&str`.  Trusted to return
/// the named `recipe_entries` of `text`, which says when each of these
/// steps succeeds without spelling out JSON.
#[verifier::external_body]
fn parse_recipe_book(text: &str) -> (res: Option<Option<Vec<Recipe>>>)
    ensures
        parsed_view(res) == recipe_entries(text@),
{
    let value: serde_json::Value = serde_json::from_str(text).ok()?;
    Some(value.as_object().map(|members| members.iter().map(|(name, entry)| Recipe {
        name: name.clone(),
        ingredients: serde_json::from_str::<Vec<&str>>(&entry.to_string()).ok()
            .map(|items| items.iter().map(|s| s.to_string()).collect()),
    }).collect()))
}

/// The bot's reply to a request for `item`, with the recipe book read from
/// the text `text` of the recipe file; `None` where the file is not JSON.
/// A file that is JSON but holds no object holds no recipe.
pub fn recipe_reply_from_text(text: &str, item: &str) -> (res: Option<Result<String, RecipeError>>)
    ensures
        res is Some <==> recipe_entries(text@) is Some,
        res matches Some(r) ==> matches_reply(r, recipe_reply_spec(book_entries(recipe_entries(text@)->0), item@)),
{
    match parse_recipe_book(text) {
        None => None,
        Some(Some(book)) => Some(recipe_reply(&book, item)),
        Some(None) => {
            let book: Vec<Recipe> = Vec::new();
            assert(book_view(book@) =~= Seq::<(Seq<char>, Option<Seq<Seq<char>>>)>::empty());
            Some(recipe_reply(&book, item))
        },
    }
}

/// The reply to a request for an item whose entry lists at least nine
/// ingredients, the first nine holding no white space but spaces, is the
/// table of that recipe (where the sizes of the table fit the machine's
/// integers).
pub proof fn lemma_plain_recipe_reply(entries: Seq<(Seq<char>, Option<Seq<Seq<char>>>)>, item: Seq<char>, i: int)
    requires
        first_named(entry_names(entries), lowercase(item)) == Some(i),
        entries[i].1 is Some,
        ({
            let ings = entries[i].1->0;
            &&& ings.len() >= 9
            &&& forall|a: int, j: int| 0 <= a < 9 && 0 <= j < ings[a].len() && is_white_space(#[trigger] ings[a][j])
                    ==> ings[a][j] == ' '
            &&& byte_len(longest(all_words(ings))) + 2 <= usize::MAX
            &&& (max_word_count(ings) + 2) * 3 + 4 <= usize::MAX
            &&& max_word_count(ings) + 2 <= i32::MAX
            &&& forall|a: int| 0 <= a < 9 ==> space_pieces(#[trigger] ings[a]).len() <= i32::MAX
        }),
    ensures
        recipe_reply_spec(entries, item) == Ok::<Seq<char>, RecipeError>(recipe_table_text(entries[i].1->0)),
{
    lemma_plain_recipe_drawable(entries[i].1->0);
}

} // verus!
