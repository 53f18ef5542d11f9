//! The recipe scraper's reading of the wiki: which item pages to visit,
//! which name a recipe is stored under and which ingredients it lists.
//! The caller fetches the pages; this module reads them (with the
//! `scraper` HTML parser) and decides.

use vstd::prelude::*;
use scraper::{Html, Selector};
use crate::text::{
    split_by, separator, split_pieces, lowercase, to_lowercase, replace_char, replace_char_with,
    lemma_split_by_len, string_views,
};

verus! {

/// The name a recipe is stored under for the wiki page at `path`: the
/// last `/`-separated segment of the path, underscores turned into spaces,
/// in lowercase.
pub open spec fn recipe_name(path: Seq<char>) -> Seq<char> {
    lowercase(replace_char(split_by(path, separator(Some('/'))).last(), '_', ' '))
}

/// The name a recipe is stored under for the wiki page at `path`.
pub fn recipe_name_from_path(path: &str) -> (res: String)
    ensures
        res@ == recipe_name(path@),
{
    let segments = split_pieces(path, Some('/'));
    proof { lemma_split_by_len(path@, separator(Some('/'))); }
    let last = segments[segments.len() - 1];
    assert(last@ == split_by(path@, separator(Some('/'))).last());
    proof { reveal_strlit(" "); }
    let spaced = replace_char_with(last, '_', " ");
    to_lowercase(spaced.as_str())
}

/// Whether one of the table-of-contents entries of a page reads
/// `Crafting`, that is, whether the page describes a crafting recipe.  An
/// entry is `None` where it holds more than text.
pub fn is_craftable(toc_texts: &Vec<Option<String>>) -> (res: bool)
    ensures
        res == exists|i: int| 0 <= i < toc_texts.len() && #[trigger] opt_views(toc_texts@)[i] == Some("Crafting"@),
{
    let crafting = String::from_str("Crafting");
    let mut craftable = false;
    let mut i: usize = 0;
    while i < toc_texts.len()
        invariant
            i <= toc_texts.len(),
            crafting@ == "Crafting"@,
            craftable == exists|j: int| 0 <= j < i && #[trigger] opt_views(toc_texts@)[j] == Some("Crafting"@),
        decreases toc_texts.len() - i,
    {
        assert(opt_views(toc_texts@)[i as int] == opt_view(toc_texts@[i as int]));
        if let Some(text) = &toc_texts[i] {
            if *text == crafting {
                craftable = true;
            }
        }
        i = i + 1;
    }
    craftable
}

/// The mark of an empty slot of the crafting grid.
pub open spec fn empty_slot() -> Seq<char> {
    "#"@
}

/// The text of an optional string.
pub open spec fn opt_view(s: Option<String>) -> Option<Seq<char>> {
    match s {
        Some(t) => Some(t@),
        None => None,
    }
}

/// What a slot of the crafting grid holds: the name of its item, or the
/// empty-slot mark.
pub open spec fn slot_entry(slot: Option<Seq<char>>) -> Seq<char> {
    match slot {
        Some(name) => name,
        None => empty_slot(),
    }
}

/// The ingredients stored for a page: for a crafting recipe, its grid slot
/// by slot (in the order given); otherwise nine empty slots.
pub fn recipe_ingredients(craftable: bool, slots: &Vec<Option<String>>) -> (res: Vec<String>)
    ensures
        craftable ==> res.len() == slots.len(),
        craftable ==> forall|i: int| 0 <= i < slots.len() ==> #[trigger] res@[i]@ == slot_entry(opt_view(slots@[i])),
        !craftable ==> res.len() == 9,
        !craftable ==> forall|i: int| 0 <= i < 9 ==> #[trigger] res@[i]@ == empty_slot(),
{
    let mut ingredients: Vec<String> = Vec::new();
    if craftable {
        let mut i: usize = 0;
        while i < slots.len()
            invariant
                i <= slots.len(),
                ingredients.len() == i,
                forall|j: int| 0 <= j < i ==> #[trigger] ingredients@[j]@ == slot_entry(opt_view(slots@[j])),
            decreases slots.len() - i,
        {
            let entry = match &slots[i] {
                Some(name) => name.clone(),
                None => String::from_str("#"),
            };
            ingredients.push(entry);
            i = i + 1;
        }
    } else {
        let mut i: usize = 0;
        while i < 9
            invariant
                i <= 9,
                ingredients.len() == i,
                forall|j: int| 0 <= j < i ==> #[trigger] ingredients@[j]@ == empty_slot(),
            decreases 9 - i,
        {
            ingredients.push(String::from_str("#"));
            i = i + 1;
        }
    }
    ingredients
}

/// Why a page cannot be scraped.
#[derive(Debug, Clone, Copy, PartialEq, Eq, Structural)]
pub enum ScrapeError {
    /// A column of the item index holds no list.
    MissingList,
    /// A linked item of a crafting grid has no title.
    MissingTitle,
}

/// The item index page as the scraper reads it: for each column of the
/// index, the target of every link in its first list, or `None` where the
/// column holds no list.
#[derive(Debug)]
pub struct ItemIndex {
    pub columns: Vec<Option<Vec<Option<String>>>>,
}

/// The texts of a list of optional strings.
pub open spec fn opt_views(items: Seq<Option<String>>) -> Seq<Option<Seq<char>>> {
    items.map_values(|l: Option<String>| opt_view(l))
}

/// The text of the columns of an item index.
pub open spec fn columns_view(columns: Seq<Option<Vec<Option<String>>>>) -> Seq<Option<Seq<Option<Seq<char>>>>> {
    columns.map_values(|c: Option<Vec<Option<String>>>| match c {
        Some(links) => Some(opt_views(links@)),
        None => None,
    })
}

/// The links of a list that have a target, in order.
pub open spec fn column_paths(links: Seq<Option<Seq<char>>>) -> Seq<Seq<char>>
    decreases links.len(),
{
    if links.len() == 0 {
        Seq::empty()
    } else {
        let prev = column_paths(links.drop_last());
        match links.last() {
            Some(href) => prev.push(href),
            None => prev,
        }
    }
}

/// The paths of all item pages, column by column; `None` where a column
/// holds no list.
pub open spec fn index_paths(columns: Seq<Option<Seq<Option<Seq<char>>>>>) -> Option<Seq<Seq<char>>>
    decreases columns.len(),
{
    if columns.len() == 0 {
        Some(Seq::empty())
    } else {
        match (index_paths(columns.drop_last()), columns.last()) {
            (Some(prev), Some(links)) => Some(prev + column_paths(links)),
            _ => None,
        }
    }
}

/// The paths of the item pages listed on the index: the targets of the
/// links in the first list of each column; an error where a column holds
/// no list.
pub fn item_paths(index: &ItemIndex) -> (res: Result<Vec<String>, ScrapeError>)
    ensures
        match index_paths(columns_view(index.columns@)) {
            Some(paths) => res matches Ok(v) && string_views(v@) == paths,
            None => res == Err::<Vec<String>, ScrapeError>(ScrapeError::MissingList),
        },
{
    let ghost cols = columns_view(index.columns@);
    let mut paths: Vec<String> = Vec::new();
    let mut i: usize = 0;
    assert(cols.take(0) =~= Seq::<Option<Seq<Option<Seq<char>>>>>::empty());
    while i < index.columns.len()
        invariant
            i <= index.columns.len(),
            cols == columns_view(index.columns@),
            index_paths(cols.take(i as int)) == Some(string_views(paths@)),
        decreases index.columns.len() - i,
    {
        assert(cols.take(i + 1).drop_last() =~= cols.take(i as int));
        assert(cols.take(i + 1).last() == cols[i as int]);
        match &index.columns[i] {
            None => {
                proof { lemma_index_paths_missing(cols, i as int); }
                return Err(ScrapeError::MissingList);
            },
            Some(links) => {
                let ghost lv = opt_views(links@);
                assert(cols[i as int] == Some(lv));
                let ghost before = string_views(paths@);
                let mut k: usize = 0;
                assert(lv.take(0) =~= Seq::<Option<Seq<char>>>::empty());
                assert(before + column_paths(lv.take(0)) =~= before);
                while k < links.len()
                    invariant
                        k <= links.len(),
                        lv == opt_views(links@),
                        string_views(paths@) == before + column_paths(lv.take(k as int)),
                    decreases links.len() - k,
                {
                    assert(lv.take(k + 1).drop_last() =~= lv.take(k as int));
                    assert(lv.take(k + 1).last() == opt_view(links@[k as int]));
                    if let Some(href) = &links[k] {
                        let ghost old_paths = string_views(paths@);
                        paths.push(href.clone());
                        assert(string_views(paths@) =~= old_paths.push(href@));
                    }
                    k = k + 1;
                }
                assert(lv.take(links.len() as int) =~= lv);
            },
        }
        i = i + 1;
    }
    assert(cols.take(index.columns.len() as int) =~= cols);
    Ok(paths)
}

/// A column without a list makes the whole index unreadable.
proof fn lemma_index_paths_missing(columns: Seq<Option<Seq<Option<Seq<char>>>>>, i: int)
    requires
        0 <= i < columns.len(),
        columns[i] is None,
    ensures
        index_paths(columns) is None,
    decreases columns.len(),
{
    if i < columns.len() - 1 {
        assert(columns.drop_last()[i] == columns[i]);
        lemma_index_paths_missing(columns.drop_last(), i);
    }
}

/// Whether `Selector::parse` of `scraper` accepts the CSS selector
/// `selector`.
pub uninterp spec fn selector_parses(selector: Seq<char>) -> bool;

/// What the HTML parser reads from the page `html`: for each element
/// matching the selector `column`, the first element matching `list`
/// inside it (`None` where there is none), and in that one the value of
/// the attribute `attribute` of every element matching `link`.
pub uninterp spec fn index_columns(
    html: Seq<char>,
    column: Seq<char>,
    list: Seq<char>,
    link: Seq<char>,
    attribute: Seq<char>,
) -> Seq<Option<Seq<Option<Seq<char>>>>>;

/// Reads an item index with `scraper`: `Html::parse_document`, then
/// `select` with each selector (parsed by `Selector::parse`) and
/// `Element::attr`.  Trusted to return the named `index_columns` of its
/// arguments, and `None` exactly where one of the selectors does not parse.
#[verifier::external_body]
fn read_item_index(html: &str, column: &str, list: &str, link: &str, attribute: &str) -> (res: Option<ItemIndex>)
    ensures
        res is Some <==> (selector_parses(column@) && selector_parses(list@) && selector_parses(link@)),
        res matches Some(index) ==> columns_view(index.columns@) == index_columns(html@, column@, list@, link@, attribute@),
{
    let (column, list, link) = (Selector::parse(column).ok()?, Selector::parse(list).ok()?, Selector::parse(link).ok()?);
    let document = Html::parse_document(html);
    let columns = document.select(&column).map(|c| {
        c.select(&list).next().map(|l| l.select(&link).map(|a| a.value().attr(attribute).map(String::from)).collect())
    }).collect();
    Some(ItemIndex { columns })
}

/// The paths of the item pages listed on the wiki's item index page
/// `html`: the `href` of each link in the first list of each column
/// (`div.div-col.columns.column-width`); an error where a column holds no
/// list; `None` where one of the selectors does not parse.
pub fn item_paths_of_page(html: &str) -> (res: Option<Result<Vec<String>, ScrapeError>>)
    ensures
        res is Some <==> selector_parses("div.div-col.columns.column-width"@) && selector_parses("ul"@)
            && selector_parses("a"@),
        res matches Some(r) ==> match index_paths(index_columns(
            html@, "div.div-col.columns.column-width"@, "ul"@, "a"@, "href"@)) {
            Some(p) => r matches Ok(v) && string_views(v@) == p,
            None => r == Err::<Vec<String>, ScrapeError>(ScrapeError::MissingList),
        },
{
    match read_item_index(html, "div.div-col.columns.column-width", "ul", "a", "href") {
        Some(index) => Some(item_paths(&index)),
        None => None,
    }
}

/// A slot of a crafting grid as the scraper reads it.
#[derive(Debug)]
pub enum Slot {
    /// No item in the slot.
    Empty,
    /// An item without a link.
    Unlinked,
    /// A linked item, with the link's `title`, if it has one.
    Linked(Option<String>),
}

/// A slot as plain values: `None` for an empty slot, `Some(None)` for an
/// item without a link, `Some(Some(title))` for a linked item.
pub open spec fn slot_view(slot: Slot) -> Option<Option<Option<Seq<char>>>> {
    match slot {
        Slot::Empty => None,
        Slot::Unlinked => Some(None),
        Slot::Linked(title) => Some(Some(opt_view(title))),
    }
}

/// A grid as plain values.
pub open spec fn grid_view(grid: Seq<Vec<Slot>>) -> Seq<Seq<Option<Option<Option<Seq<char>>>>>> {
    grid.map_values(|row: Vec<Slot>| row@.map_values(|s: Slot| slot_view(s)))
}

/// A recipe page as the scraper reads it: the text of each entry of its
/// table of contents (`None` where an entry holds more than text), and the
/// crafting grid of its first recipe, row by row, or
/// `None` where the page shows no recipe.
#[derive(Debug)]
pub struct RecipePage {
    pub toc_texts: Vec<Option<String>>,
    pub grid: Option<Vec<Vec<Slot>>>,
}

/// The grid of a page as plain values.
pub open spec fn page_grid_view(page: RecipePage) -> Option<Seq<Seq<Option<Option<Option<Seq<char>>>>>>> {
    match page.grid {
        Some(grid) => Some(grid_view(grid@)),
        None => None,
    }
}

/// The slots of a grid, row by row.
pub open spec fn grid_slots(grid: Seq<Seq<Option<Option<Option<Seq<char>>>>>>) -> Seq<Option<Option<Option<Seq<char>>>>>
    decreases grid.len(),
{
    if grid.len() == 0 {
        Seq::empty()
    } else {
        grid_slots(grid.drop_last()) + grid.last()
    }
}

/// What a slot contributes to the ingredient list: the item's title, or
/// nothing (an empty-slot mark).
pub open spec fn slot_value(slot: Option<Option<Option<Seq<char>>>>) -> Option<Seq<char>> {
    match slot {
        Some(Some(Some(title))) => Some(title),
        _ => None,
    }
}

/// Whether a slot is a linked item without a title.
pub open spec fn slot_untitled(slot: Option<Option<Option<Seq<char>>>>) -> bool {
    slot == Some(Some(None::<Seq<char>>))
}

/// The ingredients stored for a recipe page with table of contents `toc`
/// and crafting grid `grid`: `None` where it shows no recipe; for a page
/// about crafting, the grid slot by slot (an error where a linked item has
/// no title); otherwise nine empty slots.
pub open spec fn page_ingredients(
    toc: Seq<Option<Seq<char>>>,
    grid: Option<Seq<Seq<Option<Option<Option<Seq<char>>>>>>>,
) -> Result<Option<Seq<Seq<char>>>, ScrapeError> {
    match grid {
        None => Ok(None),
        Some(grid) => {
            let craftable = exists|i: int| 0 <= i < toc.len() && #[trigger] toc[i] == Some("Crafting"@);
            if !craftable {
                Ok(Some(Seq::new(9, |_i: int| empty_slot())))
            } else {
                let slots = grid_slots(grid);
                if exists|i: int| 0 <= i < slots.len() && slot_untitled(#[trigger] slots[i]) {
                    Err(ScrapeError::MissingTitle)
                } else {
                    Ok(Some(Seq::new(slots.len(), |i: int| slot_entry(slot_value(slots[i])))))
                }
            }
        },
    }
}

/// Whether a result of reading a page is what `page_ingredients` says.
pub open spec fn matches_ingredients(
    res: Result<Option<Vec<String>>, ScrapeError>,
    expected: Result<Option<Seq<Seq<char>>>, ScrapeError>,
) -> bool {
    match (res, expected) {
        (Ok(None), Ok(None)) => true,
        (Ok(Some(v)), Ok(Some(w))) => string_views(v@) == w,
        (Err(e), Err(f)) => e == f,
        _ => false,
    }
}

/// The ingredients stored for a recipe page.
pub fn recipe_of_page(page: &RecipePage) -> (res: Result<Option<Vec<String>>, ScrapeError>)
    ensures
        matches_ingredients(res, page_ingredients(opt_views(page.toc_texts@), page_grid_view(*page))),
{
    match &page.grid {
        None => Ok(None),
        Some(grid) => {
            let craftable = is_craftable(&page.toc_texts);
            let ghost toc = opt_views(page.toc_texts@);
            let ghost gv = grid_view(grid@);
            let mut slots: Vec<Option<String>> = Vec::new();
            if craftable {
                let mut r: usize = 0;
                assert(gv.take(0) =~= Seq::<Seq<Option<Option<Option<Seq<char>>>>>>::empty());
                while r < grid.len()
                    invariant
                        r <= grid.len(),
                        craftable,
                        gv == grid_view(grid@),
                        page_grid_view(*page) == Some(gv),
                        toc == opt_views(page.toc_texts@),
                        craftable == exists|i: int| 0 <= i < toc.len() && #[trigger] toc[i] == Some("Crafting"@),
                        slots.len() == grid_slots(gv.take(r as int)).len(),
                        forall|j: int| 0 <= j < slots.len() ==>
                            opt_view(#[trigger] slots@[j]) == slot_value(grid_slots(gv.take(r as int))[j]),
                        forall|j: int| 0 <= j < slots.len() ==> !slot_untitled(#[trigger] grid_slots(gv.take(r as int))[j]),
                    decreases grid.len() - r,
                {
                    let row = &grid[r];
                    let ghost rv = row@.map_values(|s: Slot| slot_view(s));
                    let ghost before = grid_slots(gv.take(r as int));
                    assert(gv.take(r + 1).drop_last() =~= gv.take(r as int));
                    assert(gv.take(r + 1).last() == rv);
                    assert(grid_slots(gv.take(r + 1)) == before + rv);
                    let mut k: usize = 0;
                    while k < row.len()
                        invariant
                            k <= row.len(),
                            r < grid.len(),
                            craftable,
                            gv == grid_view(grid@),
                            page_grid_view(*page) == Some(gv),
                            toc == opt_views(page.toc_texts@),
                            craftable == exists|i: int| 0 <= i < toc.len() && #[trigger] toc[i] == Some("Crafting"@),
                            rv == row@.map_values(|s: Slot| slot_view(s)),
                            before == grid_slots(gv.take(r as int)),
                            grid_slots(gv.take(r + 1)) == before + rv,
                            slots.len() == before.len() + k,
                            forall|j: int| 0 <= j < slots.len() ==> opt_view(#[trigger] slots@[j]) == slot_value((before + rv)[j]),
                            forall|j: int| 0 <= j < slots.len() ==> !slot_untitled(#[trigger] (before + rv)[j]),
                        decreases row.len() - k,
                    {
                        assert((before + rv)[before.len() + k] == slot_view(row@[k as int]));
                        let value = match &row[k] {
                            Slot::Linked(None) => {
                                proof {
                                    lemma_grid_slots_prefix(gv, (r + 1) as int, before.len() + k);
                                }
                                return Err(ScrapeError::MissingTitle);
                            },
                            Slot::Linked(Some(title)) => Some(title.clone()),
                            _ => None,
                        };
                        slots.push(value);
                        k = k + 1;
                    }
                    r = r + 1;
                }
                assert(gv.take(grid.len() as int) =~= gv);
            }
            let ingredients = recipe_ingredients(craftable, &slots);
            proof {
                if craftable {
                    let all = grid_slots(gv);
                    assert(string_views(ingredients@) =~= Seq::new(all.len(), |i: int| slot_entry(slot_value(all[i]))));
                    assert(!(exists|i: int| 0 <= i < all.len() && slot_untitled(#[trigger] all[i])));
                } else {
                    assert(string_views(ingredients@) =~= Seq::new(9, |_i: int| empty_slot()));
                }
            }
            Ok(Some(ingredients))
        },
    }
}

/// An untitled link among the first rows is one of the whole grid.
proof fn lemma_grid_slots_prefix(grid: Seq<Seq<Option<Option<Option<Seq<char>>>>>>, n: int, j: int)
    requires
        0 <= n <= grid.len(),
        0 <= j < grid_slots(grid.take(n)).len(),
        slot_untitled(grid_slots(grid.take(n))[j]),
    ensures
        exists|i: int| 0 <= i < grid_slots(grid).len() && slot_untitled(#[trigger] grid_slots(grid)[i]),
    decreases grid.len() - n,
{
    if n < grid.len() {
        assert(grid.take(n + 1).drop_last() =~= grid.take(n));
        assert(grid_slots(grid.take(n + 1)) == grid_slots(grid.take(n)) + grid.take(n + 1).last());
        assert(grid_slots(grid.take(n + 1))[j] == grid_slots(grid.take(n))[j]);
        lemma_grid_slots_prefix(grid, n + 1, j);
    } else {
        assert(grid.take(n) =~= grid);
        assert(slot_untitled(grid_slots(grid)[j]));
    }
}

/// What the HTML parser reads from the page `html` as table-of-contents
/// entries: for every element matching the selector `entry`, each of its
/// child nodes, as its text where it is a text node and `None` otherwise.
pub uninterp spec fn toc_children(html: Seq<char>, entry: Seq<char>) -> Seq<Seq<Option<Seq<char>>>>;

/// The children read from a list of entries, as plain values.
pub open spec fn children_views(entries: Seq<Vec<Option<String>>>) -> Seq<Seq<Option<Seq<char>>>> {
    entries.map_values(|c: Vec<Option<String>>| opt_views(c@))
}

/// Reads the table of contents with `scraper`: `Html::parse_document`,
/// `select` with `entry` (parsed by `Selector::parse`), then the children
/// of each match and `Node::as_text`.  Trusted to return the named
/// `toc_children` of its arguments, and `None` exactly where the selector
/// does not parse.
#[verifier::external_body]
fn read_toc(html: &str, entry: &str) -> (res: Option<Vec<Vec<Option<String>>>>)
    ensures
        res is Some <==> selector_parses(entry@),
        res matches Some(entries) ==> children_views(entries@) == toc_children(html@, entry@),
{
    let entry = Selector::parse(entry).ok()?;
    Some(Html::parse_document(html).select(&entry).map(|e| {
        e.children().map(|c| c.value().as_text().map(|t| String::from(&**t))).collect()
    }).collect())
}

/// The text of all children of an entry, in order.
pub open spec fn joined_text(children: Seq<Option<Seq<char>>>) -> Seq<char>
    decreases children.len(),
{
    if children.len() == 0 {
        Seq::empty()
    } else {
        joined_text(children.drop_last()) + match children.last() {
            Some(text) => text,
            None => Seq::empty(),
        }
    }
}

/// The text of a table-of-contents entry with children `children`: their
/// text joined, where all of them are text; `None` where one is not.
pub open spec fn entry_text(children: Seq<Option<Seq<char>>>) -> Option<Seq<char>> {
    if forall|i: int| 0 <= i < children.len() ==> #[trigger] children[i] is Some {
        Some(joined_text(children))
    } else {
        None
    }
}

/// The text of the entries with children `entries`.
pub open spec fn entry_texts(entries: Seq<Seq<Option<Seq<char>>>>) -> Seq<Option<Seq<char>>> {
    entries.map_values(|c: Seq<Option<Seq<char>>>| entry_text(c))
}

/// The text of a table-of-contents entry with children `children`.
pub fn toc_text(children: &Vec<Option<String>>) -> (res: Option<String>)
    ensures
        opt_view(res) == entry_text(opt_views(children@)),
{
    let ghost cv = opt_views(children@);
    let mut text = String::new();
    let mut i: usize = 0;
    while i < children.len()
        invariant
            i <= children.len(),
            cv == opt_views(children@),
            text@ == joined_text(cv.take(i as int)),
            forall|j: int| 0 <= j < i ==> #[trigger] cv[j] is Some,
        decreases children.len() - i,
    {
        assert(cv.take(i + 1).drop_last() =~= cv.take(i as int));
        assert(cv[i as int] == opt_view(children@[i as int]));
        match &children[i] {
            Some(piece) => {
                text.append(piece.as_str());
                assert(cv.take(i + 1).last() == Some(piece@));
            },
            None => {
                assert(!(forall|j: int| 0 <= j < cv.len() ==> #[trigger] cv[j] is Some));
                return None;
            },
        }
        i = i + 1;
    }
    assert(cv.take(children.len() as int) =~= cv);
    Some(text)
}

/// The texts of table-of-contents entries with children `entries`.
fn toc_texts_of(entries: &Vec<Vec<Option<String>>>) -> (res: Vec<Option<String>>)
    ensures
        opt_views(res@) == entry_texts(children_views(entries@)),
{
    let mut texts: Vec<Option<String>> = Vec::new();
    let mut i: usize = 0;
    while i < entries.len()
        invariant
            i <= entries.len(),
            opt_views(texts@) == entry_texts(children_views(entries@)).take(i as int),
        decreases entries.len() - i,
    {
        let text = toc_text(&entries[i]);
        let ghost before = opt_views(texts@);
        texts.push(text);
        assert(opt_views(texts@) =~= before.push(opt_view(text)));
        assert(entry_texts(children_views(entries@)).take(i + 1) =~= entry_texts(children_views(entries@)).take(
            i as int,
        ).push(entry_text(opt_views(entries@[i as int]@))));
        i = i + 1;
    }
    assert(entry_texts(children_views(entries@)).take(entries.len() as int) =~= entry_texts(children_views(entries@)));
    texts
}

/// What the HTML parser reads from the page `html` as a crafting grid: in
/// the first element matching `recipe` (`None` where there is none), for
/// each element matching `row`, for each element in it matching `item`:
/// `None` where the item holds no element matching `filled`, else, in the
/// first such element, `None` where it holds no element matching `link`,
/// else the value of the attribute `attribute` of the first such link.
pub uninterp spec fn recipe_grid(
    html: Seq<char>,
    recipe: Seq<char>,
    row: Seq<char>,
    item: Seq<char>,
    filled: Seq<char>,
    link: Seq<char>,
    attribute: Seq<char>,
) -> Option<Seq<Seq<Option<Option<Option<Seq<char>>>>>>>;

/// The raw grid that `read_grid` returns, as plain values.
pub open spec fn raw_grid_view(grid: Seq<Vec<Option<Option<Option<String>>>>>) -> Seq<Seq<Option<Option<Option<Seq<char>>>>>> {
    grid.map_values(|row: Vec<Option<Option<Option<String>>>>| row@.map_values(
        |s: Option<Option<Option<String>>>| match s {
            None => None,
            Some(None) => Some(None),
            Some(Some(title)) => Some(Some(opt_view(title))),
        },
    ))
}

/// Reads the crafting grid with `scraper`: `Html::parse_document`, then
/// `select` with each selector (parsed by `Selector::parse`) and
/// `Element::attr`.  Trusted to return the named `recipe_grid` of its
/// arguments, and `None` exactly where one of the selectors does not parse.
#[verifier::external_body]
fn read_grid(
    html: &str, recipe: &str, row: &str, item: &str, filled: &str, link: &str, attribute: &str,
) -> (res: Option<Option<Vec<Vec<Option<Option<Option<String>>>>>>>)
    ensures
        res is Some <==> (selector_parses(recipe@) && selector_parses(row@) && selector_parses(item@)
            && selector_parses(filled@) && selector_parses(link@)),
        res matches Some(grid) ==> match grid {
            Some(g) => recipe_grid(html@, recipe@, row@, item@, filled@, link@, attribute@) == Some(raw_grid_view(g@)),
            None => recipe_grid(html@, recipe@, row@, item@, filled@, link@, attribute@) is None,
        },
{
    let sel = |s: &str| Selector::parse(s).ok();
    let (recipe, row, item, filled, link) = (sel(recipe)?, sel(row)?, sel(item)?, sel(filled)?, sel(link)?);
    let document = Html::parse_document(html);
    Some(document.select(&recipe).next().map(|r| r.select(&row).map(|w| w.select(&item).map(|i| {
        i.select(&filled).next().map(|f| f.select(&link).next().map(|a| a.value().attr(attribute).map(String::from)))
    }).collect()).collect()))
}

/// A slot read from the page.
fn slot_of(raw: &Option<Option<Option<String>>>) -> (res: Slot)
    ensures
        slot_view(res) == match *raw {
            None => None,
            Some(None) => Some(None),
            Some(Some(title)) => Some(Some(opt_view(title))),
        },
{
    match raw {
        None => Slot::Empty,
        Some(None) => Slot::Unlinked,
        Some(Some(title)) => Slot::Linked(match title {
            Some(t) => Some(t.clone()),
            None => None,
        }),
    }
}

/// The grid read from the page, as slots.
fn slots_of(raw: &Vec<Vec<Option<Option<Option<String>>>>>) -> (res: Vec<Vec<Slot>>)
    ensures
        grid_view(res@) == raw_grid_view(raw@),
{
    let mut grid: Vec<Vec<Slot>> = Vec::new();
    let mut r: usize = 0;
    while r < raw.len()
        invariant
            r <= raw.len(),
            grid_view(grid@) == raw_grid_view(raw@).take(r as int),
        decreases raw.len() - r,
    {
        let raw_row = &raw[r];
        let mut row: Vec<Slot> = Vec::new();
        let mut k: usize = 0;
        while k < raw_row.len()
            invariant
                r < raw.len(),
                raw_row == raw@[r as int],
                k <= raw_row.len(),
                row@.map_values(|s: Slot| slot_view(s)) == raw_grid_view(raw@)[r as int].take(k as int),
            decreases raw_row.len() - k,
        {
            let slot = slot_of(&raw_row[k]);
            let ghost before = row@.map_values(|s: Slot| slot_view(s));
            row.push(slot);
            assert(row@.map_values(|s: Slot| slot_view(s)) =~= before.push(slot_view(slot)));
            assert(raw_grid_view(raw@)[r as int].take(k + 1) =~= raw_grid_view(raw@)[r as int].take(k as int).push(
                raw_grid_view(raw@)[r as int][k as int],
            ));
            k = k + 1;
        }
        assert(raw_grid_view(raw@)[r as int].take(raw_row.len() as int) =~= raw_grid_view(raw@)[r as int]);
        let ghost before = grid_view(grid@);
        let ghost rv = row@.map_values(|s: Slot| slot_view(s));
        grid.push(row);
        assert(grid_view(grid@) =~= before.push(rv));
        assert(raw_grid_view(raw@).take(r + 1) =~= raw_grid_view(raw@).take(r as int).push(raw_grid_view(raw@)[r as int]));
        r = r + 1;
    }
    assert(raw_grid_view(raw@).take(raw.len() as int) =~= raw_grid_view(raw@));
    grid
}

/// The ingredients stored for the wiki page `html`: read its table of
/// contents (`.toctext`) and the grid of its first recipe (`.mcui-input`,
/// rows `.mcui-row`, slots `.invslot`, items `.invslot-item`, links `a`
/// with their `title`), then decide as `recipe_of_page`; `None` where one
/// of the selectors does not parse.
pub fn recipe_of_html(html: &str) -> (res: Option<Result<Option<Vec<String>>, ScrapeError>>)
    ensures
        res is Some <==> selector_parses(".toctext"@) && selector_parses(".mcui-input"@)
            && selector_parses(".mcui-row"@) && selector_parses(".invslot"@)
            && selector_parses(".invslot-item"@) && selector_parses("a"@),
        res matches Some(r) ==> matches_ingredients(r, page_ingredients(
            entry_texts(toc_children(html@, ".toctext"@)),
            recipe_grid(html@, ".mcui-input"@, ".mcui-row"@, ".invslot"@, ".invslot-item"@, "a"@, "title"@),
        )),
{
    let entries = match read_toc(html, ".toctext") {
        Some(t) => t,
        None => return None,
    };
    let raw = match read_grid(html, ".mcui-input", ".mcui-row", ".invslot", ".invslot-item", "a", "title") {
        Some(g) => g,
        None => return None,
    };
    let toc_texts = toc_texts_of(&entries);
    let grid = match &raw {
        Some(g) => Some(slots_of(g)),
        None => None,
    };
    let page = RecipePage { toc_texts, grid };
    Some(recipe_of_page(&page))
}

} // verus!
