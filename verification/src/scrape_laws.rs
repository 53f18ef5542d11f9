//! Laws of the scraper's decisions: under which name a recipe is stored,
//! which paths the item index yields and which ingredients a page gives.

use vstd::prelude::*;
use crate::text::{split_by, separator, lowercase, lemma_split_by_len};
use crate::scrape::{
    recipe_name, column_paths, index_paths, page_ingredients, grid_slots, slot_untitled, slot_value, slot_entry,
    ScrapeError,
};

verus! {

/// The last piece of a split is the text after the last separator.
proof fn lemma_split_by_last(s: Seq<char>, sep: spec_fn(char) -> bool, start: int)
    requires
        0 <= start <= s.len(),
        start == 0 || sep(s[start - 1]),
        forall|i: int| start <= i < s.len() ==> !sep(#[trigger] s[i]),
    ensures
        split_by(s, sep).last() == s.subrange(start, s.len() as int),
    decreases s.len(),
{
    if s.len() == start {
        assert(s.subrange(start, s.len() as int) =~= Seq::<char>::empty());
    } else {
        let prev = s.drop_last();
        assert(!sep(s[s.len() - 1]));
        if start > 0 {
            assert(prev[start - 1] == s[start - 1]);
        }
        assert forall|i: int| start <= i < prev.len() implies !sep(#[trigger] prev[i]) by {
            assert(prev[i] == s[i]);
        }
        lemma_split_by_last(prev, sep, start);
        lemma_split_by_len(prev, sep);
        assert(s.subrange(start, s.len() as int) =~= prev.subrange(start, prev.len() as int).push(s.last()));
    }
}

/// The name a recipe is stored under is the lowercase of the last
/// `/`-separated segment of its wiki path (the text after the last `/`, or
/// the whole path where it has none), with every `_` turned into a space
/// and every other character kept, in order.
pub proof fn lemma_recipe_name_segment(path: Seq<char>, start: int)
    requires
        0 <= start <= path.len(),
        start == 0 || path[start - 1] == '/',
        forall|i: int| start <= i < path.len() ==> #[trigger] path[i] != '/',
    ensures
        recipe_name(path) == lowercase(Seq::new(
            (path.len() - start) as nat,
            |i: int| if path[start + i] == '_' { ' ' } else { path[start + i] },
        )),
{
    let sep = separator(Some('/'));
    assert forall|i: int| start <= i < path.len() implies !sep(#[trigger] path[i]) by {}
    lemma_split_by_last(path, sep, start);
    let seg = path.subrange(start, path.len() as int);
    assert(crate::text::replace_char(seg, '_', ' ') =~= Seq::new(
        (path.len() - start) as nat,
        |i: int| if path[start + i] == '_' { ' ' } else { path[start + i] },
    ));
}

/// The targets of the links of two lists are those of each, in order.
proof fn lemma_column_paths_concat(a: Seq<Option<Seq<char>>>, b: Seq<Option<Seq<char>>>)
    ensures
        column_paths(a + b) == column_paths(a) + column_paths(b),
    decreases b.len(),
{
    if b.len() == 0 {
        assert(a + b =~= a);
        assert(column_paths(a) + column_paths(b) =~= column_paths(a));
    } else {
        assert((a + b).drop_last() =~= a + b.drop_last());
        lemma_column_paths_concat(a, b.drop_last());
        match b.last() {
            Some(h) => {
                assert(column_paths(a) + column_paths(b) =~= (column_paths(a) + column_paths(b.drop_last())).push(h));
            },
            None => {},
        }
    }
}

/// Where a column's list ends makes no difference to the paths: one list
/// `a + b` yields what a list `a` followed by a list `b` yields.
pub proof fn lemma_index_paths_list_split(
    columns: Seq<Option<Seq<Option<Seq<char>>>>>,
    a: Seq<Option<Seq<char>>>,
    b: Seq<Option<Seq<char>>>,
)
    ensures
        index_paths(columns.push(Some(a + b))) == index_paths(columns.push(Some(a)).push(Some(b))),
{
    assert(columns.push(Some(a + b)).drop_last() =~= columns);
    assert(columns.push(Some(a)).drop_last() =~= columns);
    assert(columns.push(Some(a)).push(Some(b)).drop_last() =~= columns.push(Some(a)));
    lemma_column_paths_concat(a, b);
    reveal_with_fuel(index_paths, 2);
    match index_paths(columns) {
        Some(prev) => {
            assert(prev + (column_paths(a) + column_paths(b)) =~= prev + column_paths(a) + column_paths(b));
        },
        None => {},
    }
}

/// A single link yields its target, where it has one, and nothing else; an
/// empty list yields nothing; a column without a list makes the index
/// unreadable.
pub proof fn lemma_index_paths_single(link: Option<Seq<char>>)
    ensures
        index_paths(seq![Some(seq![link])]) == Some(match link {
            Some(h) => seq![h],
            None => Seq::<Seq<char>>::empty(),
        }),
        index_paths(seq![Some(Seq::<Option<Seq<char>>>::empty())]) == Some(Seq::<Seq<char>>::empty()),
        index_paths(seq![None::<Seq<Option<Seq<char>>>>]) is None,
{
    let one = seq![link];
    reveal_with_fuel(index_paths, 2);
    reveal_with_fuel(column_paths, 2);
    assert(one.drop_last() =~= Seq::<Option<Seq<char>>>::empty());
    assert(seq![Some(one)].drop_last() =~= Seq::<Option<Seq<Option<Seq<char>>>>>::empty());
    assert(seq![Some(Seq::<Option<Seq<char>>>::empty())].drop_last() =~= Seq::<Option<Seq<Option<Seq<char>>>>>::empty());
    assert(seq![None::<Seq<Option<Seq<char>>>>].drop_last() =~= Seq::<Option<Seq<Option<Seq<char>>>>>::empty());
    match link {
        Some(h) => assert(Seq::<Seq<char>>::empty() + Seq::<Seq<char>>::empty().push(h) =~= seq![h]),
        None => assert(Seq::<Seq<char>>::empty() + Seq::<Seq<char>>::empty() =~= Seq::<Seq<char>>::empty()),
    }
    assert(Seq::<Seq<char>>::empty() + Seq::<Seq<char>>::empty() =~= Seq::<Seq<char>>::empty());
}

/// The paths of two runs of columns are those of each, in order; the index
/// is unreadable where either is.
pub proof fn lemma_index_paths_concat(
    a: Seq<Option<Seq<Option<Seq<char>>>>>,
    b: Seq<Option<Seq<Option<Seq<char>>>>>,
)
    ensures
        index_paths(a + b) == match (index_paths(a), index_paths(b)) {
            (Some(p), Some(q)) => Some(p + q),
            _ => None,
        },
    decreases b.len(),
{
    if b.len() == 0 {
        assert(a + b =~= a);
        match index_paths(a) {
            Some(p) => assert(p + Seq::<Seq<char>>::empty() =~= p),
            None => {},
        }
    } else {
        assert((a + b).drop_last() =~= a + b.drop_last());
        assert((a + b).last() == b.last());
        lemma_index_paths_concat(a, b.drop_last());
        match (index_paths(a), index_paths(b.drop_last()), b.last()) {
            (Some(p), Some(q), Some(links)) => {
                assert(p + q + column_paths(links) =~= p + (q + column_paths(links)));
            },
            _ => {},
        }
    }
}

/// A page shows no recipe where it has no grid.
pub proof fn lemma_page_without_grid(toc: Seq<Option<Seq<char>>>)
    ensures
        page_ingredients(toc, None) == Ok::<Option<Seq<Seq<char>>>, ScrapeError>(None),
{
}

/// An entry reading `Crafting` anywhere in the table of contents makes the
/// page a crafting page: the page gives what it would give with that entry
/// alone.
pub proof fn lemma_crafting_entry_anywhere(
    toc: Seq<Option<Seq<char>>>,
    grid: Seq<Seq<Option<Option<Option<Seq<char>>>>>>,
    i: int,
)
    requires
        0 <= i < toc.len(),
        toc[i] == Some("Crafting"@),
    ensures
        page_ingredients(toc, Some(grid)) == page_ingredients(seq![Some("Crafting"@)], Some(grid)),
{
    let single = seq![Some("Crafting"@)];
    assert(single[0] == Some("Crafting"@));
    assert(exists|k: int| 0 <= k < toc.len() && #[trigger] toc[k] == Some("Crafting"@));
    assert(exists|k: int| 0 <= k < single.len() && #[trigger] single[k] == Some("Crafting"@));
}

/// A page with a grid whose table of contents has no entry reading
/// `Crafting` gives nine empty slots, whatever its grid holds.
pub proof fn lemma_no_crafting_entry(
    toc: Seq<Option<Seq<char>>>,
    grid: Seq<Seq<Option<Option<Option<Seq<char>>>>>>,
)
    requires
        forall|i: int| 0 <= i < toc.len() ==> #[trigger] toc[i] != Some("Crafting"@),
    ensures
        page_ingredients(toc, Some(grid)) matches Ok(Some(w)) && w.len() == 9
            && forall|k: int| 0 <= k < 9 ==> #[trigger] w[k] == "#"@,
{
}

/// The slots of two runs of rows are those of each, in order.
proof fn lemma_grid_slots_concat(
    a: Seq<Seq<Option<Option<Option<Seq<char>>>>>>,
    b: Seq<Seq<Option<Option<Option<Seq<char>>>>>>,
)
    ensures
        grid_slots(a + b) == grid_slots(a) + grid_slots(b),
    decreases b.len(),
{
    if b.len() == 0 {
        assert(a + b =~= a);
        assert(grid_slots(a) + grid_slots(b) =~= grid_slots(a));
    } else {
        assert((a + b).drop_last() =~= a + b.drop_last());
        lemma_grid_slots_concat(a, b.drop_last());
        assert(grid_slots(a) + grid_slots(b) =~= grid_slots(a) + grid_slots(b.drop_last()) + b.last());
    }
}

/// On a crafting page, the ingredients of a grid made of two runs of rows
/// are those of each run, in order; a linked item without a title in
/// either makes the page unreadable.
pub proof fn lemma_crafting_grid_concat(
    toc: Seq<Option<Seq<char>>>,
    i: int,
    a: Seq<Seq<Option<Option<Option<Seq<char>>>>>>,
    b: Seq<Seq<Option<Option<Option<Seq<char>>>>>>,
)
    requires
        0 <= i < toc.len(),
        toc[i] == Some("Crafting"@),
    ensures
        page_ingredients(toc, Some(a + b)) == match (page_ingredients(toc, Some(a)), page_ingredients(toc, Some(b))) {
            (Ok(Some(v)), Ok(Some(w))) => Ok(Some(v + w)),
            _ => Err::<Option<Seq<Seq<char>>>, ScrapeError>(ScrapeError::MissingTitle),
        },
{
    assert(exists|k: int| 0 <= k < toc.len() && #[trigger] toc[k] == Some("Crafting"@));
    lemma_grid_slots_concat(a, b);
    let sa = grid_slots(a);
    let sb = grid_slots(b);
    let s = grid_slots(a + b);
    let ua = exists|k: int| 0 <= k < sa.len() && slot_untitled(#[trigger] sa[k]);
    let ub = exists|k: int| 0 <= k < sb.len() && slot_untitled(#[trigger] sb[k]);
    let u = exists|k: int| 0 <= k < s.len() && slot_untitled(#[trigger] s[k]);
    if ua {
        let k = choose|k: int| 0 <= k < sa.len() && slot_untitled(#[trigger] sa[k]);
        assert(s[k] == sa[k]);
    } else if ub {
        let k = choose|k: int| 0 <= k < sb.len() && slot_untitled(#[trigger] sb[k]);
        assert(s[sa.len() + k] == sb[k]);
    } else {
        assert(!u) by {
            if u {
                let k = choose|k: int| 0 <= k < s.len() && slot_untitled(#[trigger] s[k]);
                if k < sa.len() {
                    assert(s[k] == sa[k]);
                } else {
                    assert(s[k] == sb[k - sa.len()]);
                }
            }
        }
        assert(Seq::new(s.len(), |k: int| slot_entry(slot_value(s[k])))
            =~= Seq::new(sa.len(), |k: int| slot_entry(slot_value(sa[k])))
                + Seq::new(sb.len(), |k: int| slot_entry(slot_value(sb[k]))));
    }
}

/// On a crafting page, where a row of the grid ends makes no difference:
/// one row `a + b` gives what a row `a` followed by a row `b` gives.
pub proof fn lemma_crafting_row_split(
    toc: Seq<Option<Seq<char>>>,
    a: Seq<Option<Option<Option<Seq<char>>>>>,
    b: Seq<Option<Option<Option<Seq<char>>>>>,
)
    ensures
        page_ingredients(toc, Some(seq![a + b])) == page_ingredients(toc, Some(seq![a, b])),
{
    reveal_with_fuel(grid_slots, 3);
    assert(seq![a + b].drop_last() =~= Seq::<Seq<Option<Option<Option<Seq<char>>>>>>::empty());
    assert(seq![a, b].drop_last() =~= seq![a]);
    assert(seq![a].drop_last() =~= Seq::<Seq<Option<Option<Option<Seq<char>>>>>>::empty());
    assert(grid_slots(seq![a + b]) =~= grid_slots(seq![a, b]));
}

/// On a crafting page, a grid of one slot gives: the title of its linked
/// item; an error where the linked item has no title; an empty-slot mark
/// `#` for an empty slot or an item without a link.
pub proof fn lemma_crafting_single_slot(
    toc: Seq<Option<Seq<char>>>,
    i: int,
    slot: Option<Option<Option<Seq<char>>>>,
)
    requires
        0 <= i < toc.len(),
        toc[i] == Some("Crafting"@),
    ensures
        page_ingredients(toc, Some(seq![seq![slot]])) == match slot {
            Some(Some(Some(title))) => Ok(Some(seq![title])),
            Some(Some(None)) => Err(ScrapeError::MissingTitle),
            _ => Ok(Some(seq!["#"@])),
        },
{
    assert(exists|k: int| 0 <= k < toc.len() && #[trigger] toc[k] == Some("Crafting"@));
    let g = seq![seq![slot]];
    reveal_with_fuel(grid_slots, 2);
    assert(g.drop_last() =~= Seq::<Seq<Option<Option<Option<Seq<char>>>>>>::empty());
    let s = grid_slots(g);
    assert(s =~= seq![slot]);
    if slot_untitled(slot) {
        assert(slot_untitled(s[0]));
    } else {
        assert(Seq::new(s.len(), |k: int| slot_entry(slot_value(s[k]))) =~= seq![slot_entry(slot_value(slot))]);
    }
}

} // verus!
