//! Layout of the recipe table.

use vstd::prelude::*;
use crate::table_laws::{separator_chunk, row_chunk, lemma_table_layout};
use crate::text::{
    repeat_char, push_repeated, words, views, split_whitespace, split_spaces, space_pieces, byte_len,
    str_byte_len, string_views, join, join_strings,
};

verus! {

/// All words of all ingredients, ingredient by ingredient, in order.
pub open spec fn all_words(ingredients: Seq<Seq<char>>) -> Seq<Seq<char>>
    decreases ingredients.len(),
{
    if ingredients.len() == 0 {
        Seq::empty()
    } else {
        all_words(ingredients.drop_last()) + words(ingredients.last())
    }
}

/// The longest of `ws` by byte length, the later one among equally long
/// ones; empty when there is none.
pub open spec fn longest(ws: Seq<Seq<char>>) -> Seq<char>
    decreases ws.len(),
{
    if ws.len() == 0 {
        Seq::empty()
    } else {
        let best = longest(ws.drop_last());
        if byte_len(best) <= byte_len(ws.last()) {
            ws.last()
        } else {
            best
        }
    }
}

/// The largest number of words in one ingredient; 0 when there is none.
pub open spec fn max_word_count(ingredients: Seq<Seq<char>>) -> nat
    decreases ingredients.len(),
{
    if ingredients.len() == 0 {
        0
    } else {
        let prev = max_word_count(ingredients.drop_last());
        let n = words(ingredients.last()).len();
        if prev < n { n } else { prev }
    }
}

/// What `longest` picks: one of the words, none of which is longer, and
/// every later one shorter.
pub proof fn lemma_longest(ws: Seq<Seq<char>>)
    ensures
        ws.len() == 0 ==> longest(ws) == Seq::<char>::empty(),
        ws.len() > 0 ==> exists|k: int|
            0 <= k < ws.len() && longest(ws) == #[trigger] ws[k]
            && (forall|j: int| 0 <= j < ws.len() ==> byte_len(#[trigger] ws[j]) <= byte_len(ws[k]))
            && (forall|j: int| k < j < ws.len() ==> byte_len(#[trigger] ws[j]) < byte_len(ws[k])),
    decreases ws.len(),
{
    if ws.len() > 0 {
        let prev = ws.drop_last();
        lemma_longest(prev);
        let last = ws.len() - 1;
        if prev.len() == 0 {
            assert(longest(ws) == ws[last]);
        } else {
            let k0 = choose|k: int|
                0 <= k < prev.len() && longest(prev) == #[trigger] prev[k]
                && (forall|j: int| 0 <= j < prev.len() ==> byte_len(#[trigger] prev[j]) <= byte_len(prev[k]))
                && (forall|j: int| k < j < prev.len() ==> byte_len(#[trigger] prev[j]) < byte_len(prev[k]));
            if byte_len(longest(prev)) <= byte_len(ws.last()) {
                assert forall|j: int| 0 <= j < ws.len() implies byte_len(#[trigger] ws[j]) <= byte_len(ws[last]) by {
                    if j < last {
                        assert(ws[j] == prev[j]);
                    }
                }
                assert(longest(ws) == ws[last]);
            } else {
                assert forall|j: int| 0 <= j < ws.len() implies byte_len(#[trigger] ws[j]) <= byte_len(ws[k0]) by {
                    if j < last {
                        assert(ws[j] == prev[j]);
                    }
                }
                assert forall|j: int| k0 < j < ws.len() implies byte_len(#[trigger] ws[j]) < byte_len(ws[k0]) by {
                    if j < last {
                        assert(ws[j] == prev[j]);
                    }
                }
                assert(ws[k0] == prev[k0]);
                assert(longest(ws) == ws[k0]);
            }
        }
    }
}

/// `max_word_count` is the number of words of one of the ingredients, and
/// none has more.
pub proof fn lemma_max_word_count(ingredients: Seq<Seq<char>>)
    ensures
        forall|i: int| 0 <= i < ingredients.len() ==> words(#[trigger] ingredients[i]).len() <= max_word_count(ingredients),
        ingredients.len() == 0 ==> max_word_count(ingredients) == 0,
        ingredients.len() > 0 ==> exists|i: int|
            0 <= i < ingredients.len() && words(#[trigger] ingredients[i]).len() == max_word_count(ingredients),
    decreases ingredients.len(),
{
    if ingredients.len() > 0 {
        let prev = ingredients.drop_last();
        lemma_max_word_count(prev);
        let last = ingredients.len() - 1;
        assert forall|i: int| 0 <= i < ingredients.len() implies
            words(#[trigger] ingredients[i]).len() <= max_word_count(ingredients) by {
            if i < last {
                assert(ingredients[i] == prev[i]);
            }
        }
        if prev.len() > 0 && words(ingredients.last()).len() <= max_word_count(prev) {
            let i0 = choose|i: int| 0 <= i < prev.len() && words(#[trigger] prev[i]).len() == max_word_count(prev);
            assert(ingredients[i0] == prev[i0]);
        } else {
            assert(words(ingredients[last]).len() == max_word_count(ingredients));
        }
    }
}

/// The longest whitespace-separated word of all ingredients, by byte length;
/// of equally long ones the last; empty when there is no word.
pub fn get_longest_word<'a>(ingredients: Vec<&'a str>) -> (res: &'a str)
    ensures
        res@ == longest(all_words(views(ingredients@))),
        all_words(views(ingredients@)).len() == 0 ==> res@.len() == 0,
        all_words(views(ingredients@)).len() > 0 ==> exists|k: int|
            0 <= k < all_words(views(ingredients@)).len()
            && res@ == #[trigger] all_words(views(ingredients@))[k]
            && (forall|j: int| 0 <= j < all_words(views(ingredients@)).len()
                ==> byte_len(#[trigger] all_words(views(ingredients@))[j]) <= byte_len(res@))
            && (forall|j: int| k < j < all_words(views(ingredients@)).len()
                ==> byte_len(#[trigger] all_words(views(ingredients@))[j]) < byte_len(res@)),
{
    proof { lemma_longest(all_words(views(ingredients@))); }
    proof { reveal_strlit(""); }
    let mut best: &'a str = "";
    let ghost ings = views(ingredients@);
    let mut i: usize = 0;
    assert(ings.take(0) =~= Seq::<Seq<char>>::empty());
    while i < ingredients.len()
        invariant
            i <= ingredients.len(),
            ings == views(ingredients@),
            best@ == longest(all_words(ings.take(i as int))),
        decreases ingredients.len() - i,
    {
        let ws = split_whitespace(ingredients[i]);
        let ghost before = all_words(ings.take(i as int));
        let mut k: usize = 0;
        assert(views(ws@).take(0) =~= Seq::<Seq<char>>::empty());
        assert(before + views(ws@).take(0) =~= before);
        while k < ws.len()
            invariant
                k <= ws.len(),
                best@ == longest(before + views(ws@).take(k as int)),
            decreases ws.len() - k,
        {
            let w = ws[k];
            let ghost cur = before + views(ws@).take(k as int);
            assert((before + views(ws@).take(k + 1)).drop_last() =~= cur);
            assert((before + views(ws@).take(k + 1)).last() == w@);
            if str_byte_len(best) <= str_byte_len(w) {
                best = w;
            }
            k = k + 1;
        }
        assert(ings.take(i + 1).drop_last() =~= ings.take(i as int));
        assert(ings.take(i + 1).last() == ingredients@[i as int]@);
        assert(views(ws@).take(ws.len() as int) =~= views(ws@));
        i = i + 1;
    }
    assert(ings.take(ingredients.len() as int) =~= ings);
    best
}

/// The largest number of whitespace-separated words in one ingredient.
pub fn get_longest_ingredient_height(ingredients: Vec<&str>) -> (res: usize)
    ensures
        res == max_word_count(views(ingredients@)),
        forall|i: int| 0 <= i < ingredients.len() ==> words(#[trigger] views(ingredients@)[i]).len() <= res,
        ingredients.len() == 0 ==> res == 0,
        ingredients.len() > 0 ==> exists|i: int|
            0 <= i < ingredients.len() && words(#[trigger] views(ingredients@)[i]).len() == res,
{
    proof { lemma_max_word_count(views(ingredients@)); }
    let ghost ings = views(ingredients@);
    let mut most: usize = 0;
    let mut i: usize = 0;
    assert(ings.take(0) =~= Seq::<Seq<char>>::empty());
    while i < ingredients.len()
        invariant
            i <= ingredients.len(),
            ings == views(ingredients@),
            most == max_word_count(ings.take(i as int)),
        decreases ingredients.len() - i,
    {
        let n = split_whitespace(ingredients[i]).len();
        assert(ings.take(i + 1).drop_last() =~= ings.take(i as int));
        assert(ings.take(i + 1).last() == ingredients@[i as int]@);
        if most < n {
            most = n;
        }
        i = i + 1;
    }
    assert(ings.take(ingredients.len() as int) =~= ings);
    most
}

/// Appends `column_cell_size` spaces to `row_string`.
pub fn add_padding(row_string: String, column_cell_size: usize) -> (res: String)
    ensures
        res@ == row_string@ + repeat_char(' ', column_cell_size as nat),
{
    let mut res = row_string;
    proof { reveal_strlit(" "); }
    push_repeated(&mut res, " ", column_cell_size);
    res
}

/// The three-column separator line for cells of width `column_cell_size`.
pub open spec fn separator_line(column_cell_size: nat) -> Seq<char> {
    let dashes = repeat_char('-', column_cell_size);
    seq!['+'] + dashes + seq!['+'] + dashes + seq!['+'] + dashes + seq!['+']
}

/// `ingredient` centred in `column_cell_size` bytes: half of the spare
/// space before it (rounded down), the rest after it.
pub open spec fn centered(ingredient: Seq<char>, column_cell_size: nat) -> Seq<char> {
    let total = (column_cell_size - byte_len(ingredient)) as nat;
    let front = total / 2;
    let back = (total - front) as nat;
    repeat_char(' ', front) + ingredient + repeat_char(' ', back)
}

/// The line that separates the rows of the table: `+`, a run of
/// `column_cell_size` dashes, and so on for three columns.
pub fn get_seperator_string(column_cell_size: usize) -> (res: String)
    ensures
        res@ == separator_line(column_cell_size as nat),
{
    proof {
        reveal_strlit("+");
        reveal_strlit("-");
    }
    let mut res = String::new();
    res.append("+");
    push_repeated(&mut res, "-", column_cell_size);
    res.append("+");
    push_repeated(&mut res, "-", column_cell_size);
    res.append("+");
    push_repeated(&mut res, "-", column_cell_size);
    res.append("+");
    assert(res@ =~= separator_line(column_cell_size as nat));
    res
}

/// `table`, a line break, then `row`.
pub fn add_next_table_row(table: String, row: String) -> (res: String)
    ensures
        res@ == table@ + seq!['\n'] + row@,
{
    proof { reveal_strlit("\n"); }
    let mut res = table;
    res.append("\n");
    res.append(row.as_str());
    res
}

/// `row_string` followed by `ingredient` centred in a cell of
/// `column_cell_size` bytes.
pub fn add_centered_ingredient(row_string: String, ingredient: String, column_cell_size: usize) -> (res: String)
    requires
        byte_len(ingredient@) <= column_cell_size,
    ensures
        res@ == row_string@ + centered(ingredient@, column_cell_size as nat),
{
    let total_padding = column_cell_size - str_byte_len(ingredient.as_str());
    let padding_per_side = total_padding / 2;
    let front_padding = padding_per_side;
    let back_padding = total_padding - front_padding;
    proof { reveal_strlit(" "); }
    let mut res = row_string;
    push_repeated(&mut res, " ", front_padding);
    res.append(ingredient.as_str());
    push_repeated(&mut res, " ", back_padding);
    assert(res@ =~= row_string@ + centered(ingredient@, column_cell_size as nat));
    res
}

/// One ingredient laid out over the lines of a table row: for each line
/// either a word of the ingredient or padding.
#[derive(PartialEq, Eq, Debug)]
pub struct RowIngredient {
    pub words: Vec<String>,
    pub padding: Vec<bool>,
}

/// `x / 2` rounded towards zero, as Rust's integer division rounds.
pub open spec fn half_toward_zero(x: int) -> int {
    if x >= 0 { x / 2 } else { -((-x) / 2) }
}

/// Lines left blank above the words of an ingredient of `n` pieces in a row
/// of `row_cell_size` lines (not positive when the words do not fit).
pub open spec fn lines_above(row_cell_size: int, n: int) -> int {
    half_toward_zero(row_cell_size - n)
}

/// Lines left blank below the words.
pub open spec fn lines_below(row_cell_size: int, n: int) -> int {
    (row_cell_size - n) - lines_above(row_cell_size, n)
}

/// Whether line `row` of the row is padding.
pub open spec fn row_is_padded(row_cell_size: int, n: int, row: int) -> bool {
    lines_above(row_cell_size, n) - row > 0 || row_cell_size - lines_below(row_cell_size, n) <= row
}

/// The first line that holds a word.
pub open spec fn first_word_line(row_cell_size: int, n: int) -> int {
    let top = lines_above(row_cell_size, n);
    if top > 0 { top } else { 0 }
}

/// What line `row` shows of an ingredient split into `pieces`: nothing on
/// a padding line, else the next piece in order.
pub open spec fn line_word(pieces: Seq<Seq<char>>, row_cell_size: int, row: int) -> Seq<char> {
    if row_is_padded(row_cell_size, pieces.len() as int, row) {
        Seq::empty()
    } else {
        pieces[row - first_word_line(row_cell_size, pieces.len() as int)]
    }
}

/// A line that is not padding shows a piece that exists.
pub proof fn lemma_line_word_in_range(row_cell_size: int, n: int, row: int)
    requires
        0 <= n,
        0 <= row < row_cell_size,
        !row_is_padded(row_cell_size, n, row),
    ensures
        0 <= row - first_word_line(row_cell_size, n) < n,
{
}

/// How an ingredient of `n` pieces is laid out over `row_cell_size`
/// lines.  When the pieces fit, they fill `n` consecutive lines, with the
/// blank lines split evenly above and below (one more below when their
/// number is odd), piece `j` on line `lines_above + j`.  When they do not
/// fit, no line is blank and line `r` shows piece `r`, so that the pieces
/// after the last line are left out.
pub proof fn lemma_row_layout(row_cell_size: int, n: int)
    requires
        0 <= n,
        0 <= row_cell_size,
    ensures
        n <= row_cell_size ==> {
            let above = lines_above(row_cell_size, n);
            let below = lines_below(row_cell_size, n);
            &&& above == (row_cell_size - n) / 2
            &&& above + n + below == row_cell_size
            &&& above <= below <= above + 1
            &&& first_word_line(row_cell_size, n) == above
            &&& forall|r: int| 0 <= r < row_cell_size ==>
                (!#[trigger] row_is_padded(row_cell_size, n, r) <==> above <= r < above + n)
        },
        n > row_cell_size ==> {
            &&& first_word_line(row_cell_size, n) == 0
            &&& forall|r: int| 0 <= r < row_cell_size ==> !#[trigger] row_is_padded(row_cell_size, n, r)
        },
{
}

/// The layout of one ingredient over `row_cell_size` lines: its
/// space-separated pieces in order, centred vertically between padding
/// lines (the extra line, if any, below); when there are more pieces than
/// lines, no padding and only the first pieces.
pub open spec fn row_ingredient_fits(
    ingredient: Seq<char>,
    row_cell_size: int,
    words: Seq<Seq<char>>,
    padding: Seq<bool>,
) -> bool {
    let pieces = space_pieces(ingredient);
    let lines = if row_cell_size > 0 { row_cell_size } else { 0 };
    &&& words.len() == lines
    &&& padding.len() == lines
    &&& forall|r: int| 0 <= r < lines ==> #[trigger] padding[r] == row_is_padded(row_cell_size, pieces.len() as int, r)
    &&& forall|r: int| 0 <= r < lines ==> #[trigger] words[r] == line_word(pieces, row_cell_size, r)
}

/// The layout of `ingredient` over `row_cell_size` lines, as plain
/// values: the word of each line, and whether each line is padding.
pub open spec fn row_layout(ingredient: Seq<char>, row_cell_size: int) -> (Seq<Seq<char>>, Seq<bool>) {
    let pieces = space_pieces(ingredient);
    let lines = (if row_cell_size > 0 { row_cell_size } else { 0 }) as nat;
    (
        Seq::new(lines, |r: int| line_word(pieces, row_cell_size, r)),
        Seq::new(lines, |r: int| row_is_padded(row_cell_size, pieces.len() as int, r)),
    )
}

/// Laying out a list of ingredients lays out each on its own: the layouts
/// of two lists put together are the layouts of each, put together.
pub proof fn lemma_row_layouts_concat(a: Seq<Seq<char>>, b: Seq<Seq<char>>, row_cell_size: int)
    ensures
        (a + b).map_values(|s: Seq<char>| row_layout(s, row_cell_size))
            == a.map_values(|s: Seq<char>| row_layout(s, row_cell_size)) + b.map_values(|s: Seq<char>| row_layout(s, row_cell_size)),
{
    assert((a + b).map_values(|s: Seq<char>| row_layout(s, row_cell_size))
        =~= a.map_values(|s: Seq<char>| row_layout(s, row_cell_size)) + b.map_values(|s: Seq<char>| row_layout(s, row_cell_size)));
}

/// Lays `ingredient` out over `row_cell_size` lines.
#[verifier::spinoff_prover]
pub fn create_row_ingredient(ingredient: &str, row_cell_size: i32) -> (res: RowIngredient)
    requires
        space_pieces(ingredient@).len() <= i32::MAX,
        row_cell_size - space_pieces(ingredient@).len() >= i32::MIN,
    ensures
        row_ingredient_fits(ingredient@, row_cell_size as int, string_views(res.words@), res.padding@),
        res@ == row_layout(ingredient@, row_cell_size as int),
{
    let words = split_spaces(ingredient);
    let ghost pieces = space_pieces(ingredient@);
    let ghost n = pieces.len() as int;
    let mut padding: Vec<bool> = Vec::new();
    let mut padded_words: Vec<String> = Vec::new();

    let total_padding: i32 = row_cell_size - words.len() as i32;
    let top_padding: i32 = total_padding / 2;
    let bottom_padding: i32 = total_padding - top_padding;
    assert(top_padding == lines_above(row_cell_size as int, n));

    let ghost lo = first_word_line(row_cell_size as int, n);
    let mut next: usize = 0;
    let mut row_num: i32 = 0;
    while row_num < row_cell_size
        invariant
            0 <= row_num,
            row_cell_size > 0 ==> row_num <= row_cell_size,
            row_cell_size <= 0 ==> row_num == 0,
            views(words@) == pieces,
            n == pieces.len(),
            n <= i32::MAX,
            row_cell_size - n >= i32::MIN,
            total_padding == row_cell_size - n,
            top_padding == lines_above(row_cell_size as int, n),
            bottom_padding == lines_below(row_cell_size as int, n),
            lo == first_word_line(row_cell_size as int, n),
            row_num <= lo ==> next == 0,
            row_num >= lo ==> next == row_num - lo || row_is_padded(row_cell_size as int, n, row_num as int),
            padding@.len() == row_num,
            padded_words@.len() == row_num,
            forall|r: int| 0 <= r < row_num ==> #[trigger] padding@[r] == row_is_padded(row_cell_size as int, n, r),
            forall|r: int| 0 <= r < row_num ==> #[trigger] string_views(padded_words@)[r] == line_word(pieces, row_cell_size as int, r),
        decreases row_cell_size - row_num,
    {
        let ghost old_views = string_views(padded_words@);
        let row_is_padded = top_padding - row_num > 0 || row_cell_size - bottom_padding <= row_num;
        if row_is_padded {
            padded_words.push(String::new());
            padding.push(true);
        } else {
            proof { lemma_line_word_in_range(row_cell_size as int, n, row_num as int); }
            assert(next == row_num - lo);
            let w = words[next].to_owned();
            assert(w@ == pieces[next as int]);
            padded_words.push(w);
            padding.push(false);
            next = next + 1;
        }
        assert(string_views(padded_words@) =~= old_views.push(padded_words@.last()@));
        assert(string_views(padded_words@)[row_num as int] == line_word(pieces, row_cell_size as int, row_num as int));
        row_num = row_num + 1;
    }
    let res = RowIngredient { words: padded_words, padding };
    assert(res@.0 =~= row_layout(ingredient@, row_cell_size as int).0);
    assert(res@.1 =~= row_layout(ingredient@, row_cell_size as int).1);
    res
}

impl View for RowIngredient {
    type V = (Seq<Seq<char>>, Seq<bool>);

    open spec fn view(&self) -> (Seq<Seq<char>>, Seq<bool>) {
        (string_views(self.words@), self.padding@)
    }
}

/// Whether every line of an ingredient's layout over `row_cell_size` lines
/// that shows a piece has room for it in `column_cell_size` bytes.
pub open spec fn ingredient_fits(ingredient: Seq<char>, row_cell_size: int, column_cell_size: nat) -> bool {
    let pieces = space_pieces(ingredient);
    forall|r: int| 0 <= r < row_cell_size && !row_is_padded(row_cell_size, pieces.len() as int, r)
        ==> byte_len(#[trigger] line_word(pieces, row_cell_size, r)) <= column_cell_size
}

/// Lays every ingredient out over `row_cell_size` lines.
pub fn create_row_ingredients(ingredients: &Vec<&str>, row_cell_size: i32) -> (res: Vec<RowIngredient>)
    requires
        forall|i: int| 0 <= i < ingredients.len() ==> space_pieces(#[trigger] ingredients@[i]@).len() <= i32::MAX,
        forall|i: int| 0 <= i < ingredients.len() ==>
            row_cell_size - space_pieces(#[trigger] ingredients@[i]@).len() >= i32::MIN,
    ensures
        res.len() == ingredients.len(),
        forall|i: int| 0 <= i < ingredients.len() ==>
            row_ingredient_fits(ingredients@[i]@, row_cell_size as int, (#[trigger] res@[i])@.0, res@[i]@.1),
        layouts(res@) == views(ingredients@).map_values(|s: Seq<char>| row_layout(s, row_cell_size as int)),
{
    let mut res: Vec<RowIngredient> = Vec::new();
    let mut i: usize = 0;
    while i < ingredients.len()
        invariant
            i <= ingredients.len(),
            res.len() == i,
            forall|i: int| 0 <= i < ingredients.len() ==> space_pieces(#[trigger] ingredients@[i]@).len() <= i32::MAX,
            forall|i: int| 0 <= i < ingredients.len() ==>
                row_cell_size - space_pieces(#[trigger] ingredients@[i]@).len() >= i32::MIN,
            forall|j: int| 0 <= j < i ==>
                row_ingredient_fits(ingredients@[j]@, row_cell_size as int, (#[trigger] res@[j])@.0, res@[j]@.1),
            forall|j: int| 0 <= j < i ==> (#[trigger] res@[j])@ == row_layout(ingredients@[j]@, row_cell_size as int),
        decreases ingredients.len() - i,
    {
        let r = create_row_ingredient(ingredients[i], row_cell_size);
        res.push(r);
        i = i + 1;
    }
    assert(layouts(res@) =~= views(ingredients@).map_values(|s: Seq<char>| row_layout(s, row_cell_size as int)));
    res
}

/// The cell of one ingredient on line `row`: blank when the line is
/// padding, else its word centred.
pub open spec fn cell(ingredient: (Seq<Seq<char>>, Seq<bool>), row: int, column_cell_size: nat) -> Seq<char> {
    if ingredient.1[row] {
        repeat_char(' ', column_cell_size)
    } else {
        centered(ingredient.0[row], column_cell_size)
    }
}

/// Line `row` of a table row: the cells of all ingredients between bars.
pub open spec fn table_line(ingredients: Seq<(Seq<Seq<char>>, Seq<bool>)>, row: int, column_cell_size: nat) -> Seq<char> {
    let cells = Seq::new(ingredients.len(), |i: int| cell(ingredients[i], row, column_cell_size));
    seq!['|'] + join(cells, seq!['|']) + seq!['|']
}

/// Whether line `row` can be drawn: each ingredient says whether the line
/// is padding, and where it is not, has a word there that fits the cell.
pub open spec fn line_drawable(ingredient: (Seq<Seq<char>>, Seq<bool>), row: int, column_cell_size: nat) -> bool {
    &&& row < ingredient.1.len()
    &&& !ingredient.1[row] ==> row < ingredient.0.len() && byte_len(ingredient.0[row]) <= column_cell_size
}

/// The views of a sequence of row ingredients.
pub open spec fn layouts(v: Seq<RowIngredient>) -> Seq<(Seq<Seq<char>>, Seq<bool>)> {
    v.map_values(|r: RowIngredient| r@)
}

/// The `row_cell_size` lines of a table row.
#[verifier::spinoff_prover]
pub fn build_rows(row_ingredients: Vec<RowIngredient>, row_cell_size: usize, column_cell_size: usize) -> (res: Vec<String>)
    requires
        forall|i: int, r: int| 0 <= i < row_ingredients.len() && 0 <= r < row_cell_size ==>
            #[trigger] line_drawable(row_ingredients@[i]@, r, column_cell_size as nat),
    ensures
        res.len() == row_cell_size,
        forall|r: int| 0 <= r < row_cell_size ==>
            #[trigger] res@[r]@ == table_line(layouts(row_ingredients@), r, column_cell_size as nat),
{
    let ghost lay = layouts(row_ingredients@);
    let mut rows: Vec<String> = Vec::new();
    let mut row_number: usize = 0;
    while row_number < row_cell_size
        invariant
            row_number <= row_cell_size,
            lay == layouts(row_ingredients@),
            rows.len() == row_number,
            forall|i: int, r: int| 0 <= i < row_ingredients.len() && 0 <= r < row_cell_size ==>
                #[trigger] line_drawable(row_ingredients@[i]@, r, column_cell_size as nat),
            forall|r: int| 0 <= r < row_number ==>
                #[trigger] rows@[r]@ == table_line(lay, r, column_cell_size as nat),
        decreases row_cell_size - row_number,
    {
        let mut cells: Vec<String> = Vec::new();
        let mut i: usize = 0;
        while i < row_ingredients.len()
            invariant
                i <= row_ingredients.len(),
                row_number < row_cell_size,
                lay == layouts(row_ingredients@),
                cells.len() == i,
                forall|i: int, r: int| 0 <= i < row_ingredients.len() && 0 <= r < row_cell_size ==>
                    #[trigger] line_drawable(row_ingredients@[i]@, r, column_cell_size as nat),
                forall|j: int| 0 <= j < i ==>
                    #[trigger] cells@[j]@ == cell(lay[j], row_number as int, column_cell_size as nat),
            decreases row_ingredients.len() - i,
        {
            let ingredient = &row_ingredients[i];
            assert(line_drawable(row_ingredients@[i as int]@, row_number as int, column_cell_size as nat));
            assert(lay[i as int] == ingredient@);
            let c = if ingredient.padding[row_number] {
                add_padding(String::new(), column_cell_size)
            } else {
                assert(ingredient@.0[row_number as int] == ingredient.words@[row_number as int]@);
                add_centered_ingredient(String::new(), ingredient.words[row_number].clone(), column_cell_size)
            };
            cells.push(c);
            i = i + 1;
        }
        let joined = join_strings(&cells, "|");
        proof {
            reveal_strlit("|");
            let want = Seq::new(lay.len(), |i: int| cell(lay[i], row_number as int, column_cell_size as nat));
            assert(string_views(cells@) =~= want);
            assert("|"@ =~= seq!['|']);
            assert(joined@ == join(want, seq!['|']));
        }
        let mut line = String::new();
        line.append("|");
        line.append(joined.as_str());
        line.append("|");
        assert(line@ =~= table_line(lay, row_number as int, column_cell_size as nat));
        rows.push(line);
        row_number = row_number + 1;
    }
    rows
}

/// The cell of `ingredient` on line `row` of a table row of
/// `row_cell_size` lines.
pub open spec fn ingredient_cell(ingredient: Seq<char>, row_cell_size: int, row: int, column_cell_size: nat) -> Seq<char> {
    let pieces = space_pieces(ingredient);
    if row_is_padded(row_cell_size, pieces.len() as int, row) {
        repeat_char(' ', column_cell_size)
    } else {
        centered(line_word(pieces, row_cell_size, row), column_cell_size)
    }
}

/// Line `row` of the table row of `ingredients`.
pub open spec fn ingredient_line(ingredients: Seq<Seq<char>>, row_cell_size: int, row: int, column_cell_size: nat) -> Seq<char> {
    let cells = Seq::new(ingredients.len(), |i: int| ingredient_cell(ingredients[i], row_cell_size, row, column_cell_size));
    seq!['|'] + join(cells, seq!['|']) + seq!['|']
}

/// The lines of the table row of `ingredients`, in order.
pub open spec fn ingredient_lines(ingredients: Seq<Seq<char>>, row_cell_size: nat, column_cell_size: nat) -> Seq<Seq<char>> {
    Seq::new(row_cell_size, |r: int| ingredient_line(ingredients, row_cell_size as int, r, column_cell_size))
}

/// The table row of `ingredients`: its lines joined by line breaks.
pub open spec fn ingredient_row_text(ingredients: Seq<Seq<char>>, row_cell_size: nat, column_cell_size: nat) -> Seq<char> {
    join(ingredient_lines(ingredients, row_cell_size, column_cell_size), seq!['\n'])
}

/// Whether a table row of `ingredients` can be drawn with cells of
/// `column_cell_size` bytes over `row_cell_size` lines.
pub open spec fn row_drawable(ingredients: Seq<Seq<char>>, row_cell_size: nat, column_cell_size: nat) -> bool {
    &&& row_cell_size <= i32::MAX
    &&& forall|i: int| 0 <= i < ingredients.len() ==> space_pieces(#[trigger] ingredients[i]).len() <= i32::MAX
    &&& forall|i: int| 0 <= i < ingredients.len() ==>
            ingredient_fits(#[trigger] ingredients[i], row_cell_size as int, column_cell_size)
}

/// One table row: each ingredient in a column of `column_cell_size` bytes,
/// its words on separate lines, over `row_cell_size` lines.
pub fn create_ingredient_row(column_cell_size: usize, row_cell_size: usize, ingredients: Vec<&str>) -> (res: String)
    requires
        row_drawable(views(ingredients@), row_cell_size as nat, column_cell_size as nat),
    ensures
        res@ == ingredient_row_text(views(ingredients@), row_cell_size as nat, column_cell_size as nat),
{
    let ghost ings = views(ingredients@);
    let ghost rcs = row_cell_size as int;
    let ghost ccs = column_cell_size as nat;
    assert forall|i: int| 0 <= i < ingredients.len() implies
        space_pieces(#[trigger] ingredients@[i]@).len() <= i32::MAX by {
        assert(ings[i] == ingredients@[i]@);
    }
    let row_ingredients = create_row_ingredients(&ingredients, row_cell_size as i32);
    assert forall|i: int, r: int| 0 <= i < row_ingredients.len() && 0 <= r < row_cell_size implies
        #[trigger] line_drawable(row_ingredients@[i]@, r, ccs) by {
        assert(ings[i] == ingredients@[i]@);
        assert(ingredient_fits(ings[i], rcs, ccs));
        let pieces = space_pieces(ings[i]);
        if !row_ingredients@[i]@.1[r] {
            assert(!row_is_padded(rcs, pieces.len() as int, r));
            assert(byte_len(line_word(pieces, rcs, r)) <= ccs);
        }
    }
    let ghost lay = layouts(row_ingredients@);
    let rows = build_rows(row_ingredients, row_cell_size, column_cell_size);
    proof {
        assert forall|r: int| 0 <= r < row_cell_size implies
            #[trigger] string_views(rows@)[r] == ingredient_lines(ings, row_cell_size as nat, ccs)[r] by {
            let cells1 = Seq::new(lay.len(), |i: int| cell(lay[i], r, ccs));
            let cells2 = Seq::new(ings.len(), |i: int| ingredient_cell(ings[i], rcs, r, ccs));
            assert forall|i: int| 0 <= i < ings.len() implies cells1[i] == cells2[i] by {
                assert(ings[i] == ingredients@[i]@);
                assert(lay[i] == row_ingredients@[i]@);
            }
            assert(cells1 =~= cells2);
            assert(rows@[r]@ == table_line(lay, r, ccs));
        }
        assert(string_views(rows@) =~= ingredient_lines(ings, row_cell_size as nat, ccs));
        reveal_strlit("\n");
        assert("\n"@ =~= seq!['\n']);
    }
    join_strings(&rows, "\n")
}

/// Spaces added to the longest word to get the width of a column (one
/// on each side).
pub const PADDING: usize = 2;

/// Table rows: one per three ingredients.
pub const NUM_INGREDIENT_ROWS: usize = 3;

/// Separator lines drawn at most: above the first row, between rows and
/// below the last.
pub const ROW_SEPERATORS: usize = 4;

/// Whether line `row` of the table gets a separator that counts, when `k`
/// counted separators came before it: when
/// `row == row_cell_size * k + row / row_cell_size`, which puts these
/// separators `row_cell_size + 1` lines apart.
pub open spec fn separator_at(row_cell_size: nat, k: nat, row: nat) -> bool {
    row_cell_size * k + row / row_cell_size == row
}

/// How many counted separators the lines before `row` got.
pub open spec fn separators_before(row_cell_size: nat, row: nat) -> nat
    decreases row,
{
    if row == 0 {
        0
    } else {
        let k = separators_before(row_cell_size, (row - 1) as nat);
        if separator_at(row_cell_size, k, (row - 1) as nat) { k + 1 } else { k }
    }
}

/// Whether line `row` of the table gets a separator: a counted one, or,
/// where table row `j` starts at `row` and fewer than `j` counted
/// separators came before, one more (not counted) so that a separator
/// stands above every table row.
pub open spec fn has_separator(row_cell_size: nat, row: nat) -> bool {
    let k = separators_before(row_cell_size, row);
    ||| separator_at(row_cell_size, k, row)
    ||| has_ingredient_row(row_cell_size, row) && k < row / row_cell_size
}

/// Whether a table row (of the ingredients `3 * (row / row_cell_size - 1)`
/// and the two after it) starts at line `row`.
pub open spec fn has_ingredient_row(row_cell_size: nat, row: nat) -> bool {
    row % row_cell_size == 0 && row != 0 && row / row_cell_size <= 3
}

/// The ingredients of table row `k` (counting from 1).
pub open spec fn row_ingredients_of(ingredients: Seq<Seq<char>>, k: int) -> Seq<Seq<char>> {
    ingredients.subrange((k - 1) * 3, (k - 1) * 3 + 3)
}

/// What line `row` adds to the table: a separator, a table row, both or
/// nothing, each after a line break.
pub open spec fn table_chunk(ingredients: Seq<Seq<char>>, row_cell_size: nat, column_cell_size: nat, row: nat) -> Seq<char> {
    let sep = if has_separator(row_cell_size, row) {
        seq!['\n'] + separator_line(column_cell_size)
    } else {
        Seq::empty()
    };
    let ing = if has_ingredient_row(row_cell_size, row) {
        let k = (row / row_cell_size) as int;
        seq!['\n'] + ingredient_row_text(row_ingredients_of(ingredients, k), row_cell_size, column_cell_size)
    } else {
        Seq::empty()
    };
    sep + ing
}

/// What the first `rows` lines add to the table.
pub open spec fn table_body(ingredients: Seq<Seq<char>>, row_cell_size: nat, column_cell_size: nat, rows: nat) -> Seq<char>
    decreases rows,
{
    if rows == 0 {
        Seq::empty()
    } else {
        table_body(ingredients, row_cell_size, column_cell_size, (rows - 1) as nat)
            + table_chunk(ingredients, row_cell_size, column_cell_size, (rows - 1) as nat)
    }
}

/// The opening code fence.
pub open spec fn fence_open() -> Seq<char> {
    seq!['`', '`', '`', '\n']
}

/// The closing code fence.
pub open spec fn fence_close() -> Seq<char> {
    seq!['\n', '`', '`', '`']
}

/// The whole table for words of at most `longest_word_length` bytes and
/// ingredients of at most `longest_ingredient_height` words.
pub open spec fn table_text(ingredients: Seq<Seq<char>>, longest_word_length: nat, longest_ingredient_height: nat) -> Seq<char> {
    let row_cell_size = longest_ingredient_height + 2;
    let column_cell_size = longest_word_length + 2;
    let num_rows = row_cell_size * 3 + 4;
    fence_open() + table_body(ingredients, row_cell_size, column_cell_size, num_rows) + fence_close()
}

/// Whether the three table rows of the first nine ingredients can be drawn.
pub open spec fn table_drawable(ingredients: Seq<Seq<char>>, row_cell_size: nat, column_cell_size: nat) -> bool {
    &&& ingredients.len() >= 9
    &&& row_cell_size <= i32::MAX
    &&& forall|i: int| 0 <= i < 9 ==> space_pieces(#[trigger] ingredients[i]).len() <= i32::MAX
    &&& forall|i: int| 0 <= i < 9 ==> ingredient_fits(#[trigger] ingredients[i], row_cell_size as int, column_cell_size)
}

/// `a == row_cell_size * k` exactly when `a` is a multiple of
/// `row_cell_size` with quotient `k`.
proof fn lemma_multiple(a: int, row_cell_size: int, k: int)
    requires
        row_cell_size > 0,
        a >= 0,
        k >= 0,
    ensures
        (row_cell_size * k == a) <==> (a % row_cell_size == 0 && a / row_cell_size == k),
{
    assert(a == row_cell_size * (a / row_cell_size) + a % row_cell_size) by (nonlinear_arith)
        requires row_cell_size > 0;
    assert(0 <= a % row_cell_size < row_cell_size) by (nonlinear_arith)
        requires row_cell_size > 0;
    assert((row_cell_size * k) / row_cell_size == k && (row_cell_size * k) % row_cell_size == 0) by (nonlinear_arith)
        requires row_cell_size > 0, k >= 0;
}

/// The rendered table: a code fence, then line by line the separators and
/// the three table rows of three ingredients each, then a closing fence.
#[verifier::spinoff_prover]
pub fn create_table(ingredients: Vec<&str>, longest_word_length: usize, longest_ingredient_height: usize) -> (res: String)
    requires
        longest_word_length + PADDING <= usize::MAX,
        (longest_ingredient_height + PADDING) * NUM_INGREDIENT_ROWS + ROW_SEPERATORS <= usize::MAX,
        table_drawable(views(ingredients@), (longest_ingredient_height + 2) as nat, (longest_word_length + 2) as nat),
    ensures
        res@ == table_text(views(ingredients@), longest_word_length as nat, longest_ingredient_height as nat),
        ({
            let ings = views(ingredients@);
            let rcs = (longest_ingredient_height + 2) as nat;
            let ccs = (longest_word_length + 2) as nat;
            let sep = separator_chunk(ccs);
            let shape = sep + row_chunk(ings, rcs, ccs, 1) + sep + row_chunk(ings, rcs, ccs, 2) + sep
                + row_chunk(ings, rcs, ccs, 3);
            &&& longest_ingredient_height != 1 ==> res@ == fence_open() + shape + sep + fence_close()
            &&& longest_ingredient_height == 1 ==> res@ == fence_open() + shape + fence_close()
        }),
{
    let ghost ings = views(ingredients@);
    let column_cell_size = longest_word_length + PADDING;
    let row_cell_size = longest_ingredient_height + PADDING;
    let num_rows = row_cell_size * NUM_INGREDIENT_ROWS + ROW_SEPERATORS;
    let seperator = get_seperator_string(column_cell_size);

    proof {
        reveal_strlit("```\n");
        reveal_strlit("\n");
        reveal_strlit("\n```");
    }
    let mut table = String::new();
    table.append("```\n");
    assert(table@ =~= fence_open() + table_body(ings, row_cell_size as nat, column_cell_size as nat, 0));

    let mut num_padding: usize = 0;
    let mut row_number: usize = 0;
    while row_number < num_rows
        invariant
            row_number <= num_rows,
            ings == views(ingredients@),
            column_cell_size == longest_word_length + 2,
            row_cell_size == longest_ingredient_height + 2,
            num_rows == row_cell_size * 3 + 4,
            seperator@ == separator_line(column_cell_size as nat),
            table_drawable(ings, row_cell_size as nat, column_cell_size as nat),
            num_padding == separators_before(row_cell_size as nat, row_number as nat),
            table@ == fence_open() + table_body(ings, row_cell_size as nat, column_cell_size as nat, row_number as nat),
        decreases num_rows - row_number,
    {
        proof { reveal_strlit("\n"); }
        let ghost before = table@;
        let ingredient_row = row_number / row_cell_size;
        // `row_cell_size * num_padding + ingredient_row == row_number`, without
        // the product, which could overflow.
        let rest = row_number - ingredient_row;
        proof { lemma_multiple(rest as int, row_cell_size as int, num_padding as int); }
        let starts_row = row_number % row_cell_size == 0 && row_number != 0 && ingredient_row <= 3;
        let counted = rest % row_cell_size == 0 && rest / row_cell_size == num_padding;
        let is_separator = counted || (starts_row && num_padding < ingredient_row);
        assert(is_separator == has_separator(row_cell_size as nat, row_number as nat));
        if is_separator {
            table.append("\n");
            table.append(seperator.as_str());
        }
        if counted {
            num_padding = num_padding + 1;
        }
        let ghost after_sep = table@;
        assert(after_sep =~= before + (if has_separator(row_cell_size as nat, row_number as nat) {
            seq!['\n'] + separator_line(column_cell_size as nat)
        } else {
            Seq::empty()
        }));

        if starts_row {
            assert(ingredient_row >= 1) by (nonlinear_arith)
                requires
                    row_number % row_cell_size == 0,
                    row_number > 0,
                    row_cell_size > 0,
                    ingredient_row == row_number / row_cell_size;
            let start = (ingredient_row - 1) * 3;
            let mut row_ingredients: Vec<&str> = Vec::new();
            row_ingredients.push(ingredients[start]);
            row_ingredients.push(ingredients[start + 1]);
            row_ingredients.push(ingredients[start + 2]);
            let ghost part = row_ingredients_of(ings, ingredient_row as int);
            assert(views(row_ingredients@) =~= part);
            assert forall|i: int| 0 <= i < 3 implies space_pieces(#[trigger] part[i]).len() <= i32::MAX
                && ingredient_fits(part[i], row_cell_size as int, column_cell_size as nat) by {
                assert(part[i] == ings[start + i]);
            }
            let row = create_ingredient_row(column_cell_size, row_cell_size, row_ingredients);
            table.append("\n");
            table.append(row.as_str());
            assert(table@ =~= after_sep + seq!['\n'] + ingredient_row_text(part, row_cell_size as nat, column_cell_size as nat));
        }
        assert(table@ =~= before + table_chunk(ings, row_cell_size as nat, column_cell_size as nat, row_number as nat));
        row_number = row_number + 1;
    }
    table.append("\n```");
    proof {
        let text = table_text(ings, longest_word_length as nat, longest_ingredient_height as nat);
        assert(table@ =~= text);
        lemma_table_layout(ings, longest_word_length as nat, longest_ingredient_height as nat);
    }
    table
}

/// The table of `ingredients`, sized to their longest word and to the
/// largest number of words in one of them.
pub open spec fn recipe_table_text(ingredients: Seq<Seq<char>>) -> Seq<char> {
    table_text(ingredients, byte_len(longest(all_words(ingredients))), max_word_count(ingredients))
}

/// Whether `print_recipe_table` can draw the table of `ingredients`: there
/// are at least nine, and the sizes of the table fit the machine.
pub open spec fn recipe_table_drawable(ingredients: Seq<Seq<char>>) -> bool {
    let width = byte_len(longest(all_words(ingredients)));
    let height = max_word_count(ingredients);
    &&& width + 2 <= usize::MAX
    &&& (height + 2) * 3 + 4 <= usize::MAX
    &&& table_drawable(ingredients, height + 2, width + 2)
}

/// A copy of the list of string slices.
fn copy_slices<'a>(v: &Vec<&'a str>) -> (res: Vec<&'a str>)
    ensures
        res@ == v@,
{
    let mut res: Vec<&'a str> = Vec::new();
    let mut i: usize = 0;
    while i < v.len()
        invariant
            i <= v.len(),
            res@ == v@.take(i as int),
        decreases v.len() - i,
    {
        res.push(v[i]);
        assert(res@ =~= v@.take(i + 1));
        i = i + 1;
    }
    assert(v@.take(v.len() as int) =~= v@);
    res
}

/// Renders the recipe of nine `ingredients` as a table in a code fence.
pub fn print_recipe_table(ingredients: Vec<&str>) -> (res: String)
    requires
        recipe_table_drawable(views(ingredients@)),
    ensures
        res@ == recipe_table_text(views(ingredients@)),
{
    let longest_word = get_longest_word(copy_slices(&ingredients));
    let longest_ingredient_height = get_longest_ingredient_height(copy_slices(&ingredients));
    let width = str_byte_len(longest_word);
    create_table(ingredients, width, longest_ingredient_height)
}

/// Whether every word that the layout of `ingredient` over
/// `row_cell_size` lines shows has room in `column_cell_size` bytes.
fn check_ingredient_fits(ingredient: &str, row_cell_size: usize, column_cell_size: usize) -> (res: bool)
    requires
        row_cell_size <= i32::MAX,
        space_pieces(ingredient@).len() <= i32::MAX,
    ensures
        res == ingredient_fits(ingredient@, row_cell_size as int, column_cell_size as nat),
{
    let layout = create_row_ingredient(ingredient, row_cell_size as i32);
    let ghost pieces = space_pieces(ingredient@);
    let ghost rcs = row_cell_size as int;
    let mut r: usize = 0;
    while r < row_cell_size
        invariant
            r <= row_cell_size,
            row_cell_size <= i32::MAX,
            rcs == row_cell_size,
            pieces == space_pieces(ingredient@),
            row_ingredient_fits(ingredient@, rcs, string_views(layout.words@), layout.padding@),
            forall|q: int| 0 <= q < r && !row_is_padded(rcs, pieces.len() as int, q)
                ==> byte_len(#[trigger] line_word(pieces, rcs, q)) <= column_cell_size,
        decreases row_cell_size - r,
    {
        assert(layout.padding@[r as int] == row_is_padded(rcs, pieces.len() as int, r as int));
        if !layout.padding[r] {
            assert(string_views(layout.words@)[r as int] == line_word(pieces, rcs, r as int));
            if str_byte_len(layout.words[r].as_str()) > column_cell_size {
                return false;
            }
        }
        r = r + 1;
    }
    true
}

/// The table of `ingredients` where `print_recipe_table` can draw it;
/// `None` where it cannot (fewer than nine ingredients, sizes beyond the
/// machine's integers, or a space-separated piece wider than the column).
#[verifier::spinoff_prover]
pub fn try_print_recipe_table(ingredients: Vec<&str>) -> (res: Option<String>)
    ensures
        res is Some <==> recipe_table_drawable(views(ingredients@)),
        res matches Some(t) ==> t@ == recipe_table_text(views(ingredients@)),
{
    let ghost ings = views(ingredients@);
    if ingredients.len() < 9 {
        return None;
    }
    let longest_word = get_longest_word(copy_slices(&ingredients));
    let height = get_longest_ingredient_height(copy_slices(&ingredients));
    let width = str_byte_len(longest_word);
    if width > usize::MAX - 2 {
        return None;
    }
    if height > (usize::MAX - 4) / 3 - 2 {
        proof {
            let m = usize::MAX as int;
            let q = (m - 4) / 3;
            assert(m - 4 < 3 * q + 3);
            assert((height + 2) * 3 + 4 > m);
        }
        return None;
    }
    let column_cell_size = width + 2;
    let row_cell_size = height + 2;
    if row_cell_size > 2147483647 {
        return None;
    }
    let mut i: usize = 0;
    while i < 9
        invariant
            i <= 9,
            ingredients.len() >= 9,
            ings == views(ingredients@),
            row_cell_size <= i32::MAX,
            column_cell_size == byte_len(longest(all_words(ings))) + 2,
            row_cell_size == max_word_count(ings) + 2,
            forall|j: int| 0 <= j < i ==> space_pieces(#[trigger] ings[j]).len() <= i32::MAX,
            forall|j: int| 0 <= j < i ==> ingredient_fits(#[trigger] ings[j], row_cell_size as int, column_cell_size as nat),
        decreases 9 - i,
    {
        assert(ings[i as int] == ingredients@[i as int]@);
        let n = split_spaces(ingredients[i]).len();
        if n > 2147483647 {
            return None;
        }
        if !check_ingredient_fits(ingredients[i], row_cell_size, column_cell_size) {
            return None;
        }
        i = i + 1;
    }
    assert((row_cell_size as nat) * 3 + 4 <= usize::MAX);
    Some(print_recipe_table(ingredients))
}

} // verus!
