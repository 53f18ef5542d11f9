//! Laws of the table: every line has the same width, and the lines come
//! in a fixed order, derived from the line-by-line rules of `create_table`.

use vstd::prelude::*;
use vstd::arithmetic::div_mod::lemma_fundamental_div_mod_converse;
use crate::text::{
    byte_len, repeat_char, space_pieces, join, lemma_byte_len_concat, lemma_byte_len_ascii_char,
    lemma_byte_len_repeat_ascii, lemma_byte_len_join, is_white_space, split_by, separator, non_empty,
    words,
};
use crate::table::{
    separator_at, separators_before, has_separator, has_ingredient_row, table_chunk, table_body,
    table_text, fence_open, fence_close, separator_line, ingredient_row_text, row_ingredients_of,
    centered, ingredient_lines, ingredient_cell, row_drawable, ingredient_fits, row_is_padded, line_word,
    recipe_table_drawable, all_words, longest, max_word_count, lemma_longest, lemma_line_word_in_range,
    row_ingredient_fits, lemma_row_layout,
};

verus! {

/// Quotient and remainder of a row number in a known block of lines.
proof fn lemma_div(r: int, d: int, q: int)
    requires
        d > 0,
        q * d <= r < q * d + d,
    ensures
        r / d == q,
        r % d == r - q * d,
{
    lemma_fundamental_div_mod_converse(r, d, q, r - q * d);
}

/// Lines `a..b` that get neither a separator nor a table row add nothing.
proof fn lemma_quiet(ingredients: Seq<Seq<char>>, row_cell_size: nat, column_cell_size: nat, a: nat, b: nat, c: nat)
    requires
        row_cell_size > 0,
        a <= b,
        separators_before(row_cell_size, a) == c,
        forall|r: nat| a <= r < b ==> !#[trigger] separator_at(row_cell_size, c, r) && !has_ingredient_row(row_cell_size, r),
    ensures
        separators_before(row_cell_size, b) == c,
        table_body(ingredients, row_cell_size, column_cell_size, b) == table_body(ingredients, row_cell_size, column_cell_size, a),
    decreases b - a,
{
    if a < b {
        let p = (b - 1) as nat;
        assert forall|r: nat| a <= r < p implies !#[trigger] separator_at(row_cell_size, c, r)
            && !has_ingredient_row(row_cell_size, r) by {}
        lemma_quiet(ingredients, row_cell_size, column_cell_size, a, p, c);
        assert(!separator_at(row_cell_size, c, p) && !has_ingredient_row(row_cell_size, p));
        assert(table_chunk(ingredients, row_cell_size, column_cell_size, p) =~= Seq::<char>::empty());
        assert(table_body(ingredients, row_cell_size, column_cell_size, b)
            == table_body(ingredients, row_cell_size, column_cell_size, p)
                + table_chunk(ingredients, row_cell_size, column_cell_size, p));
    }
}

/// The line break and separator line drawn at a separator.
pub open spec fn separator_chunk(column_cell_size: nat) -> Seq<char> {
    seq!['\n'] + separator_line(column_cell_size)
}

/// The line break and table row `k` (counting from 1).
pub open spec fn row_chunk(ingredients: Seq<Seq<char>>, row_cell_size: nat, column_cell_size: nat, k: int) -> Seq<char> {
    seq!['\n'] + ingredient_row_text(row_ingredients_of(ingredients, k), row_cell_size, column_cell_size)
}

/// What line `r` adds, after `c` separators.
proof fn lemma_row(ingredients: Seq<Seq<char>>, row_cell_size: nat, column_cell_size: nat, r: nat, c: nat)
    requires
        row_cell_size > 0,
        separators_before(row_cell_size, r) == c,
    ensures
        separators_before(row_cell_size, r + 1) == if separator_at(row_cell_size, c, r) { c + 1 } else { c },
        has_separator(row_cell_size, r) == (separator_at(row_cell_size, c, r)
            || (has_ingredient_row(row_cell_size, r) && c < r / row_cell_size)),
        table_body(ingredients, row_cell_size, column_cell_size, r + 1)
            == table_body(ingredients, row_cell_size, column_cell_size, r)
                + table_chunk(ingredients, row_cell_size, column_cell_size, r),
{
    assert((r + 1) as nat - 1 == r);
}

/// The table lines of a table row of three or more lines: a separator, the
/// three table rows each followed by a separator, except that the last
/// separator is missing when the rows have three lines.
#[verifier::spinoff_prover]
proof fn lemma_body_tall(ingredients: Seq<Seq<char>>, row_cell_size: nat, column_cell_size: nat)
    requires
        row_cell_size >= 3,
    ensures
        table_body(ingredients, row_cell_size, column_cell_size, row_cell_size * 3 + 4)
            == separator_chunk(column_cell_size)
                + row_chunk(ingredients, row_cell_size, column_cell_size, 1)
                + separator_chunk(column_cell_size)
                + row_chunk(ingredients, row_cell_size, column_cell_size, 2)
                + separator_chunk(column_cell_size)
                + row_chunk(ingredients, row_cell_size, column_cell_size, 3)
                + (if row_cell_size >= 4 { separator_chunk(column_cell_size) } else { Seq::empty() }),
{
    let ings = ingredients;
    let rcs = row_cell_size;
    let ccs = column_cell_size;
    let d = rcs as int;
    let sep = separator_chunk(ccs);
    let empty = Seq::<char>::empty();

    // Line 0: the top separator.
    lemma_div(0, d, 0);
    lemma_row(ings, rcs, ccs, 0, 0);
    assert(table_chunk(ings, rcs, ccs, 0) =~= sep);
    assert(table_body(ings, rcs, ccs, 0) =~= empty);
    let b1 = sep;
    assert(table_body(ings, rcs, ccs, 1) =~= b1);

    // Lines 1 .. rcs - 1: nothing.
    assert forall|r: nat| 1 <= r < rcs implies !#[trigger] separator_at(rcs, 1, r) && !has_ingredient_row(rcs, r) by {
        lemma_div(r as int, d, 0);
    }
    lemma_quiet(ings, rcs, ccs, 1, rcs, 1);

    // Line rcs: the first table row.
    lemma_div(d, d, 1);
    lemma_row(ings, rcs, ccs, rcs, 1);
    assert(table_chunk(ings, rcs, ccs, rcs) =~= row_chunk(ings, rcs, ccs, 1));
    let b2 = b1 + row_chunk(ings, rcs, ccs, 1);

    // Line rcs + 1: a separator.
    lemma_div(d + 1, d, 1);
    lemma_row(ings, rcs, ccs, (rcs + 1) as nat, 1);
    assert(table_chunk(ings, rcs, ccs, (rcs + 1) as nat) =~= sep);
    let b3 = b2 + sep;
    assert(table_body(ings, rcs, ccs, (rcs + 2) as nat) == b3);

    // Lines rcs + 2 .. 2 * rcs - 1: nothing.
    assert forall|r: nat| rcs + 2 <= r < 2 * rcs implies !#[trigger] separator_at(rcs, 2, r) && !has_ingredient_row(rcs, r) by {
        lemma_div(r as int, d, 1);
    }
    lemma_quiet(ings, rcs, ccs, (rcs + 2) as nat, (2 * rcs) as nat, 2);

    // Line 2 * rcs: the second table row.
    lemma_div(2 * d, d, 2);
    lemma_row(ings, rcs, ccs, (2 * rcs) as nat, 2);
    assert(table_chunk(ings, rcs, ccs, (2 * rcs) as nat) =~= row_chunk(ings, rcs, ccs, 2));
    let b4 = b3 + row_chunk(ings, rcs, ccs, 2);

    // Line 2 * rcs + 1: nothing.
    lemma_div(2 * d + 1, d, 2);
    lemma_row(ings, rcs, ccs, (2 * rcs + 1) as nat, 2);
    assert(table_chunk(ings, rcs, ccs, (2 * rcs + 1) as nat) =~= empty);
    assert(table_body(ings, rcs, ccs, (2 * rcs + 2) as nat) =~= b4);

    // Line 2 * rcs + 2: a separator.
    lemma_div(2 * d + 2, d, 2);
    lemma_row(ings, rcs, ccs, (2 * rcs + 2) as nat, 2);
    assert(table_chunk(ings, rcs, ccs, (2 * rcs + 2) as nat) =~= sep);
    let b5 = b4 + sep;
    assert(table_body(ings, rcs, ccs, (2 * rcs + 3) as nat) == b5);

    // Lines 2 * rcs + 3 .. 3 * rcs - 1: nothing.
    assert forall|r: nat| 2 * rcs + 3 <= r < 3 * rcs implies !#[trigger] separator_at(rcs, 3, r) && !has_ingredient_row(rcs, r) by {
        lemma_div(r as int, d, 2);
    }
    lemma_quiet(ings, rcs, ccs, (2 * rcs + 3) as nat, (3 * rcs) as nat, 3);

    // Line 3 * rcs: the third table row.
    lemma_div(3 * d, d, 3);
    lemma_row(ings, rcs, ccs, (3 * rcs) as nat, 3);
    assert(table_chunk(ings, rcs, ccs, (3 * rcs) as nat) =~= row_chunk(ings, rcs, ccs, 3));
    let b6 = b5 + row_chunk(ings, rcs, ccs, 3);
    assert(table_body(ings, rcs, ccs, (3 * rcs + 1) as nat) == b6);

    // Lines 3 * rcs + 1 and 3 * rcs + 2: nothing.
    assert forall|r: nat| 3 * rcs + 1 <= r < 3 * rcs + 3 implies !#[trigger] separator_at(rcs, 3, r) && !has_ingredient_row(rcs, r) by {
        lemma_div(r as int, d, 3);
    }
    lemma_quiet(ings, rcs, ccs, (3 * rcs + 1) as nat, (3 * rcs + 3) as nat, 3);

    // Line 3 * rcs + 3: a separator only when rows have four lines or more.
    if rcs >= 4 {
        lemma_div(3 * d + 3, d, 3);
        lemma_row(ings, rcs, ccs, (3 * rcs + 3) as nat, 3);
        assert(table_chunk(ings, rcs, ccs, (3 * rcs + 3) as nat) =~= sep);
    } else {
        lemma_div(3 * d + 3, d, 4);
        lemma_row(ings, rcs, ccs, (3 * rcs + 3) as nat, 3);
        assert(table_chunk(ings, rcs, ccs, (3 * rcs + 3) as nat) =~= empty);
        assert(b6 + empty =~= b6);
    }
    assert(rcs * 3 + 4 == (3 * rcs + 3) as nat + 1);
}

/// The table lines when table rows have two lines (every ingredient is
/// blank): a separator, then each table row followed by a separator.
#[verifier::spinoff_prover]
proof fn lemma_body_flat(ingredients: Seq<Seq<char>>, column_cell_size: nat)
    ensures
        table_body(ingredients, 2, column_cell_size, 10)
            == separator_chunk(column_cell_size)
                + row_chunk(ingredients, 2, column_cell_size, 1)
                + separator_chunk(column_cell_size)
                + row_chunk(ingredients, 2, column_cell_size, 2)
                + separator_chunk(column_cell_size)
                + row_chunk(ingredients, 2, column_cell_size, 3)
                + separator_chunk(column_cell_size),
{
    let ings = ingredients;
    let ccs = column_cell_size;
    let sep = separator_chunk(ccs);
    let empty = Seq::<char>::empty();
    assert(table_body(ings, 2, ccs, 0) =~= empty);
    lemma_row(ings, 2, ccs, 0, 0);
    assert(table_chunk(ings, 2, ccs, 0) =~= sep);
    lemma_row(ings, 2, ccs, 1, 1);
    assert(table_chunk(ings, 2, ccs, 1) =~= empty);
    lemma_row(ings, 2, ccs, 2, 1);
    assert(table_chunk(ings, 2, ccs, 2) =~= row_chunk(ings, 2, ccs, 1));
    lemma_row(ings, 2, ccs, 3, 1);
    assert(table_chunk(ings, 2, ccs, 3) =~= sep);
    lemma_row(ings, 2, ccs, 4, 2);
    assert(table_chunk(ings, 2, ccs, 4) =~= row_chunk(ings, 2, ccs, 2));
    lemma_row(ings, 2, ccs, 5, 2);
    assert(table_chunk(ings, 2, ccs, 5) =~= empty);
    lemma_row(ings, 2, ccs, 6, 2);
    assert(table_chunk(ings, 2, ccs, 6) =~= sep + row_chunk(ings, 2, ccs, 3));
    lemma_row(ings, 2, ccs, 7, 2);
    assert(table_chunk(ings, 2, ccs, 7) =~= sep);
    lemma_row(ings, 2, ccs, 8, 3);
    assert(table_chunk(ings, 2, ccs, 8) =~= empty);
    lemma_row(ings, 2, ccs, 9, 3);
    assert(table_chunk(ings, 2, ccs, 9) =~= empty);
    assert(table_body(ings, 2, ccs, 10) =~= sep + row_chunk(ings, 2, ccs, 1) + sep
        + row_chunk(ings, 2, ccs, 2) + sep + row_chunk(ings, 2, ccs, 3) + sep);
}

/// The shape of the table: the opening fence, a separator line, then the
/// three table rows (ingredients 1-3, 4-6 and 7-9), each followed by a
/// separator line, then the closing fence; except that when the longest
/// ingredient has exactly one word, the separator after the last row is
/// missing.
#[verifier::spinoff_prover]
pub proof fn lemma_table_layout(ingredients: Seq<Seq<char>>, longest_word_length: nat, longest_ingredient_height: nat)
    ensures
        ({
            let rcs = longest_ingredient_height + 2;
            let ccs = longest_word_length + 2;
            let sep = separator_chunk(ccs);
            let r1 = row_chunk(ingredients, rcs, ccs, 1);
            let r2 = row_chunk(ingredients, rcs, ccs, 2);
            let r3 = row_chunk(ingredients, rcs, ccs, 3);
            let text = table_text(ingredients, longest_word_length, longest_ingredient_height);
            &&& longest_ingredient_height != 1 ==> text == fence_open() + sep + r1 + sep + r2 + sep + r3 + sep + fence_close()
            &&& longest_ingredient_height == 1 ==> text == fence_open() + sep + r1 + sep + r2 + sep + r3 + fence_close()
        }),
{
    let ings = ingredients;
    let rcs = longest_ingredient_height + 2;
    let ccs = longest_word_length + 2;
    let sep = separator_chunk(ccs);
    let r1 = row_chunk(ings, rcs, ccs, 1);
    let r2 = row_chunk(ings, rcs, ccs, 2);
    let r3 = row_chunk(ings, rcs, ccs, 3);
    let body = table_body(ings, rcs, ccs, rcs * 3 + 4);
    assert(table_text(ings, longest_word_length, longest_ingredient_height) == fence_open() + body + fence_close());
    if longest_ingredient_height >= 2 {
        lemma_body_tall(ings, rcs, ccs);
        assert(body == sep + r1 + sep + r2 + sep + r3 + sep);
    } else if longest_ingredient_height == 1 {
        lemma_body_tall(ings, rcs, ccs);
        assert(sep + r1 + sep + r2 + sep + r3 + Seq::<char>::empty() =~= sep + r1 + sep + r2 + sep + r3);
        assert(body == sep + r1 + sep + r2 + sep + r3);
    } else {
        assert(rcs * 3 + 4 == 10);
        lemma_body_flat(ings, ccs);
        assert(body == sep + r1 + sep + r2 + sep + r3 + sep);
    }
}

/// A centred ingredient fills its cell exactly.
pub proof fn lemma_centered_width(ingredient: Seq<char>, column_cell_size: nat)
    requires
        byte_len(ingredient) <= column_cell_size,
    ensures
        byte_len(centered(ingredient, column_cell_size)) == column_cell_size,
{
    let total = (column_cell_size - byte_len(ingredient)) as nat;
    let front = total / 2;
    let back = (total - front) as nat;
    lemma_byte_len_repeat_ascii(' ', front);
    lemma_byte_len_repeat_ascii(' ', back);
    lemma_byte_len_concat(repeat_char(' ', front), ingredient);
    lemma_byte_len_concat(repeat_char(' ', front) + ingredient, repeat_char(' ', back));
}

/// A separator line is `3 * column_cell_size + 4` bytes wide.
pub proof fn lemma_separator_width(column_cell_size: nat)
    ensures
        byte_len(separator_line(column_cell_size)) == 3 * column_cell_size + 4,
{
    let dashes = repeat_char('-', column_cell_size);
    let plus = seq!['+'];
    lemma_byte_len_repeat_ascii('-', column_cell_size);
    lemma_byte_len_ascii_char('+');
    lemma_byte_len_concat(plus, dashes);
    lemma_byte_len_concat(plus + dashes, plus);
    lemma_byte_len_concat(plus + dashes + plus, dashes);
    lemma_byte_len_concat(plus + dashes + plus + dashes, plus);
    lemma_byte_len_concat(plus + dashes + plus + dashes + plus, dashes);
    lemma_byte_len_concat(plus + dashes + plus + dashes + plus + dashes, plus);
}

/// In a drawable table row every cell is `column_cell_size` bytes wide,
/// so every line of a row of `k > 0` ingredients is
/// `k * (column_cell_size + 1) + 1` bytes wide; for three ingredients, as
/// wide as a separator line.
#[verifier::spinoff_prover]
pub proof fn lemma_row_lines_width(ingredients: Seq<Seq<char>>, row_cell_size: nat, column_cell_size: nat)
    requires
        ingredients.len() > 0,
        row_drawable(ingredients, row_cell_size, column_cell_size),
    ensures
        forall|r: int| 0 <= r < row_cell_size ==>
            byte_len(#[trigger] ingredient_lines(ingredients, row_cell_size, column_cell_size)[r])
                == ingredients.len() * (column_cell_size + 1) + 1,
        ingredients.len() == 3 ==> forall|r: int| 0 <= r < row_cell_size ==>
            byte_len(#[trigger] ingredient_lines(ingredients, row_cell_size, column_cell_size)[r])
                == byte_len(separator_line(column_cell_size)),
{
    let rcs = row_cell_size as int;
    let ccs = column_cell_size;
    let k = ingredients.len();
    assert forall|r: int| 0 <= r < row_cell_size implies
        byte_len(#[trigger] ingredient_lines(ingredients, row_cell_size, column_cell_size)[r]) == k * (ccs + 1) + 1 by {
        let cells = Seq::new(k, |i: int| ingredient_cell(ingredients[i], rcs, r, ccs));
        assert forall|i: int| 0 <= i < cells.len() implies byte_len(#[trigger] cells[i]) == ccs by {
            let pieces = space_pieces(ingredients[i]);
            assert(ingredient_fits(ingredients[i], rcs, ccs));
            if row_is_padded(rcs, pieces.len() as int, r) {
                lemma_byte_len_repeat_ascii(' ', ccs);
            } else {
                lemma_centered_width(line_word(pieces, rcs, r), ccs);
            }
        }
        lemma_byte_len_join(cells, '|', ccs);
        lemma_byte_len_ascii_char('|');
        lemma_byte_len_concat(seq!['|'], join(cells, seq!['|']));
        lemma_byte_len_concat(seq!['|'] + join(cells, seq!['|']), seq!['|']);
        assert(k * (ccs + 1) == k * ccs + k) by (nonlinear_arith);
    }
    lemma_separator_width(ccs);
    if k == 3 {
        assert(k * (ccs + 1) + 1 == 3 * ccs + 4) by (nonlinear_arith)
            requires k == 3;
    }
}

/// Only the first nine ingredients make the table: the rest are never
/// drawn.
pub proof fn lemma_first_nine(ingredients: Seq<Seq<char>>, longest_word_length: nat, longest_ingredient_height: nat)
    requires
        ingredients.len() >= 9,
    ensures
        table_text(ingredients, longest_word_length, longest_ingredient_height)
            == table_text(ingredients.take(9), longest_word_length, longest_ingredient_height),
{
    let nine = ingredients.take(9);
    let rcs = longest_ingredient_height + 2;
    let ccs = longest_word_length + 2;
    lemma_table_layout(ingredients, longest_word_length, longest_ingredient_height);
    lemma_table_layout(nine, longest_word_length, longest_ingredient_height);
    assert forall|k: int| 1 <= k <= 3 implies row_ingredients_of(ingredients, k) == row_ingredients_of(nine, k) by {
        assert(row_ingredients_of(ingredients, k) =~= row_ingredients_of(nine, k));
    }
    assert(row_chunk(ingredients, rcs, ccs, 1) == row_chunk(nine, rcs, ccs, 1));
    assert(row_chunk(ingredients, rcs, ccs, 2) == row_chunk(nine, rcs, ccs, 2));
    assert(row_chunk(ingredients, rcs, ccs, 3) == row_chunk(nine, rcs, ccs, 3));
}

/// Where the only white space in `s` is the space character, splitting at
/// white space and splitting at spaces give the same pieces.
proof fn lemma_split_spaces_only(s: Seq<char>)
    requires
        forall|j: int| 0 <= j < s.len() && is_white_space(#[trigger] s[j]) ==> s[j] == ' ',
    ensures
        split_by(s, separator(None)) == split_by(s, separator(Some(' '))),
    decreases s.len(),
{
    if s.len() > 0 {
        let prev = s.drop_last();
        assert forall|j: int| 0 <= j < prev.len() && is_white_space(#[trigger] prev[j]) implies prev[j] == ' ' by {
            assert(prev[j] == s[j]);
        }
        lemma_split_spaces_only(prev);
        assert(is_white_space(s.last()) <==> s.last() == ' ');
    }
}

/// Every piece that is not empty is among the non-empty pieces.
proof fn lemma_non_empty_contains(ps: Seq<Seq<char>>, j: int)
    requires
        0 <= j < ps.len(),
        ps[j].len() > 0,
    ensures
        non_empty(ps).contains(ps[j]),
    decreases ps.len(),
{
    if j == ps.len() - 1 {
        assert(non_empty(ps) == non_empty(ps.drop_last()).push(ps.last()));
        assert(non_empty(ps)[non_empty(ps).len() - 1] == ps[j]);
    } else {
        assert(ps.drop_last()[j] == ps[j]);
        lemma_non_empty_contains(ps.drop_last(), j);
        let k = choose|k: int| 0 <= k < non_empty(ps.drop_last()).len() && non_empty(ps.drop_last())[k] == ps[j];
        if ps.last().len() > 0 {
            assert(non_empty(ps)[k] == ps[j]);
        } else {
            assert(non_empty(ps)[k] == ps[j]);
        }
    }
}

/// Every word of an ingredient is among all words.
proof fn lemma_all_words_contains(ingredients: Seq<Seq<char>>, i: int, w: Seq<char>)
    requires
        0 <= i < ingredients.len(),
        words(ingredients[i]).contains(w),
    ensures
        all_words(ingredients).contains(w),
    decreases ingredients.len(),
{
    let prev = ingredients.drop_last();
    let ws = words(ingredients.last());
    assert(all_words(ingredients) == all_words(prev) + ws);
    if i == ingredients.len() - 1 {
        let k = choose|k: int| 0 <= k < ws.len() && ws[k] == w;
        assert((all_words(prev) + ws)[all_words(prev).len() + k] == w);
    } else {
        assert(prev[i] == ingredients[i]);
        lemma_all_words_contains(prev, i, w);
        let k = choose|k: int| 0 <= k < all_words(prev).len() && all_words(prev)[k] == w;
        assert((all_words(prev) + ws)[k] == w);
    }
}

/// An ingredient whose only white space is spaces fits a column as wide as
/// the longest word of all ingredients (plus padding): each of its pieces
/// is empty or one of its words.
proof fn lemma_plain_ingredient_fits(ingredients: Seq<Seq<char>>, i: int, row_cell_size: int)
    requires
        0 <= i < ingredients.len(),
        0 <= row_cell_size,
        forall|j: int| 0 <= j < ingredients[i].len() && is_white_space(#[trigger] ingredients[i][j])
            ==> ingredients[i][j] == ' ',
    ensures
        ingredient_fits(ingredients[i], row_cell_size, byte_len(longest(all_words(ingredients))) + 2),
{
    let s = ingredients[i];
    let pieces = space_pieces(s);
    let width = byte_len(longest(all_words(ingredients)));
    lemma_split_spaces_only(s);
    assert(words(s) == non_empty(pieces));
    assert forall|r: int| 0 <= r < row_cell_size && !row_is_padded(row_cell_size, pieces.len() as int, r)
        implies byte_len(#[trigger] line_word(pieces, row_cell_size, r)) <= width + 2 by {
        lemma_line_word_in_range(row_cell_size, pieces.len() as int, r);
        let p = line_word(pieces, row_cell_size, r);
        if p.len() > 0 {
            let idx = r - crate::table::first_word_line(row_cell_size, pieces.len() as int);
            lemma_non_empty_contains(pieces, idx);
            lemma_all_words_contains(ingredients, i, p);
            let ws = all_words(ingredients);
            lemma_longest(ws);
            let k = choose|k: int| 0 <= k < ws.len() && ws[k] == p;
            assert(byte_len(ws[k]) <= width);
        } else {
            assert(p =~= Seq::<char>::empty());
            assert(vstd::utf8::encode_utf8(p) =~= Seq::<u8>::empty());
        }
    }
}

/// A recipe whose first nine ingredients hold no white space but spaces
/// can be drawn, as long as the sizes of its table fit the machine's
/// integers.
pub proof fn lemma_plain_recipe_drawable(ingredients: Seq<Seq<char>>)
    requires
        ingredients.len() >= 9,
        forall|i: int, j: int| 0 <= i < 9 && 0 <= j < ingredients[i].len() && is_white_space(#[trigger] ingredients[i][j])
            ==> ingredients[i][j] == ' ',
        byte_len(longest(all_words(ingredients))) + 2 <= usize::MAX,
        (max_word_count(ingredients) + 2) * 3 + 4 <= usize::MAX,
        max_word_count(ingredients) + 2 <= i32::MAX,
        forall|i: int| 0 <= i < 9 ==> space_pieces(#[trigger] ingredients[i]).len() <= i32::MAX,
    ensures
        recipe_table_drawable(ingredients),
{
    let rcs = max_word_count(ingredients) + 2;
    assert forall|i: int| 0 <= i < 9 implies
        ingredient_fits(#[trigger] ingredients[i], rcs as int, byte_len(longest(all_words(ingredients))) + 2) by {
        assert forall|j: int| 0 <= j < ingredients[i].len() && is_white_space(#[trigger] ingredients[i][j])
            implies ingredients[i][j] == ' ' by {}
        lemma_plain_ingredient_fits(ingredients, i, rcs as int);
    }
}

/// A word of byte length `L` centred in a cell of `W` bytes is preceded by
/// `(W - L) / 2` spaces (rounded down) and followed by the other
/// `W - L - (W - L) / 2`: the word itself is kept whole, in the middle.
pub proof fn lemma_centered_padding(ingredient: Seq<char>, column_cell_size: nat)
    requires
        byte_len(ingredient) <= column_cell_size,
    ensures
        ({
            let spare = column_cell_size - byte_len(ingredient);
            let front = spare / 2;
            let cell = centered(ingredient, column_cell_size);
            &&& cell.len() == spare + ingredient.len()
            &&& forall|i: int| 0 <= i < front ==> #[trigger] cell[i] == ' '
            &&& cell.subrange(front, front + ingredient.len()) == ingredient
            &&& forall|i: int| front + ingredient.len() <= i < cell.len() ==> #[trigger] cell[i] == ' '
        }),
{
    let spare = column_cell_size - byte_len(ingredient);
    let front = spare / 2;
    let cell = centered(ingredient, column_cell_size);
    assert(cell.subrange(front, front + ingredient.len()) =~= ingredient);
}

/// Every piece of an ingredient (its text between single spaces) is shown
/// on a line of its own, in order, in any layout that `create_row_ingredient`
/// may return.  When the `n` pieces fit in the row's lines, piece `j` is on
/// line `(lines - n) / 2 + j` and every other line is blank padding; when
/// they do not, line `r` shows piece `r` and no line is padding.
pub proof fn lemma_layout_shows_pieces(
    ingredient: Seq<char>,
    row_cell_size: int,
    words: Seq<Seq<char>>,
    padding: Seq<bool>,
)
    requires
        row_ingredient_fits(ingredient, row_cell_size, words, padding),
    ensures
        ({
            let pieces = space_pieces(ingredient);
            let n = pieces.len() as int;
            &&& n <= row_cell_size ==> {
                let above = (row_cell_size - n) / 2;
                &&& forall|j: int| 0 <= j < n ==> words[above + j] == #[trigger] pieces[j] && !padding[above + j]
                &&& forall|r: int| 0 <= r < row_cell_size && (r < above || above + n <= r)
                        ==> #[trigger] padding[r] && words[r] == Seq::<char>::empty()
            }
            &&& n > row_cell_size ==> forall|r: int| 0 <= r < row_cell_size
                    ==> #[trigger] words[r] == pieces[r] && !padding[r]
        }),
{
    let pieces = space_pieces(ingredient);
    let n = pieces.len() as int;
    if row_cell_size >= 0 {
        lemma_row_layout(row_cell_size, n);
    }
    if n <= row_cell_size {
        let above = (row_cell_size - n) / 2;
        assert forall|j: int| 0 <= j < n implies words[above + j] == #[trigger] pieces[j] && !padding[above + j] by {
            assert(words[above + j] == line_word(pieces, row_cell_size, above + j));
            assert(padding[above + j] == row_is_padded(row_cell_size, n, above + j));
        }
        assert forall|r: int| 0 <= r < row_cell_size && (r < above || above + n <= r)
            implies #[trigger] padding[r] && words[r] == Seq::<char>::empty() by {
            assert(words[r] == line_word(pieces, row_cell_size, r));
            assert(padding[r] == row_is_padded(row_cell_size, n, r));
        }
    } else {
        assert forall|r: int| 0 <= r < row_cell_size implies #[trigger] words[r] == pieces[r] && !padding[r] by {
            assert(words[r] == line_word(pieces, row_cell_size, r));
            assert(padding[r] == row_is_padded(row_cell_size, n, r));
        }
    }
}

} // verus!
