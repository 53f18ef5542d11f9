//! Text primitives over strings viewed as sequences of `char`s.

use vstd::prelude::*;
use vstd::utf8::encode_utf8;

verus! {

/// The number of bytes of the UTF-8 encoding of `s`: what `str::len` returns.
pub open spec fn byte_len(s: Seq<char>) -> nat {
    encode_utf8(s).len()
}

/// The byte length of `s`.
pub fn str_byte_len(s: &str) -> (n: usize)
    ensures
        n == byte_len(s@),
{
    s.as_bytes().len()
}

/// Byte lengths add up under concatenation.
pub proof fn lemma_byte_len_concat(a: Seq<char>, b: Seq<char>)
    ensures
        byte_len(a + b) == byte_len(a) + byte_len(b),
    decreases a.len(),
{
    if a.len() > 0 {
        lemma_byte_len_concat(a.drop_first(), b);
        assert((a + b).drop_first() =~= a.drop_first() + b);
        assert((a + b)[0] == a[0]);
    } else {
        assert(a + b =~= b);
    }
}

/// An ASCII character takes one byte.
pub proof fn lemma_byte_len_ascii_char(c: char)
    requires
        (c as u32) < 0x80,
    ensures
        byte_len(seq![c]) == 1,
{
    assert(seq![c].drop_first() =~= Seq::<char>::empty());
    assert(encode_utf8(Seq::<char>::empty()) =~= Seq::<u8>::empty());
    assert(vstd::utf8::has_width_1_encoding(c as u32));
    assert(vstd::utf8::encode_scalar(c as u32).len() == 1);
    assert(encode_utf8(seq![c]) =~= vstd::utf8::encode_scalar(seq![c][0] as u32) + encode_utf8(seq![c].drop_first()));
}

/// `n` copies of the character `c`.
pub open spec fn repeat_char(c: char, n: nat) -> Seq<char> {
    Seq::new(n, |_i: int| c)
}

/// `n` copies of an ASCII character take `n` bytes.
pub proof fn lemma_byte_len_repeat_ascii(c: char, n: nat)
    requires
        (c as u32) < 0x80,
    ensures
        byte_len(repeat_char(c, n)) == n,
    decreases n,
{
    if n > 0 {
        lemma_byte_len_repeat_ascii(c, (n - 1) as nat);
        assert(repeat_char(c, n) =~= repeat_char(c, (n - 1) as nat) + seq![c]);
        lemma_byte_len_concat(repeat_char(c, (n - 1) as nat), seq![c]);
        lemma_byte_len_ascii_char(c);
    } else {
        assert(repeat_char(c, n) =~= Seq::<char>::empty());
    }
}

/// Appends `n` copies of the one-character string `unit` to `s`.
pub fn push_repeated(s: &mut String, unit: &str, n: usize)
    requires
        unit@.len() == 1,
    ensures
        final(s)@ == old(s)@ + repeat_char(unit@[0], n as nat),
{
    let ghost start = s@;
    let ghost c = unit@[0];
    let mut i: usize = 0;
    while i < n
        invariant
            i <= n,
            unit@ == seq![c],
            s@ == start + repeat_char(c, i as nat),
        decreases n - i,
    {
        s.append(unit);
        assert(repeat_char(c, (i + 1) as nat) =~= repeat_char(c, i as nat).push(c));
        i = i + 1;
    }
}

/// Rust's `char::is_whitespace`: the characters with the Unicode
/// `White_Space` property.
pub open spec fn is_white_space(c: char) -> bool {
    ||| ('\u{9}' <= c && c <= '\u{d}')
    ||| c == ' '
    ||| c == '\u{85}'
    ||| c == '\u{a0}'
    ||| c == '\u{1680}'
    ||| ('\u{2000}' <= c && c <= '\u{200a}')
    ||| c == '\u{2028}'
    ||| c == '\u{2029}'
    ||| c == '\u{202f}'
    ||| c == '\u{205f}'
    ||| c == '\u{3000}'
}

/// The separator characters of a split: white space for `None`, else the
/// given character.
pub open spec fn separator(kind: Option<char>) -> spec_fn(char) -> bool {
    match kind {
        None => |c: char| is_white_space(c),
        Some(sep) => |c: char| c == sep,
    }
}

/// The pieces of `s` between separator characters, in order, empty pieces
/// included: what `str::split` yields for a character predicate.  There is
/// always one piece more than there are separators in `s`.
pub open spec fn split_by(s: Seq<char>, sep: spec_fn(char) -> bool) -> Seq<Seq<char>>
    decreases s.len(),
{
    if s.len() == 0 {
        seq![Seq::<char>::empty()]
    } else {
        let prev = split_by(s.drop_last(), sep);
        if sep(s.last()) {
            prev.push(Seq::<char>::empty())
        } else {
            prev.drop_last().push(prev.last().push(s.last()))
        }
    }
}

/// The pieces that are not empty, in order.
pub open spec fn non_empty(ps: Seq<Seq<char>>) -> Seq<Seq<char>>
    decreases ps.len(),
{
    if ps.len() == 0 {
        ps
    } else if ps.last().len() > 0 {
        non_empty(ps.drop_last()).push(ps.last())
    } else {
        non_empty(ps.drop_last())
    }
}

/// The words of `s`: its maximal runs of characters that are not white
/// space, as `str::split_whitespace` yields them.
pub open spec fn words(s: Seq<char>) -> Seq<Seq<char>> {
    non_empty(split_by(s, separator(None)))
}

/// The pieces of `s` between single space characters, as `str::split(' ')`
/// yields them.
pub open spec fn space_pieces(s: Seq<char>) -> Seq<Seq<char>> {
    split_by(s, separator(Some(' ')))
}

/// The character views of a sequence of string slices.
pub open spec fn views(v: Seq<&str>) -> Seq<Seq<char>> {
    v.map_values(|w: &str| w@)
}

pub proof fn lemma_split_by_len(s: Seq<char>, sep: spec_fn(char) -> bool)
    ensures
        split_by(s, sep).len() >= 1,
    decreases s.len(),
{
    if s.len() > 0 {
        lemma_split_by_len(s.drop_last(), sep);
    }
}

/// Whether `c` is a separator of the given kind.
fn is_separator(c: char, kind: Option<char>) -> (res: bool)
    ensures
        res == (separator(kind))(c),
{
    match kind {
        None => ('\u{9}' <= c && c <= '\u{d}') || c == ' ' || c == '\u{85}' || c == '\u{a0}'
            || c == '\u{1680}' || ('\u{2000}' <= c && c <= '\u{200a}') || c == '\u{2028}'
            || c == '\u{2029}' || c == '\u{202f}' || c == '\u{205f}' || c == '\u{3000}',
        Some(sep) => c == sep,
    }
}

/// `str::split` by a character (or by white space for `None`): the pieces of
/// `s` between separators, empty ones included.
pub fn split_pieces<'a>(s: &'a str, kind: Option<char>) -> (res: Vec<&'a str>)
    ensures
        views(res@) == split_by(s@, separator(kind)),
{
    let ghost sep = separator(kind);
    let n = s.unicode_len();
    let mut out: Vec<&'a str> = Vec::new();
    let mut start: usize = 0;
    let mut j: usize = 0;
    assert(s@.take(0) =~= Seq::<char>::empty());
    while j < n
        invariant
            n == s@.len(),
            start <= j <= n,
            sep == separator(kind),
            views(out@).push(s@.subrange(start as int, j as int)) == split_by(s@.take(j as int), sep),
        decreases n - j,
    {
        let c = s.get_char(j);
        let ghost prev = split_by(s@.take(j as int), sep);
        assert(s@.take(j + 1).drop_last() =~= s@.take(j as int));
        assert(s@.take(j + 1).last() == c);
        if is_separator(c, kind) {
            let piece = s.substring_char(start, j);
            out.push(piece);
            assert(views(out@) =~= views(out@.drop_last()).push(piece@));
            assert(s@.subrange((j + 1) as int, (j + 1) as int) =~= Seq::<char>::empty());
            start = j + 1;
        } else {
            assert(s@.subrange(start as int, j + 1) =~= s@.subrange(start as int, j as int).push(c));
            assert(prev.drop_last() =~= views(out@));
        }
        j = j + 1;
    }
    let piece = s.substring_char(start, n);
    out.push(piece);
    assert(views(out@) =~= views(out@.drop_last()).push(piece@));
    assert(s@.take(n as int) =~= s@);
    out
}

/// `str::split(' ')`: the pieces of `s` between single spaces.
pub fn split_spaces<'a>(s: &'a str) -> (res: Vec<&'a str>)
    ensures
        views(res@) == space_pieces(s@),
{
    split_pieces(s, Some(' '))
}

/// `str::split_whitespace`: the words of `s`.
pub fn split_whitespace<'a>(s: &'a str) -> (res: Vec<&'a str>)
    ensures
        views(res@) == words(s@),
{
    let pieces = split_pieces(s, None);
    let mut out: Vec<&'a str> = Vec::new();
    let mut i: usize = 0;
    while i < pieces.len()
        invariant
            i <= pieces.len(),
            views(out@) == non_empty(views(pieces@).take(i as int)),
        decreases pieces.len() - i,
    {
        let p = pieces[i];
        assert(views(pieces@).take(i + 1).drop_last() =~= views(pieces@).take(i as int));
        assert(views(pieces@).take(i + 1).last() == p@);
        if !p.is_empty() {
            out.push(p);
            assert(views(out@) =~= views(out@.drop_last()).push(p@));
        }
        i = i + 1;
    }
    assert(views(pieces@).take(pieces.len() as int) =~= views(pieces@));
    out
}

/// The parts joined by `sep`, as `[T]::join` joins them: `sep` between
/// consecutive parts, none before the first or after the last.
pub open spec fn join(parts: Seq<Seq<char>>, sep: Seq<char>) -> Seq<char>
    decreases parts.len(),
{
    if parts.len() == 0 {
        Seq::empty()
    } else if parts.len() == 1 {
        parts[0]
    } else {
        join(parts.drop_last(), sep) + sep + parts.last()
    }
}

/// The character views of a sequence of strings.
pub open spec fn string_views(v: Seq<String>) -> Seq<Seq<char>> {
    v.map_values(|w: String| w@)
}

/// `parts.join(sep)`.
pub fn join_strings(parts: &Vec<String>, sep: &str) -> (res: String)
    ensures
        res@ == join(string_views(parts@), sep@),
{
    let ghost ps = string_views(parts@);
    let mut res = String::new();
    let mut i: usize = 0;
    assert(ps.take(0) =~= Seq::<Seq<char>>::empty());
    while i < parts.len()
        invariant
            i <= parts.len(),
            ps == string_views(parts@),
            res@ == join(ps.take(i as int), sep@),
        decreases parts.len() - i,
    {
        assert(ps.take(i + 1).drop_last() =~= ps.take(i as int));
        assert(ps.take(i + 1).last() == parts@[i as int]@);
        if i != 0 {
            res.append(sep);
        } else {
            assert(ps.take(1)[0] == ps.take(1).last());
        }
        res.append(parts[i].as_str());
        i = i + 1;
    }
    assert(ps.take(parts.len() as int) =~= ps);
    res
}

/// Parts of `width` bytes each, joined by a one-byte ASCII separator,
/// take `k * width + (k - 1)` bytes for `k > 0` parts.
pub proof fn lemma_byte_len_join(parts: Seq<Seq<char>>, c: char, width: nat)
    requires
        (c as u32) < 0x80,
        parts.len() > 0,
        forall|i: int| 0 <= i < parts.len() ==> byte_len(#[trigger] parts[i]) == width,
    ensures
        byte_len(join(parts, seq![c])) == parts.len() * width + parts.len() - 1,
    decreases parts.len(),
{
    if parts.len() > 1 {
        let prev = parts.drop_last();
        assert forall|i: int| 0 <= i < prev.len() implies byte_len(#[trigger] prev[i]) == width by {
            assert(prev[i] == parts[i]);
        }
        lemma_byte_len_join(prev, c, width);
        lemma_byte_len_concat(join(prev, seq![c]), seq![c]);
        lemma_byte_len_concat(join(prev, seq![c]) + seq![c], parts.last());
        lemma_byte_len_ascii_char(c);
        assert(byte_len(parts.last()) == width);
        assert(parts.len() * width == prev.len() * width + width) by (nonlinear_arith)
            requires parts.len() == prev.len() + 1;
    } else {
        assert(byte_len(parts[0]) == width);
    }
}

/// What `str::to_lowercase` returns for a string of the given characters:
/// its lowercase by the Unicode case mapping of the standard library (a
/// character may map to several, and a final sigma depends on what stands
/// around it), a function of the characters alone.
pub uninterp spec fn lowercase(s: Seq<char>) -> Seq<char>;

/// `str::to_lowercase`: trusted to return `lowercase` of the characters of
/// `s`, a function of those characters alone; the Unicode case mapping
/// itself is not stated here.
#[verifier::external_body]
pub(crate) fn to_lowercase(s: &str) -> (res: String)
    ensures
        res@ == lowercase(s@),
{
    s.to_lowercase()
}

/// `s` with every occurrence of `from` replaced by `to`.
pub open spec fn replace_char(s: Seq<char>, from: char, to: char) -> Seq<char> {
    s.map_values(|c: char| if c == from { to } else { c })
}

/// `str::replace(from, to)` for one-character patterns: `s` with every
/// `from` replaced by the one-character string `to`.
pub fn replace_char_with(s: &str, from: char, to: &str) -> (res: String)
    requires
        to@.len() == 1,
    ensures
        res@ == replace_char(s@, from, to@[0]),
{
    let n = s.unicode_len();
    let mut res = String::new();
    let mut j: usize = 0;
    while j < n
        invariant
            n == s@.len(),
            j <= n,
            to@.len() == 1,
            res@ == replace_char(s@.take(j as int), from, to@[0]),
        decreases n - j,
    {
        let c = s.get_char(j);
        if c == from {
            res.append(to);
        } else {
            res.append(s.substring_char(j, j + 1));
        }
        assert(replace_char(s@.take(j + 1), from, to@[0]) =~= replace_char(s@.take(j as int), from, to@[0]).push(
            if c == from { to@[0] } else { c },
        ));
        j = j + 1;
    }
    assert(s@.take(n as int) =~= s@);
    res
}

} // verus!
