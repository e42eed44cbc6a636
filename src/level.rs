//! The text format of a level and its parser.
//!
//! A level is line-oriented. Lines end at `\n` or `\r\n`, the last line
//! ending being optional. The first three lines give, after a label and `": "`,
//! two integers separated by `", "`: the grid's columns and rows, the overlap
//! of neighbouring tiles, and the size of a tile. Each following line, one per
//! cell, row by row and each row from left to right, gives a tile:
//! `<label>: <texture>, <rotation>, <depth>, <travel>`. A line's values are
//! what follows its last `": "`; fields past those that are read are ignored.
//! Numbers are decimal integers with an optional sign: grid counts lie in
//! `0..=i32::MAX`, overlaps, sizes and rotations in the range of `i32`, and
//! depths in the range of `i8`. `travel` is `true` or `false`.
use vstd::prelude::*;
use vstd::std_specs::iter::IteratorSpec;
use crate::geom::{Rect, Vec2};
use crate::map::{TileMap, TileMapView, TileView, Tile, map_wf};

verus! {

/// The pieces of `s` between occurrences of `c`; there is always at least one.
pub open spec fn split_char(s: Seq<char>, c: char) -> Seq<Seq<char>>
    decreases s.len(),
{
    if s.len() == 0 {
        seq![Seq::empty()]
    } else {
        let p = split_char(s.drop_last(), c);
        if s.last() == c {
            p.push(Seq::empty())
        } else {
            p.update(p.len() - 1, p.last().push(s.last()))
        }
    }
}

/// The pieces of `s` between the occurrences of the separator `a b`, found
/// from the left without overlap; there is always at least one.
pub open spec fn split_pair(s: Seq<char>, a: char, b: char) -> Seq<Seq<char>>
    decreases s.len(),
{
    if s.len() == 0 {
        seq![Seq::empty()]
    } else {
        let p = split_pair(s.drop_last(), a, b);
        let cur = p.last();
        if s.last() == b && cur.len() > 0 && cur.last() == a {
            p.update(p.len() - 1, cur.drop_last()).push(Seq::empty())
        } else {
            p.update(p.len() - 1, cur.push(s.last()))
        }
    }
}

/// A line without the `\r` of a `\r\n` ending.
pub open spec fn strip_cr(l: Seq<char>) -> Seq<char> {
    if l.len() > 0 && l.last() == '\r' {
        l.drop_last()
    } else {
        l
    }
}

/// The lines of a text: split at `\n`, a `\r` before the `\n` dropped, and
/// no empty line after a final `\n`.
pub open spec fn text_lines(s: Seq<char>) -> Seq<Seq<char>> {
    let p = split_char(s, '\n');
    let body = p.drop_last().map_values(|l: Seq<char>| strip_cr(l));
    if p.last().len() == 0 {
        body
    } else {
        body.push(p.last())
    }
}

/// The fields of a line: what follows its last `": "`, split at `", "`.
pub open spec fn line_fields(line: Seq<char>) -> Seq<Seq<char>> {
    split_pair(split_pair(line, ':', ' ').last(), ',', ' ')
}

pub open spec fn is_digit(c: char) -> bool {
    '0' <= c <= '9'
}

pub open spec fn all_digits(d: Seq<char>) -> bool {
    &&& d.len() > 0
    &&& forall|i: int| 0 <= i < d.len() ==> is_digit(#[trigger] d[i])
}

/// The number that a string of decimal digits writes.
pub open spec fn digits_value(d: Seq<char>) -> int
    decreases d.len(),
{
    if d.len() == 0 {
        0
    } else {
        digits_value(d.drop_last()) * 10 + (d.last() as int - '0' as int)
    }
}

/// The integer that `t` writes: decimal digits after an optional `+` or `-`.
pub open spec fn int_value(t: Seq<char>) -> Option<int> {
    if t.len() > 0 && (t[0] == '-' || t[0] == '+') {
        if all_digits(t.drop_first()) {
            if t[0] == '-' {
                Some(-digits_value(t.drop_first()))
            } else {
                Some(digits_value(t.drop_first()))
            }
        } else {
            None
        }
    } else if all_digits(t) {
        Some(digits_value(t))
    } else {
        None
    }
}

/// The integer that `t` writes, where it lies in `lo..=hi`.
pub open spec fn int_in(t: Seq<char>, lo: int, hi: int) -> Option<int> {
    match int_value(t) {
        Some(v) => if lo <= v <= hi {
            Some(v)
        } else {
            None
        },
        None => None,
    }
}

/// The truth value that `t` writes.
pub open spec fn bool_value(t: Seq<char>) -> Option<bool> {
    if t == seq!['t', 'r', 'u', 'e'] {
        Some(true)
    } else if t == seq!['f', 'a', 'l', 's', 'e'] {
        Some(false)
    } else {
        None
    }
}

/// What is wrong where a level's text does not parse.
#[derive(Clone, Copy, Debug, PartialEq, Eq, Structural)]
pub enum ParseErrorKind {
    /// The text ends before the line.
    MissingLine,
    /// The line has fewer fields than it needs.
    MissingField,
    /// The field is not an integer, or not in its range.
    BadNumber,
    /// The field is neither `true` nor `false`.
    BadBool,
}

/// A level that does not parse: the line (from 1) and the field (from 1; 0
/// for a missing line) where the first fault stands.
#[derive(Clone, Copy, Debug, PartialEq, Eq, Structural)]
pub struct ParseError {
    pub line: u64,
    pub field: u64,
    pub kind: ParseErrorKind,
}

pub open spec fn parse_error(line: int, field: int, kind: ParseErrorKind) -> ParseError {
    ParseError { line: line as u64, field: field as u64, kind }
}

/// Field `j` of the fields `f` of line `i`.
pub open spec fn field_in(f: Seq<Seq<char>>, i: int, j: int) -> Result<Seq<char>, ParseError> {
    if j >= f.len() {
        Err(parse_error(i + 1, j + 1, ParseErrorKind::MissingField))
    } else {
        Ok(f[j])
    }
}

/// Field `j` of the fields `f` of line `i`, read as an integer in `lo..=hi`.
pub open spec fn int_in_fields(f: Seq<Seq<char>>, i: int, j: int, lo: int, hi: int) -> Result<int, ParseError> {
    match field_in(f, i, j) {
        Err(e) => Err(e),
        Ok(t) => match int_in(t, lo, hi) {
            Some(v) => Ok(v),
            None => Err(parse_error(i + 1, j + 1, ParseErrorKind::BadNumber)),
        },
    }
}

/// Field `j` of the fields `f` of line `i`, read as `true` or `false`.
pub open spec fn bool_in_fields(f: Seq<Seq<char>>, i: int, j: int) -> Result<bool, ParseError> {
    match field_in(f, i, j) {
        Err(e) => Err(e),
        Ok(t) => match bool_value(t) {
            Some(v) => Ok(v),
            None => Err(parse_error(i + 1, j + 1, ParseErrorKind::BadBool)),
        },
    }
}

/// A header line: two integers in `lo..=hi`.
pub open spec fn header_spec(lines: Seq<Seq<char>>, i: int, lo: int, hi: int) -> Result<Vec2, ParseError> {
    if i >= lines.len() {
        Err(parse_error(i + 1, 0, ParseErrorKind::MissingLine))
    } else {
        let f = line_fields(lines[i]);
        match int_in_fields(f, i, 0, lo, hi) {
            Err(e) => Err(e),
            Ok(x) => match int_in_fields(f, i, 1, lo, hi) {
                Err(e) => Err(e),
                Ok(y) => Ok(Vec2 { x: x as i64, y: y as i64 }),
            },
        }
    }
}

/// World position of cell `k` of a grid of `size.x` columns:
/// `(column * (tile width - overlap x), row * (tile height - overlap y))`.
pub open spec fn cell_position(k: int, size: Vec2, overlap: Vec2, tile_size: Vec2) -> Vec2 {
    Vec2 {
        x: ((k % size.x as int) * (tile_size.x - overlap.x)) as i64,
        y: ((k / size.x as int) * (tile_size.y - overlap.y)) as i64,
    }
}

/// The tile of cell `k`, read from line `3 + k`.
pub open spec fn tile_spec(lines: Seq<Seq<char>>, k: int, size: Vec2, overlap: Vec2, tile_size: Vec2) -> Result<TileView, ParseError> {
    let i = 3 + k;
    if i >= lines.len() {
        Err(parse_error(i + 1, 0, ParseErrorKind::MissingLine))
    } else {
        let f = line_fields(lines[i]);
        match field_in(f, i, 0) {
            Err(e) => Err(e),
            Ok(texture) => match int_in_fields(f, i, 1, i32::MIN as int, i32::MAX as int) {
                Err(e) => Err(e),
                Ok(rotation) => match int_in_fields(f, i, 2, i8::MIN as int, i8::MAX as int) {
                    Err(e) => Err(e),
                    Ok(z) => match bool_in_fields(f, i, 3) {
                        Err(e) => Err(e),
                        Ok(travel) => Ok(
                            TileView {
                                shape: Rect { pos: cell_position(k, size, overlap, tile_size), size: tile_size },
                                texture,
                                rotation: rotation as i64,
                                z: z as i8,
                                travel,
                            },
                        ),
                    },
                },
            },
        }
    }
}

/// The tiles of the first `n` cells, or the first fault among them.
pub open spec fn tiles_spec(lines: Seq<Seq<char>>, n: nat, size: Vec2, overlap: Vec2, tile_size: Vec2) -> Result<Seq<TileView>, ParseError>
    decreases n,
{
    if n == 0 {
        Ok(Seq::empty())
    } else {
        match tiles_spec(lines, (n - 1) as nat, size, overlap, tile_size) {
            Err(e) => Err(e),
            Ok(ts) => match tile_spec(lines, n - 1, size, overlap, tile_size) {
                Err(e) => Err(e),
                Ok(t) => Ok(ts.push(t)),
            },
        }
    }
}

/// The map that a level's text describes, or the first fault in it.
pub open spec fn parse_level(s: Seq<char>) -> Result<TileMapView, ParseError> {
    let lines = text_lines(s);
    match header_spec(lines, 0, 0, i32::MAX as int) {
        Err(e) => Err(e),
        Ok(size) => match header_spec(lines, 1, i32::MIN as int, i32::MAX as int) {
            Err(e) => Err(e),
            Ok(overlap) => match header_spec(lines, 2, i32::MIN as int, i32::MAX as int) {
                Err(e) => Err(e),
                Ok(tile_size) => match tiles_spec(lines, (size.x * size.y) as nat, size, overlap, tile_size) {
                    Err(e) => Err(e),
                    Ok(tiles) => Ok(TileMapView { tiles, size, overlap, tile_size }),
                },
            },
        },
    }
}

/// The views of a vector of character vectors.
pub open spec fn seqs_of(v: Seq<Vec<char>>) -> Seq<Seq<char>> {
    v.map_values(|x: Vec<char>| x@)
}

/// The characters of a string.
fn chars_of(s: &str) -> (r: Vec<char>)
    ensures
        r@ == s@,
{
    broadcast use vstd::string::group_string_axioms;

    let mut it = s.chars();
    let mut out: Vec<char> = Vec::new();
    loop
        invariant
            out@ + it.remaining() == s@,
            it.decrease() is Some,
        ensures
            out@ == s@,
        decreases it.decrease()->0,
    {
        match it.next() {
            Some(c) => {
                out.push(c);
                assert(out@ + it.remaining() =~= s@);
            },
            None => {
                assert(out@ =~= s@);
                break;
            },
        }
    }
    out
}

/// The lines of a text, as `text_lines` gives them.
fn lines_of(s: &Vec<char>) -> (r: Vec<Vec<char>>)
    ensures
        seqs_of(r@) == text_lines(s@),
{
    let mut lines: Vec<Vec<char>> = Vec::new();
    let mut cur: Vec<char> = Vec::new();
    let mut i: usize = 0;
    while i < s.len()
        invariant
            i <= s@.len(),
            split_char(s@.take(i as int), '\n').len() >= 1,
            seqs_of(lines@) == split_char(s@.take(i as int), '\n').drop_last().map_values(
                |l: Seq<char>| strip_cr(l),
            ),
            cur@ == split_char(s@.take(i as int), '\n').last(),
        decreases s@.len() - i,
    {
        let ghost prev = split_char(s@.take(i as int), '\n');
        let c = s[i];
        assert(s@.take(i + 1).drop_last() =~= s@.take(i as int));
        let ghost next = split_char(s@.take(i + 1), '\n');
        if c == '\n' {
            assert(next == prev.push(Seq::empty()));
            if cur.len() > 0 && cur[cur.len() - 1] == '\r' {
                cur.pop();
            }
            let ghost old_lines = lines@;
            lines.push(cur);
            cur = Vec::new();
            assert(next.drop_last() == prev);
            assert(seqs_of(lines@) =~= seqs_of(old_lines).push(strip_cr(prev.last())));
            assert(prev.map_values(|l: Seq<char>| strip_cr(l)) =~= prev.drop_last().map_values(
                |l: Seq<char>| strip_cr(l),
            ).push(strip_cr(prev.last())));
        } else {
            cur.push(c);
            assert(next == prev.update(prev.len() - 1, prev.last().push(c)));
            assert(next.drop_last() =~= prev.drop_last());
        }
        i = i + 1;
    }
    assert(s@.take(s@.len() as int) =~= s@);
    if cur.len() > 0 {
        lines.push(cur);
        proof {
            let p = split_char(s@, '\n');
            assert(seqs_of(lines@) =~= p.drop_last().map_values(|l: Seq<char>| strip_cr(l)).push(
                p.last(),
            ));
        }
    }
    lines
}

/// The pieces of `s` between the occurrences of the separator `a b`.
fn split_at_pair(s: &Vec<char>, a: char, b: char) -> (r: Vec<Vec<char>>)
    ensures
        seqs_of(r@) == split_pair(s@, a, b),
        r@.len() >= 1,
{
    let mut pieces: Vec<Vec<char>> = Vec::new();
    let mut cur: Vec<char> = Vec::new();
    let mut i: usize = 0;
    while i < s.len()
        invariant
            i <= s@.len(),
            seqs_of(pieces@).push(cur@) == split_pair(s@.take(i as int), a, b),
        decreases s@.len() - i,
    {
        let ghost prev = split_pair(s@.take(i as int), a, b);
        let c = s[i];
        assert(s@.take(i + 1).drop_last() =~= s@.take(i as int));
        if c == b && cur.len() > 0 && cur[cur.len() - 1] == a {
            cur.pop();
            let ghost old_pieces = pieces@;
            pieces.push(cur);
            cur = Vec::new();
            assert(seqs_of(pieces@).push(cur@) =~= prev.update(
                prev.len() - 1,
                prev.last().drop_last(),
            ).push(Seq::empty()));
        } else {
            cur.push(c);
            assert(seqs_of(pieces@).push(cur@) =~= prev.update(prev.len() - 1, prev.last().push(c)));
        }
        i = i + 1;
    }
    assert(s@.take(s@.len() as int) =~= s@);
    pieces.push(cur);
    pieces
}

proof fn lemma_digits_nonneg(d: Seq<char>)
    requires
        forall|i: int| 0 <= i < d.len() ==> is_digit(#[trigger] d[i]),
    ensures
        digits_value(d) >= 0,
    decreases d.len(),
{
    if d.len() > 0 {
        lemma_digits_nonneg(d.drop_last());
    }
}

/// A string of digits writes at least as much as each of its prefixes.
proof fn lemma_digits_prefix(d: Seq<char>, k: int)
    requires
        0 <= k <= d.len(),
        forall|i: int| 0 <= i < d.len() ==> is_digit(#[trigger] d[i]),
    ensures
        digits_value(d.take(k)) <= digits_value(d),
    decreases d.len(),
{
    if k < d.len() {
        let e = d.drop_last();
        assert(e.take(k) =~= d.take(k));
        lemma_digits_prefix(e, k);
        lemma_digits_nonneg(e);
    } else {
        assert(d.take(k) =~= d);
    }
}

/// Reads `t` as an integer in `lo..=hi`.
fn parse_int(t: &Vec<char>, lo: i64, hi: i64) -> (r: Option<i64>)
    requires
        i32::MIN <= lo <= 0 <= hi <= i32::MAX,
    ensures
        match r {
            Some(v) => int_in(t@, lo as int, hi as int) == Some(v as int),
            None => int_in(t@, lo as int, hi as int) is None,
        },
{
    let n = t.len();
    if n == 0 {
        return None;
    }
    let first = t[0];
    let neg = first == '-';
    let start: usize = if first == '-' || first == '+' {
        1
    } else {
        0
    };
    if start >= n {
        assert(t@.drop_first().len() == 0);
        return None;
    }
    let ghost d = t@.subrange(start as int, n as int);
    assert(start == 1 ==> d =~= t@.drop_first());
    assert(start == 0 ==> d =~= t@);
    let bound: i64 = if neg {
        -lo
    } else {
        hi
    };
    let mut acc: i64 = 0;
    let mut i: usize = start;
    while i < n
        invariant
            n == t@.len(),
            start <= i <= n,
            start < n,
            start <= 1,
            d == t@.subrange(start as int, n as int),
            start == 1 ==> d == t@.drop_first() && (t@[0] == '-' || t@[0] == '+'),
            start == 0 ==> d == t@ && !(t@[0] == '-' || t@[0] == '+'),
            neg == (t@[0] == '-'),
            neg ==> bound == -lo,
            !neg ==> bound == hi,
            0 <= bound <= 0x8000_0000,
            0 <= acc <= bound,
            acc == digits_value(d.take(i - start)),
            forall|j: int| 0 <= j < i - start ==> is_digit(#[trigger] d[j]),
        decreases n - i,
    {
        let c = t[i];
        if !('0' <= c && c <= '9') {
            assert(!is_digit(d[i - start]));
            return None;
        }
        let ghost k = i - start;
        assert(d.take(k + 1).drop_last() =~= d.take(k));
        acc = acc * 10 + (c as i64 - '0' as i64);
        assert(d.take(k + 1).last() == c);
        assert(acc == digits_value(d.take(k + 1)));
        i = i + 1;
        if acc > bound {
            proof {
                if all_digits(d) {
                    lemma_digits_prefix(d, k + 1);
                }
            }
            return None;
        }
    }
    assert(d.take(n - start) =~= d);
    if neg {
        Some(-acc)
    } else {
        Some(acc)
    }
}

/// Reads `t` as `true` or `false`.
fn parse_bool(t: &Vec<char>) -> (r: Option<bool>)
    ensures
        r == bool_value(t@),
{
    if t.len() == 4 && t[0] == 't' && t[1] == 'r' && t[2] == 'u' && t[3] == 'e' {
        assert(t@ =~= seq!['t', 'r', 'u', 'e']);
        Some(true)
    } else if t.len() == 5 && t[0] == 'f' && t[1] == 'a' && t[2] == 'l' && t[3] == 's' && t[4] == 'e' {
        assert(t@ =~= seq!['f', 'a', 'l', 's', 'e']);
        Some(false)
    } else {
        proof {
            if t@ == seq!['t', 'r', 'u', 'e'] {
                assert(t@[0] == 't' && t@[1] == 'r' && t@[2] == 'u' && t@[3] == 'e');
            }
            if t@ == seq!['f', 'a', 'l', 's', 'e'] {
                assert(t@[0] == 'f' && t@[1] == 'a' && t@[2] == 'l' && t@[3] == 's' && t@[4] == 'e');
            }
        }
        None
    }
}

/// The fields of a line, as `line_fields` gives them.
fn fields_of(line: &Vec<char>) -> (r: Vec<Vec<char>>)
    ensures
        seqs_of(r@) == line_fields(line@),
        r@.len() >= 1,
{
    let mut parts = split_at_pair(line, ':', ' ');
    let ghost p = seqs_of(parts@);
    match parts.pop() {
        Some(value) => {
            assert(value@ == p.last());
            split_at_pair(&value, ',', ' ')
        },
        None => {
            Vec::new()
        },
    }
}

/// Relies on `String`'s `FromIterator<&char>`: the string holds the
/// characters in their order.
#[verifier::external_body]
fn string_of(chars: &Vec<char>) -> (r: String)
    ensures
        r@ == chars@,
{
    chars.iter().collect()
}

/// The fields of line `i`.
fn fields_at(lines: &Vec<Vec<char>>, i: u64) -> (r: Result<Vec<Vec<char>>, ParseError>)
    requires
        i < u64::MAX,
    ensures
        match r {
            Ok(f) => i < lines@.len() && seqs_of(f@) == line_fields(seqs_of(lines@)[i as int])
                && f@.len() >= 1,
            Err(e) => i >= lines@.len() && e == parse_error(i + 1, 0, ParseErrorKind::MissingLine),
        },
{
    if i >= lines.len() as u64 {
        Err(ParseError { line: i + 1, field: 0, kind: ParseErrorKind::MissingLine })
    } else {
        Ok(fields_of(&lines[i as usize]))
    }
}

/// Field `j` of line `i` read as an integer in `lo..=hi`.
fn int_field(f: &Vec<Vec<char>>, i: u64, j: u64, lo: i64, hi: i64) -> (r: Result<i64, ParseError>)
    requires
        i < u64::MAX,
        j < 4,
        i32::MIN <= lo <= 0 <= hi <= i32::MAX,
    ensures
        match r {
            Ok(v) => int_in_fields(seqs_of(f@), i as int, j as int, lo as int, hi as int) == Ok::<
                int,
                ParseError,
            >(v as int),
            Err(e) => int_in_fields(seqs_of(f@), i as int, j as int, lo as int, hi as int) == Err::<
                int,
                ParseError,
            >(e),
        },
{
    if j >= f.len() as u64 {
        return Err(ParseError { line: i + 1, field: j + 1, kind: ParseErrorKind::MissingField });
    }
    match parse_int(&f[j as usize], lo, hi) {
        Some(v) => Ok(v),
        None => Err(ParseError { line: i + 1, field: j + 1, kind: ParseErrorKind::BadNumber }),
    }
}

/// Field `j` of line `i` read as `true` or `false`.
fn bool_field(f: &Vec<Vec<char>>, i: u64, j: u64) -> (r: Result<bool, ParseError>)
    requires
        i < u64::MAX,
        j < 4,
    ensures
        r == bool_in_fields(seqs_of(f@), i as int, j as int),
{
    if j >= f.len() as u64 {
        return Err(ParseError { line: i + 1, field: j + 1, kind: ParseErrorKind::MissingField });
    }
    match parse_bool(&f[j as usize]) {
        Some(v) => Ok(v),
        None => Err(ParseError { line: i + 1, field: j + 1, kind: ParseErrorKind::BadBool }),
    }
}

/// Header line `i`: two integers in `lo..=hi`.
fn read_header(lines: &Vec<Vec<char>>, i: u64, lo: i64, hi: i64) -> (r: Result<Vec2, ParseError>)
    requires
        i < 3,
        i32::MIN <= lo <= 0 <= hi <= i32::MAX,
    ensures
        r == header_spec(seqs_of(lines@), i as int, lo as int, hi as int),
        r matches Ok(v) ==> lo <= v.x <= hi && lo <= v.y <= hi,
{
    let f = match fields_at(lines, i) {
        Ok(f) => f,
        Err(e) => return Err(e),
    };
    let x = match int_field(&f, i, 0, lo, hi) {
        Ok(x) => x,
        Err(e) => return Err(e),
    };
    let y = match int_field(&f, i, 1, lo, hi) {
        Ok(y) => y,
        Err(e) => return Err(e),
    };
    Ok(Vec2 { x, y })
}

/// Bounds that a parsed header keeps.
pub open spec fn headers_wf(size: Vec2, overlap: Vec2, tile_size: Vec2) -> bool {
    &&& 0 <= size.x <= i32::MAX
    &&& 0 <= size.y <= i32::MAX
    &&& i32::MIN <= overlap.x <= i32::MAX
    &&& i32::MIN <= overlap.y <= i32::MAX
    &&& i32::MIN <= tile_size.x <= i32::MAX
    &&& i32::MIN <= tile_size.y <= i32::MAX
}

proof fn lemma_tiles_len(lines: Seq<Seq<char>>, n: nat, size: Vec2, overlap: Vec2, tile_size: Vec2)
    ensures
        tiles_spec(lines, n, size, overlap, tile_size) matches Ok(ts) ==> ts.len() == n,
    decreases n,
{
    if n > 0 {
        lemma_tiles_len(lines, (n - 1) as nat, size, overlap, tile_size);
    }
}

/// Once a cell fails, every longer run of cells fails with the same error.
proof fn lemma_tiles_err(lines: Seq<Seq<char>>, k: nat, n: nat, size: Vec2, overlap: Vec2, tile_size: Vec2)
    requires
        k <= n,
        tiles_spec(lines, k, size, overlap, tile_size) is Err,
    ensures
        tiles_spec(lines, n, size, overlap, tile_size) == tiles_spec(lines, k, size, overlap, tile_size),
    decreases n - k,
{
    if k < n {
        lemma_tiles_err(lines, k, (n - 1) as nat, size, overlap, tile_size);
    }
}

/// The tile of cell `k`, from line `3 + k`.
fn read_tile(lines: &Vec<Vec<char>>, k: u64, size: Vec2, overlap: Vec2, tile_size: Vec2) -> (r: Result<Tile, ParseError>)
    requires
        headers_wf(size, overlap, tile_size),
        k < size.x * size.y,
    ensures
        match r {
            Ok(t) => tile_spec(seqs_of(lines@), k as int, size, overlap, tile_size) == Ok::<
                TileView,
                ParseError,
            >(t@),
            Err(e) => tile_spec(seqs_of(lines@), k as int, size, overlap, tile_size) == Err::<
                TileView,
                ParseError,
            >(e),
        },
{
    proof {
        assert(size.x * size.y <= 0x7fff_ffff * 0x7fff_ffff) by (nonlinear_arith)
            requires
                0 <= size.x <= 0x7fff_ffff,
                0 <= size.y <= 0x7fff_ffff,
        ;
        assert(size.x > 0) by (nonlinear_arith)
            requires
                0 <= k < size.x * size.y,
                size.y >= 0,
        ;
    }
    let i = k + 3;
    let f = match fields_at(lines, i) {
        Ok(f) => f,
        Err(e) => return Err(e),
    };
    let texture = string_of(&f[0]);
    let rotation = match int_field(&f, i, 1, i32::MIN as i64, i32::MAX as i64) {
        Ok(v) => v,
        Err(e) => return Err(e),
    };
    let z = match int_field(&f, i, 2, i8::MIN as i64, i8::MAX as i64) {
        Ok(v) => v,
        Err(e) => return Err(e),
    };
    let travel = match bool_field(&f, i, 3) {
        Ok(v) => v,
        Err(e) => return Err(e),
    };
    let kk = k as i64;
    let col = kk % size.x;
    let row = kk / size.x;
    let sx = tile_size.x - overlap.x;
    let sy = tile_size.y - overlap.y;
    proof {
        assert(0 <= row < size.y) by (nonlinear_arith)
            requires
                row == kk / size.x,
                0 <= kk < size.x * size.y,
                size.x > 0,
        ;
        assert(-0x8000_0000_0000_0000 < col * sx < 0x8000_0000_0000_0000) by (nonlinear_arith)
            requires
                0 <= col < 0x8000_0000,
                -0x1_0000_0000 < sx < 0x1_0000_0000,
        ;
        assert(-0x8000_0000_0000_0000 < row * sy < 0x8000_0000_0000_0000) by (nonlinear_arith)
            requires
                0 <= row < 0x8000_0000,
                -0x1_0000_0000 < sy < 0x1_0000_0000,
        ;
    }
    let position = Vec2 { x: col * sx, y: row * sy };
    let t = Tile::new(position, tile_size, rotation, texture, z as i8, travel);
    assert(f@[0]@ == seqs_of(f@)[0]);
    Ok(t)
}

impl TileMap {
    /// Parses a level's text. On success the map is what `parse_level` gives
    /// of the text; otherwise the error names the first faulty line and field.
    /// The text is left as it was.
    pub fn from_string(data: &mut String) -> (r: Result<TileMap, ParseError>)
        ensures
            *final(data) == *old(data),
            match r {
                Ok(m) => parse_level(old(data)@) == Ok::<TileMapView, ParseError>(m@) && map_wf(m@),
                Err(e) => parse_level(old(data)@) == Err::<TileMapView, ParseError>(e),
            },
    {
        let chars = chars_of(data.as_str());
        let lines = lines_of(&chars);
        let ghost ls = seqs_of(lines@);
        let size = match read_header(&lines, 0, 0, i32::MAX as i64) {
            Ok(v) => v,
            Err(e) => return Err(e),
        };
        let overlap = match read_header(&lines, 1, i32::MIN as i64, i32::MAX as i64) {
            Ok(v) => v,
            Err(e) => return Err(e),
        };
        let tile_size = match read_header(&lines, 2, i32::MIN as i64, i32::MAX as i64) {
            Ok(v) => v,
            Err(e) => return Err(e),
        };
        proof {
            assert(size.x * size.y <= 0x7fff_ffff * 0x7fff_ffff) by (nonlinear_arith)
                requires
                    0 <= size.x <= 0x7fff_ffff,
                    0 <= size.y <= 0x7fff_ffff,
            ;
            assert(size.x * size.y >= 0) by (nonlinear_arith)
                requires
                    0 <= size.x,
                    0 <= size.y,
            ;
        }
        let n = (size.x * size.y) as u64;
        let mut tiles: Vec<Tile> = Vec::new();
        let mut k: u64 = 0;
        assert(tiles@.map_values(|t: Tile| t@) =~= Seq::<TileView>::empty());
        while k < n
            invariant
                ls == seqs_of(lines@),
                ls == text_lines(old(data)@),
                *data == *old(data),
                header_spec(ls, 0, 0, i32::MAX as int) == Ok::<Vec2, ParseError>(size),
                header_spec(ls, 1, i32::MIN as int, i32::MAX as int) == Ok::<Vec2, ParseError>(overlap),
                header_spec(ls, 2, i32::MIN as int, i32::MAX as int) == Ok::<Vec2, ParseError>(tile_size),
                headers_wf(size, overlap, tile_size),
                n == size.x * size.y,
                k <= n,
                tiles_spec(ls, k as nat, size, overlap, tile_size) == Ok::<Seq<TileView>, ParseError>(
                    tiles@.map_values(|t: Tile| t@),
                ),
            decreases n - k,
        {
            match read_tile(&lines, k, size, overlap, tile_size) {
                Ok(t) => {
                    let ghost tv = t@;
                    let ghost before = tiles@;
                    tiles.push(t);
                    assert(tiles@.map_values(|t: Tile| t@) =~= before.map_values(|t: Tile| t@).push(tv));
                },
                Err(e) => {
                    proof {
                        assert(tiles_spec(ls, (k + 1) as nat, size, overlap, tile_size) == Err::<
                            Seq<TileView>,
                            ParseError,
                        >(e));
                        lemma_tiles_err(ls, (k + 1) as nat, n as nat, size, overlap, tile_size);
                    }
                    return Err(e);
                },
            }
            k = k + 1;
        }
        let m = TileMap { tiles, size, overlap, tile_size };
        proof {
            lemma_tiles_len(ls, n as nat, size, overlap, tile_size);
        }
        assert(m@.tiles.len() == n);
        Ok(m)
    }
}

} // verus!
