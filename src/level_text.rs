//! The level text of a map, and the proof that parsing it gives the map back.
use vstd::prelude::*;
use crate::geom::{Rect, Vec2};
use crate::level::{
    ParseError, all_digits, bool_value, cell_position, digits_value, header_spec, int_value,
    is_digit, line_fields, parse_level, split_char, split_pair, strip_cr, text_lines, tile_spec,
    tiles_spec,
};
use crate::map::{TileMapView, TileView, map_wf};

verus! {

/// The decimal digit for `d` in `0..10`.
pub open spec fn digit_char(d: int) -> char {
    if d == 0 {
        '0'
    } else if d == 1 {
        '1'
    } else if d == 2 {
        '2'
    } else if d == 3 {
        '3'
    } else if d == 4 {
        '4'
    } else if d == 5 {
        '5'
    } else if d == 6 {
        '6'
    } else if d == 7 {
        '7'
    } else if d == 8 {
        '8'
    } else {
        '9'
    }
}

/// The decimal digits of `n`, without leading zeros.
pub open spec fn nat_text(n: nat) -> Seq<char>
    decreases n,
{
    if n < 10 {
        seq![digit_char(n as int)]
    } else {
        nat_text(n / 10).push(digit_char((n % 10) as int))
    }
}

/// `n` in decimal, with a `-` where it is negative.
pub open spec fn int_text(n: int) -> Seq<char> {
    if n < 0 {
        seq!['-'] + nat_text((-n) as nat)
    } else {
        nat_text(n as nat)
    }
}

pub open spec fn bool_text(b: bool) -> Seq<char> {
    if b {
        seq!['t', 'r', 'u', 'e']
    } else {
        seq!['f', 'a', 'l', 's', 'e']
    }
}

/// The pieces `ps` with the separator `a b` between each two.
pub open spec fn join_pair(ps: Seq<Seq<char>>, a: char, b: char) -> Seq<char>
    decreases ps.len(),
{
    if ps.len() == 0 {
        Seq::empty()
    } else if ps.len() == 1 {
        ps[0]
    } else {
        join_pair(ps.drop_last(), a, b) + seq![a, b] + ps.last()
    }
}

/// Lines, each ended by `\n`.
pub open spec fn lines_text(ls: Seq<Seq<char>>) -> Seq<char>
    decreases ls.len(),
{
    if ls.len() == 0 {
        Seq::empty()
    } else {
        lines_text(ls.drop_last()) + ls.last().push('\n')
    }
}

/// `s` holds no `a` directly followed by `b`.
pub open spec fn no_pair(s: Seq<char>, a: char, b: char) -> bool {
    forall|i: int| 0 <= i < s.len() - 1 ==> !(#[trigger] s[i] == a && s[i + 1] == b)
}

/// `s` holds none of the characters that the format gives a meaning to.
pub open spec fn plain(s: Seq<char>) -> bool {
    forall|i: int| 0 <= i < s.len() ==> #[trigger] s[i] != '\n' && s[i] != ':' && s[i] != ','
}

/// `s` does not hold `c`.
pub open spec fn lacks(s: Seq<char>, c: char) -> bool {
    forall|i: int| 0 <= i < s.len() ==> #[trigger] s[i] != c
}

proof fn lemma_split_pair_len(s: Seq<char>, a: char, b: char)
    ensures
        split_pair(s, a, b).len() >= 1,
    decreases s.len(),
{
    if s.len() > 0 {
        lemma_split_pair_len(s.drop_last(), a, b);
    }
}

proof fn lemma_split_char_len(s: Seq<char>, c: char)
    ensures
        split_char(s, c).len() >= 1,
    decreases s.len(),
{
    if s.len() > 0 {
        lemma_split_char_len(s.drop_last(), c);
    }
}

/// Characters that form no separator only lengthen the last piece.
proof fn lemma_split_pair_append(s: Seq<char>, t: Seq<char>, a: char, b: char)
    requires
        a != b,
        no_pair(split_pair(s, a, b).last() + t, a, b),
    ensures
        split_pair(s + t, a, b) == split_pair(s, a, b).update(
            split_pair(s, a, b).len() - 1,
            split_pair(s, a, b).last() + t,
        ),
    decreases t.len(),
{
    let p = split_pair(s, a, b);
    lemma_split_pair_len(s, a, b);
    let l = p.last();
    if t.len() == 0 {
        assert(s + t =~= s);
        assert(l + t =~= l);
        assert(p.update(p.len() - 1, l) =~= p);
    } else {
        let t1 = t.drop_last();
        assert forall|i: int| 0 <= i < (l + t1).len() - 1 implies !(#[trigger] (l + t1)[i] == a && (l
            + t1)[i + 1] == b) by {
            assert((l + t1)[i] == (l + t)[i]);
            assert((l + t1)[i + 1] == (l + t)[i + 1]);
        }
        lemma_split_pair_append(s, t1, a, b);
        assert((s + t).drop_last() =~= s + t1);
        let q = split_pair(s + t1, a, b);
        assert(q.last() == l + t1);
        if t.last() == b && (l + t1).len() > 0 && (l + t1).last() == a {
            let i = (l + t1).len() - 1;
            assert((l + t)[i] == a && (l + t)[i + 1] == b);
        }
        assert((l + t1).push(t.last()) =~= l + t);
        assert(q.update(q.len() - 1, (l + t1).push(t.last())) =~= p.update(p.len() - 1, l + t));
    }
}

/// The separator ends the last piece and starts an empty one.
proof fn lemma_split_pair_sep(s: Seq<char>, a: char, b: char)
    requires
        a != b,
    ensures
        split_pair(s + seq![a, b], a, b) == split_pair(s, a, b).push(Seq::empty()),
{
    let p = split_pair(s, a, b);
    lemma_split_pair_len(s, a, b);
    let sa = s + seq![a];
    assert((s + seq![a, b]).drop_last() =~= sa);
    assert(sa.drop_last() =~= s);
    let q = split_pair(sa, a, b);
    assert(q == p.update(p.len() - 1, p.last().push(a)));
    assert(q.last().drop_last() =~= p.last());
    assert(q.update(q.len() - 1, q.last().drop_last()) =~= p);
}

/// Splitting pieces joined by a separator that none of them holds gives
/// the pieces back.
proof fn lemma_split_pair_join(ps: Seq<Seq<char>>, a: char, b: char)
    requires
        a != b,
        ps.len() >= 1,
        forall|i: int| 0 <= i < ps.len() ==> no_pair(#[trigger] ps[i], a, b),
    ensures
        split_pair(join_pair(ps, a, b), a, b) == ps,
    decreases ps.len(),
{
    let e = Seq::<char>::empty();
    if ps.len() == 1 {
        assert(split_pair(e, a, b) == seq![e]);
        assert(e + ps[0] =~= ps[0]);
        lemma_split_pair_append(e, ps[0], a, b);
        assert(seq![e].update(0, ps[0]) =~= ps);
    } else {
        let rest = ps.drop_last();
        lemma_split_pair_join(rest, a, b);
        let j = join_pair(rest, a, b);
        lemma_split_pair_sep(j, a, b);
        assert(e + ps.last() =~= ps.last());
        lemma_split_pair_append(j + seq![a, b], ps.last(), a, b);
        assert(rest.push(e).update(rest.len() as int, ps.last()) =~= ps);
    }
}

/// Characters other than `c` only lengthen the last piece.
proof fn lemma_split_char_append(s: Seq<char>, t: Seq<char>, c: char)
    requires
        forall|i: int| 0 <= i < t.len() ==> #[trigger] t[i] != c,
    ensures
        split_char(s + t, c) == split_char(s, c).update(
            split_char(s, c).len() - 1,
            split_char(s, c).last() + t,
        ),
    decreases t.len(),
{
    let p = split_char(s, c);
    lemma_split_char_len(s, c);
    if t.len() == 0 {
        assert(s + t =~= s);
        assert(p.last() + t =~= p.last());
        assert(p.update(p.len() - 1, p.last()) =~= p);
    } else {
        let t1 = t.drop_last();
        lemma_split_char_append(s, t1, c);
        assert((s + t).drop_last() =~= s + t1);
        let q = split_char(s + t1, c);
        assert((p.last() + t1).push(t.last()) =~= p.last() + t);
        assert(q.update(q.len() - 1, (p.last() + t1).push(t.last())) =~= p.update(
            p.len() - 1,
            p.last() + t,
        ));
    }
}

/// Lines without `\n`, each ended by one, split back into themselves and a
/// last empty piece.
proof fn lemma_split_lines(ls: Seq<Seq<char>>)
    requires
        forall|i: int, j: int| 0 <= i < ls.len() && 0 <= j < ls[i].len() ==> #[trigger] ls[i][j] != '\n',
    ensures
        split_char(lines_text(ls), '\n') == ls.push(Seq::empty()),
    decreases ls.len(),
{
    if ls.len() > 0 {
        let rest = ls.drop_last();
        let l = ls.last();
        lemma_split_lines(rest);
        let j = lines_text(rest);
        lemma_split_char_append(j, l, '\n');
        assert(lines_text(ls) == j + l.push('\n'));
        assert((j + l).push('\n') =~= j + l.push('\n'));
        assert((j + l.push('\n')).drop_last() =~= j + l);
        assert(Seq::<char>::empty() + l =~= l);
        assert(rest.push(Seq::empty()).update(rest.len() as int, l) =~= ls);
    } else {
        assert(split_char(Seq::empty(), '\n') == seq![Seq::<char>::empty()]);
        assert(ls.push(Seq::empty()) =~= seq![Seq::<char>::empty()]);
    }
}

/// The lines of the text of some lines are those lines, where none holds
/// `\n` or ends in `\r`.
proof fn lemma_text_lines(ls: Seq<Seq<char>>)
    requires
        forall|i: int, j: int| 0 <= i < ls.len() && 0 <= j < ls[i].len() ==> #[trigger] ls[i][j] != '\n',
        forall|i: int| 0 <= i < ls.len() ==> strip_cr(#[trigger] ls[i]) == ls[i],
    ensures
        text_lines(lines_text(ls)) == ls,
{
    lemma_split_lines(ls);
    let p = ls.push(Seq::empty());
    assert(p.drop_last() =~= ls);
    assert(ls.map_values(|l: Seq<char>| strip_cr(l)) =~= ls);
}

proof fn lemma_digit_char(d: int)
    requires
        0 <= d < 10,
    ensures
        is_digit(digit_char(d)),
        digit_char(d) as int - '0' as int == d,
{
}

/// The text of a number reads back as that number.
proof fn lemma_nat_text(n: nat)
    ensures
        all_digits(nat_text(n)),
        digits_value(nat_text(n)) == n,
    decreases n,
{
    let t = nat_text(n);
    if n < 10 {
        lemma_digit_char(n as int);
        assert(t.drop_last() =~= Seq::<char>::empty());
        assert(t.last() == digit_char(n as int));
        assert(digits_value(t) == digits_value(t.drop_last()) * 10 + (t.last() as int - '0' as int));
    } else {
        lemma_nat_text(n / 10);
        lemma_digit_char((n % 10) as int);
        assert(t.drop_last() =~= nat_text(n / 10));
        vstd::arithmetic::div_mod::lemma_fundamental_div_mod(n as int, 10);
        assert(t.last() == digit_char((n % 10) as int));
        assert(digits_value(t) == digits_value(t.drop_last()) * 10 + (t.last() as int - '0' as int));
        assert(digits_value(t) == (n / 10) * 10 + n % 10);
        assert forall|i: int| 0 <= i < t.len() implies is_digit(#[trigger] t[i]) by {
            if i < t.len() - 1 {
                assert(t[i] == nat_text(n / 10)[i]);
            }
        }
    }
}

proof fn lemma_digits_plain(t: Seq<char>)
    requires
        forall|i: int| 0 <= i < t.len() ==> is_digit(#[trigger] t[i]),
    ensures
        plain(t),
{
}

proof fn lemma_int_text(n: int)
    ensures
        int_value(int_text(n)) == Some(n),
        plain(int_text(n)),
        int_text(n).len() > 0,
        int_text(n).last() != '\r',
{
    let t = int_text(n);
    if n < 0 {
        let m = (-n) as nat;
        lemma_nat_text(m);
        lemma_digits_plain(nat_text(m));
        assert(t.drop_first() =~= nat_text(m));
        assert(t.last() == nat_text(m).last());
        assert forall|i: int| 0 <= i < t.len() implies #[trigger] t[i] != '\n' && t[i] != ':' && t[i]
            != ',' by {
            if i > 0 {
                assert(t[i] == nat_text(m)[i - 1]);
            }
        }
    } else {
        lemma_nat_text(n as nat);
        lemma_digits_plain(t);
        assert(is_digit(t[0]));
        assert(is_digit(t.last()));
    }
}

proof fn lemma_plain_no_pair(s: Seq<char>, b: char)
    requires
        plain(s),
    ensures
        no_pair(s, ':', b),
        no_pair(s, ',', b),
{
    assert forall|i: int| 0 <= i < s.len() - 1 implies !(#[trigger] s[i] == ':' && s[i + 1] == b) by {
        assert(s[i] != ':');
    }
    assert forall|i: int| 0 <= i < s.len() - 1 implies !(#[trigger] s[i] == ',' && s[i + 1] == b) by {
        assert(s[i] != ',');
    }
}

/// Neither part holds the pair, nor does their joint.
proof fn lemma_no_pair_concat(s: Seq<char>, t: Seq<char>, a: char, b: char)
    requires
        no_pair(s, a, b),
        no_pair(t, a, b),
        s.len() > 0 && t.len() > 0 ==> !(s.last() == a && t[0] == b),
    ensures
        no_pair(s + t, a, b),
{
    let u = s + t;
    assert forall|i: int| 0 <= i < u.len() - 1 implies !(#[trigger] u[i] == a && u[i + 1] == b) by {
        if i + 1 < s.len() {
            assert(u[i] == s[i] && u[i + 1] == s[i + 1]);
        } else if i >= s.len() {
            assert(u[i] == t[i - s.len()] && u[i + 1] == t[i + 1 - s.len()]);
        } else {
            assert(u[i] == s.last() && u[i + 1] == t[0]);
        }
    }
}

/// A character that neither part holds is not in their joint.
proof fn lemma_lacks_concat(s: Seq<char>, t: Seq<char>, c: char)
    requires
        lacks(s, c),
        lacks(t, c),
    ensures
        lacks(s + t, c),
{
    assert forall|i: int| 0 <= i < (s + t).len() implies #[trigger] (s + t)[i] != c by {
        if i < s.len() {
            assert((s + t)[i] == s[i]);
        } else {
            assert((s + t)[i] == t[i - s.len()]);
        }
    }
}

proof fn lemma_join2(x: Seq<char>, y: Seq<char>, a: char, b: char)
    ensures
        join_pair(seq![x, y], a, b) == x + seq![a, b] + y,
{
    assert(seq![x, y].drop_last() =~= seq![x]);
    assert(join_pair(seq![x], a, b) == x);
}

proof fn lemma_join4(w: Seq<char>, x: Seq<char>, y: Seq<char>, z: Seq<char>, a: char, b: char)
    ensures
        join_pair(seq![w, x, y, z], a, b) == w + (seq![a, b] + x + seq![a, b] + y + seq![a, b] + z),
{
    assert(seq![w, x, y, z].drop_last() =~= seq![w, x, y]);
    assert(seq![w, x, y].drop_last() =~= seq![w, x]);
    lemma_join2(w, x, a, b);
    assert(join_pair(seq![w, x, y], a, b) == join_pair(seq![w, x], a, b) + seq![a, b] + y);
    assert(w + seq![a, b] + x + seq![a, b] + y + seq![a, b] + z =~= w + (seq![a, b] + x + seq![a,
        b] + y + seq![a, b] + z));
}

/// A header line: `<label>: <x>, <y>`.
pub open spec fn header_line(label: Seq<char>, v: Vec2) -> Seq<char> {
    join_pair(
        seq![label, join_pair(seq![int_text(v.x as int), int_text(v.y as int)], ',', ' ')],
        ':',
        ' ',
    )
}

pub open spec fn tile_label() -> Seq<char> {
    seq!['t', 'i', 'l', 'e']
}

/// A tile line: `tile: <texture>, <rotation>, <depth>, <travel>`.
pub open spec fn tile_line(t: TileView) -> Seq<char> {
    join_pair(
        seq![
            tile_label(),
            join_pair(
                seq![t.texture, int_text(t.rotation as int), int_text(t.z as int), bool_text(t.travel)],
                ',',
                ' ',
            ),
        ],
        ':',
        ' ',
    )
}

/// The lines of a map's level text: the three headers, then its tiles in order.
pub open spec fn level_lines(m: TileMapView) -> Seq<Seq<char>> {
    seq![
        header_line(seq!['s', 'i', 'z', 'e'], m.size),
        header_line(seq!['o', 'v', 'e', 'r', 'l', 'a', 'p'], m.overlap),
        header_line(tile_label(), m.tile_size),
    ] + m.tiles.map_values(|t: TileView| tile_line(t))
}

/// The text of a map in the level format, each line ended by `\n`.
pub open spec fn level_text(m: TileMapView) -> Seq<char> {
    lines_text(level_lines(m))
}

/// A texture name that a tile line can carry: it holds no line break and
/// neither separator of the format.
pub open spec fn texture_writable(s: Seq<char>) -> bool {
    &&& no_pair(s, ':', ' ')
    &&& no_pair(s, ',', ' ')
    &&& lacks(s, '\n')
}

/// Tile `k` of `m` is one that the level format describes: its rotation fits
/// the format's range, its rectangle is the one its cell gives, and its
/// texture name can be written.
pub open spec fn tile_writable(m: TileMapView, k: int) -> bool {
    let t = m.tiles[k];
    &&& i32::MIN <= t.rotation <= i32::MAX
    &&& t.shape == (Rect { pos: cell_position(k, m.size, m.overlap, m.tile_size), size: m.tile_size })
    &&& texture_writable(t.texture)
}

/// A map that the level format can describe.
pub open spec fn describable(m: TileMapView) -> bool {
    &&& map_wf(m)
    &&& forall|k: int| 0 <= k < m.tiles.len() ==> tile_writable(m, k)
}

proof fn lemma_lacks_no_pair(s: Seq<char>, a: char, b: char)
    requires
        lacks(s, a),
    ensures
        no_pair(s, a, b),
{
    assert forall|i: int| 0 <= i < s.len() - 1 implies !(#[trigger] s[i] == a && s[i + 1] == b) by {
        assert(s[i] != a);
    }
}

/// The fields of a header line are its two numbers.
proof fn lemma_header_line(label: Seq<char>, v: Vec2)
    requires
        plain(label),
    ensures
        line_fields(header_line(label, v)) == seq![int_text(v.x as int), int_text(v.y as int)],
        lacks(header_line(label, v), '\n'),
        strip_cr(header_line(label, v)) == header_line(label, v),
{
    let x = int_text(v.x as int);
    let y = int_text(v.y as int);
    lemma_int_text(v.x as int);
    lemma_int_text(v.y as int);
    let cs = seq![',', ' '];
    let ps = seq![':', ' '];
    lemma_join2(x, y, ',', ' ');
    let value = x + cs + y;
    lemma_plain_no_pair(x, ' ');
    lemma_plain_no_pair(y, ' ');
    lemma_split_pair_join(seq![x, y], ',', ' ');
    assert(lacks(cs, ':') && lacks(cs, '\n') && lacks(ps, '\n'));
    lemma_lacks_concat(x, cs, ':');
    lemma_lacks_concat(x + cs, y, ':');
    lemma_lacks_concat(x, cs, '\n');
    lemma_lacks_concat(x + cs, y, '\n');
    lemma_lacks_no_pair(value, ':', ' ');
    lemma_plain_no_pair(label, ' ');
    lemma_split_pair_join(seq![label, value], ':', ' ');
    lemma_join2(label, value, ':', ' ');
    lemma_lacks_concat(label, ps, '\n');
    lemma_lacks_concat(label + ps, value, '\n');
    assert(header_line(label, v).last() == y.last());
}

/// The fields of a tile line are the tile's texture, rotation, depth and
/// travel flag.
proof fn lemma_tile_line(t: TileView)
    requires
        texture_writable(t.texture),
    ensures
        line_fields(tile_line(t)) == seq![
            t.texture,
            int_text(t.rotation as int),
            int_text(t.z as int),
            bool_text(t.travel),
        ],
        lacks(tile_line(t), '\n'),
        strip_cr(tile_line(t)) == tile_line(t),
{
    let w = t.texture;
    let r = int_text(t.rotation as int);
    let z = int_text(t.z as int);
    let b = bool_text(t.travel);
    lemma_int_text(t.rotation as int);
    lemma_int_text(t.z as int);
    let cs = seq![',', ' '];
    let ps = seq![':', ' '];
    let label = tile_label();
    assert(plain(b));
    assert(plain(label));
    lemma_join4(w, r, z, b, ',', ' ');
    let rest = cs + r + cs + z + cs + b;
    let value = w + rest;
    lemma_plain_no_pair(r, ' ');
    lemma_plain_no_pair(z, ' ');
    lemma_plain_no_pair(b, ' ');
    let fs = seq![w, r, z, b];
    assert forall|i: int| 0 <= i < fs.len() implies no_pair(#[trigger] fs[i], ',', ' ') by {}
    lemma_split_pair_join(fs, ',', ' ');
    assert(lacks(cs, ':') && lacks(cs, '\n') && lacks(ps, '\n'));
    lemma_lacks_concat(cs, r, ':');
    lemma_lacks_concat(cs + r, cs, ':');
    lemma_lacks_concat(cs + r + cs, z, ':');
    lemma_lacks_concat(cs + r + cs + z, cs, ':');
    lemma_lacks_concat(cs + r + cs + z + cs, b, ':');
    lemma_lacks_concat(cs, r, '\n');
    lemma_lacks_concat(cs + r, cs, '\n');
    lemma_lacks_concat(cs + r + cs, z, '\n');
    lemma_lacks_concat(cs + r + cs + z, cs, '\n');
    lemma_lacks_concat(cs + r + cs + z + cs, b, '\n');
    lemma_lacks_no_pair(rest, ':', ' ');
    assert(rest[0] == ',');
    lemma_no_pair_concat(w, rest, ':', ' ');
    lemma_lacks_concat(w, rest, '\n');
    lemma_plain_no_pair(label, ' ');
    let ls = seq![label, value];
    assert forall|i: int| 0 <= i < ls.len() implies no_pair(#[trigger] ls[i], ':', ' ') by {}
    lemma_split_pair_join(ls, ':', ' ');
    lemma_join2(label, value, ':', ' ');
    lemma_lacks_concat(label, ps, '\n');
    lemma_lacks_concat(label + ps, value, '\n');
    assert(tile_line(t).last() == b.last());
}

/// Cell `k` of a describable map reads back from its line as the same tile.
proof fn lemma_tile_round_trip(m: TileMapView, k: int)
    requires
        describable(m),
        0 <= k < m.tiles.len(),
    ensures
        tile_spec(level_lines(m), k, m.size, m.overlap, m.tile_size) == Ok::<TileView, ParseError>(
            m.tiles[k],
        ),
{
    let ls = level_lines(m);
    let t = m.tiles[k];
    assert(tile_writable(m, k));
    assert(ls[3 + k] == tile_line(t));
    lemma_tile_line(t);
    lemma_int_text(t.rotation as int);
    lemma_int_text(t.z as int);
}

proof fn lemma_tiles_round_trip(m: TileMapView, n: nat)
    requires
        describable(m),
        n <= m.tiles.len(),
    ensures
        tiles_spec(level_lines(m), n, m.size, m.overlap, m.tile_size) == Ok::<Seq<TileView>, ParseError>(
            m.tiles.take(n as int),
        ),
    decreases n,
{
    if n == 0 {
        assert(m.tiles.take(0) =~= Seq::<TileView>::empty());
    } else {
        lemma_tiles_round_trip(m, (n - 1) as nat);
        lemma_tile_round_trip(m, n - 1);
        assert(m.tiles.take(n - 1).push(m.tiles[n - 1]) =~= m.tiles.take(n as int));
    }
}

/// Writing a map in the level format and parsing the text gives the same
/// map back: the same sizes and the same tiles, field by field, in the same
/// order. This holds of every map that the format can describe.
pub proof fn lemma_parse_round_trip(m: TileMapView)
    requires
        describable(m),
    ensures
        parse_level(level_text(m)) == Ok::<TileMapView, ParseError>(m),
{
    let ls = level_lines(m);
    let size_label = seq!['s', 'i', 'z', 'e'];
    let overlap_label = seq!['o', 'v', 'e', 'r', 'l', 'a', 'p'];
    assert(plain(size_label));
    assert(plain(overlap_label));
    assert(plain(tile_label()));
    lemma_header_line(size_label, m.size);
    lemma_header_line(overlap_label, m.overlap);
    lemma_header_line(tile_label(), m.tile_size);
    assert forall|i: int| 0 <= i < ls.len() implies lacks(#[trigger] ls[i], '\n') && strip_cr(ls[i])
        == ls[i] by {
        if i >= 3 {
            assert(tile_writable(m, i - 3));
            lemma_tile_line(m.tiles[i - 3]);
        }
    }
    assert forall|i: int, j: int| 0 <= i < ls.len() && 0 <= j < ls[i].len() implies #[trigger] ls[i][j]
        != '\n' by {
        assert(lacks(ls[i], '\n'));
    }
    lemma_text_lines(ls);
    lemma_int_text(m.size.x as int);
    lemma_int_text(m.size.y as int);
    lemma_int_text(m.overlap.x as int);
    lemma_int_text(m.overlap.y as int);
    lemma_int_text(m.tile_size.x as int);
    lemma_int_text(m.tile_size.y as int);
    assert(header_spec(ls, 0, 0, i32::MAX as int) == Ok::<Vec2, ParseError>(m.size));
    assert(header_spec(ls, 1, i32::MIN as int, i32::MAX as int) == Ok::<Vec2, ParseError>(m.overlap));
    assert(header_spec(ls, 2, i32::MIN as int, i32::MAX as int) == Ok::<Vec2, ParseError>(m.tile_size));
    lemma_tiles_round_trip(m, m.tiles.len());
    assert(m.tiles.take(m.tiles.len() as int) =~= m.tiles);
}

} // verus!
