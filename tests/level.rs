use ohship::geom::Vec2;
use ohship::level::{ParseError, ParseErrorKind};
use ohship::map::TileMap;

fn parse(text: &str) -> Result<TileMap, ParseError> {
    let mut s = String::from(text);
    let r = TileMap::from_string(&mut s);
    assert_eq!(s, text);
    r
}

#[test]
fn two_by_one_level_parses() {
    let m = parse("size: 2, 1\noverlap: 0, 0\ntile: 32, 32\ntile: grass, 0, 0, true\ntile: wall, 0, 1, false")
        .unwrap();
    assert_eq!(m.size, Vec2 { x: 2, y: 1 });
    assert_eq!(m.tiles.len(), 2);
    assert_eq!(m.tiles[0].shape.pos, Vec2 { x: 0, y: 0 });
    assert_eq!(m.tiles[1].shape.pos, Vec2 { x: 32, y: 0 });
    assert_eq!(m.tiles[0].shape.size, Vec2 { x: 32, y: 32 });
    assert_eq!(m.tiles[0].texture, "grass");
    assert_eq!(m.tiles[1].texture, "wall");
    assert_eq!(m.tiles[0].z, 0);
    assert_eq!(m.tiles[1].z, 1);
    assert!(m.tiles[0].travel);
    assert!(!m.tiles[1].travel);
}

#[test]
fn positions_use_stride_and_rows() {
    let m = parse(
        "size: 2, 2\r\noverlap: 2, 4\r\ntile: 32, 36\r\nt: a, 90, -3, true\r\nt: b, -45, 127, true\r\nt: c, 0, -128, false\r\nt: d, +7, 5, false\r\n",
    )
    .unwrap();
    assert_eq!(m.overlap, Vec2 { x: 2, y: 4 });
    assert_eq!(m.tile_size, Vec2 { x: 32, y: 36 });
    assert_eq!(m.tiles[1].shape.pos, Vec2 { x: 30, y: 0 });
    assert_eq!(m.tiles[2].shape.pos, Vec2 { x: 0, y: 32 });
    assert_eq!(m.tiles[3].shape.pos, Vec2 { x: 30, y: 32 });
    assert_eq!(m.tiles[0].rotation, 90);
    assert_eq!(m.tiles[1].rotation, -45);
    assert_eq!(m.tiles[3].rotation, 7);
    assert_eq!(m.tiles[0].z, -3);
    assert_eq!(m.tiles[1].z, 127);
    assert_eq!(m.tiles[2].z, -128);
    assert_eq!(m.tiles[3].texture, "d");
}

#[test]
fn values_follow_the_last_label_separator_and_extra_fields_are_ignored() {
    let m = parse("a: b: 1, 1\noverlap: 0, 0, 9\ntile: 8, 8\ntile: x:y, 0, 0, true, extra").unwrap();
    assert_eq!(m.size, Vec2 { x: 1, y: 1 });
    assert_eq!(m.tiles[0].texture, "x:y");
}

#[test]
fn empty_grid_needs_no_tile_lines() {
    let m = parse("size: 0, 5\noverlap: 0, 0\ntile: 8, 8\n").unwrap();
    assert_eq!(m.tiles.len(), 0);
}

#[test]
fn missing_line_is_reported() {
    let e = parse("size: 1, 2\noverlap: 0, 0\ntile: 8, 8\ntile: a, 0, 0, true\n").unwrap_err();
    assert_eq!(e, ParseError { line: 5, field: 0, kind: ParseErrorKind::MissingLine });
    let e = parse("").unwrap_err();
    assert_eq!(e, ParseError { line: 1, field: 0, kind: ParseErrorKind::MissingLine });
}

#[test]
fn missing_field_is_reported() {
    let e = parse("size: 1, 1\noverlap: 0\ntile: 8, 8\n").unwrap_err();
    assert_eq!(e, ParseError { line: 2, field: 2, kind: ParseErrorKind::MissingField });
    let e = parse("size: 1, 1\noverlap: 0, 0\ntile: 8, 8\ntile: a, 0, 0\n").unwrap_err();
    assert_eq!(e, ParseError { line: 4, field: 4, kind: ParseErrorKind::MissingField });
}

#[test]
fn bad_numbers_are_reported() {
    let e = parse("size: x, 1\noverlap: 0, 0\ntile: 8, 8\n").unwrap_err();
    assert_eq!(e, ParseError { line: 1, field: 1, kind: ParseErrorKind::BadNumber });
    let e = parse("size: -1, 1\noverlap: 0, 0\ntile: 8, 8\n").unwrap_err();
    assert_eq!(e, ParseError { line: 1, field: 1, kind: ParseErrorKind::BadNumber });
    let e = parse("size: 1, 1\noverlap: 0, 0\ntile: 8, 8.5\n").unwrap_err();
    assert_eq!(e, ParseError { line: 3, field: 2, kind: ParseErrorKind::BadNumber });
    let e = parse("size: 1, 1\noverlap: 0, 0\ntile: 8, 8\ntile: a, 0, 128, true\n").unwrap_err();
    assert_eq!(e, ParseError { line: 4, field: 3, kind: ParseErrorKind::BadNumber });
    let e = parse("size: 1, 1\noverlap: 0, 0\ntile: 8, 8\ntile: a, -, 1, true\n").unwrap_err();
    assert_eq!(e, ParseError { line: 4, field: 2, kind: ParseErrorKind::BadNumber });
    let e = parse("size: 1, 1\noverlap: 0, 0\ntile: 2147483648, 8\n").unwrap_err();
    assert_eq!(e, ParseError { line: 3, field: 1, kind: ParseErrorKind::BadNumber });
    let m = parse("size: 1, 1\noverlap: -2147483648, 0\ntile: 2147483647, 8\ntile: a, 0, 0, true\n").unwrap();
    assert_eq!(m.overlap.x, -2147483648);
    assert_eq!(m.tile_size.x, 2147483647);
}

#[test]
fn bad_bool_is_reported() {
    let e = parse("size: 1, 1\noverlap: 0, 0\ntile: 8, 8\ntile: a, 0, 0, yes\n").unwrap_err();
    assert_eq!(e, ParseError { line: 4, field: 4, kind: ParseErrorKind::BadBool });
}

#[test]
fn first_fault_wins() {
    let e = parse("size: 2, 1\noverlap: 0, 0\ntile: 8, 8\ntile: a, q, 0, yes\ntile: b, 0, 0, no\n").unwrap_err();
    assert_eq!(e, ParseError { line: 4, field: 2, kind: ParseErrorKind::BadNumber });
}

fn level_text(m: &TileMap) -> String {
    let mut s = format!(
        "size: {}, {}\noverlap: {}, {}\ntile: {}, {}\n",
        m.size.x, m.size.y, m.overlap.x, m.overlap.y, m.tile_size.x, m.tile_size.y
    );
    for t in &m.tiles {
        s.push_str(&format!("tile: {}, {}, {}, {}\n", t.texture, t.rotation, t.z, t.travel));
    }
    s
}

#[test]
fn parse_round_trip_keeps_the_grid() {
    let m = parse(
        "size: 3, 2\noverlap: 1, -1\ntile: 10, 12\nt: a, 0, 0, true\nt: b b, 90, -5, false\nt: c,x, 180, 3, true\nt: :d, -90, 0, true\nt: e:, 1, 1, false\nt: f, 2, 2, true\n",
    )
    .unwrap();
    let again = parse(&level_text(&m)).unwrap();
    assert_eq!(again.size, m.size);
    assert_eq!(again.overlap, m.overlap);
    assert_eq!(again.tile_size, m.tile_size);
    assert_eq!(again.tiles.len(), m.tiles.len());
    for (a, b) in again.tiles.iter().zip(m.tiles.iter()) {
        assert_eq!(a.shape, b.shape);
        assert_eq!(a.texture, b.texture);
        assert_eq!(a.rotation, b.rotation);
        assert_eq!(a.z, b.z);
        assert_eq!(a.travel, b.travel);
    }
    assert_eq!(m.tiles[1].texture, "b b");
    assert_eq!(m.tiles[2].texture, "c,x");
}
