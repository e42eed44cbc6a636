use ohship::geom::{Rect, Vec2};
use ohship::map::{TileMap, TileRange};

fn grid(cols: usize, rows: usize, size: i64, overlap: i64) -> TileMap {
    let mut text = format!("size: {}, {}\noverlap: {}, {}\ntile: {}, {}\n", cols, rows, overlap, overlap, size, size);
    for k in 0..cols * rows {
        text.push_str(&format!("tile: t{}, 0, 0, true\n", k));
    }
    TileMap::from_string(&mut text).unwrap()
}

fn view(x: i64, y: i64, w: i64, h: i64) -> Rect {
    Rect::new(Vec2::new(x, y), Vec2::new(w, h))
}

#[test]
fn view_of_600_over_20_by_20_grid() {
    let m = grid(20, 20, 64, 0);
    let v = view(0, 0, 600, 600);
    // ceil(600 / 64) + 1 = 11 cells per axis from cell 0, within the grid of 20.
    assert_eq!(m.visible_range(&v), TileRange { col_start: 0, col_end: 11, row_start: 0, row_end: 11 });
    let idx = m.visible_tiles(&v);
    assert_eq!(idx.len(), 121);
    for row in 0..10 {
        for col in 0..10 {
            assert!(idx.contains(&(row * 20 + col)));
        }
    }
    assert_eq!(idx[0], 0);
    assert_eq!(idx[10], 10);
    assert_eq!(idx[11], 20);
    assert_eq!(idx[120], 10 * 20 + 10);
}

#[test]
fn non_square_grid_indexes_rows_by_column_count() {
    let m = grid(3, 2, 10, 0);
    let idx = m.visible_tiles(&view(0, 0, 100, 100));
    assert_eq!(idx, vec![0, 1, 2, 3, 4, 5]);
    let draws = m.draw_map(&view(0, 0, 100, 100));
    assert_eq!(draws.len(), 6);
    assert_eq!(draws[3].texture, "t3");
    assert_eq!(draws[3].shape.pos, Vec2 { x: 0, y: 10 });
}

#[test]
fn view_straddling_origin_starts_at_zero() {
    let m = grid(5, 5, 10, 0);
    let r = m.visible_range(&view(-25, -5, 20, 20));
    assert_eq!(r, TileRange { col_start: 0, col_end: 3, row_start: 0, row_end: 3 });
    let idx = m.visible_tiles(&view(-1000, -1000, 5, 5));
    assert_eq!(idx, vec![0, 1, 5, 6]);
}

#[test]
fn view_inside_grid_is_not_empty_and_stays_in_bounds() {
    let m = grid(8, 6, 16, 2);
    let r = m.visible_range(&view(30, 20, 40, 30));
    assert_eq!(r, TileRange { col_start: 2, col_end: 6, row_start: 1, row_end: 5 });
    let idx = m.visible_tiles(&view(30, 20, 40, 30));
    assert_eq!(idx.len(), 16);
    assert!(idx.iter().all(|&i| i < 48));
    assert_eq!(idx[0], 8 + 2);
}

#[test]
fn view_past_the_grid_shows_nothing() {
    let m = grid(4, 4, 10, 0);
    assert!(m.visible_tiles(&view(100, 0, 50, 50)).is_empty());
    assert!(m.visible_tiles(&view(0, 0, -50, 50)).len() == 4);
}

#[test]
fn empty_map_shows_nothing() {
    let m = TileMap::new();
    assert!(m.visible_tiles(&view(0, 0, 600, 600)).is_empty());
    assert!(m.draw_map(&view(0, 0, 600, 600)).is_empty());
}
