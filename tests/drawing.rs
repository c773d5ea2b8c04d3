use dungeon::{Cell, Corridor, Glyph, Point, Rect};

fn cell(x: u16, y: u16, glyph: Glyph) -> Cell {
    Cell { x, y, glyph }
}

#[test]
fn glyph_symbols() {
    assert_eq!(Glyph::Wall.symbol(), '-');
    assert_eq!(Glyph::Side.symbol(), '|');
    assert_eq!(Glyph::Floor.symbol(), '░');
}

#[test]
fn room_border_cells_in_order() {
    let mut out = vec![cell(9, 9, Glyph::Floor)];
    dungeon::draw::draw_room(&mut out, Rect { left: 1, top: 2, cols: 2, rows: 3 });
    let w = Glyph::Wall;
    let s = Glyph::Side;
    assert_eq!(
        out,
        vec![
            cell(9, 9, Glyph::Floor),
            cell(1, 2, w), cell(2, 2, w), cell(3, 2, w),
            cell(1, 5, w), cell(2, 5, w), cell(3, 5, w),
            cell(1, 3, s), cell(1, 4, s),
            cell(3, 3, s), cell(3, 4, s),
        ]
    );
}

#[test]
fn flat_room_has_no_sides() {
    let mut out = Vec::new();
    dungeon::draw::draw_room(&mut out, Rect { left: 0, top: 0, cols: 1, rows: 0 });
    assert_eq!(
        out,
        vec![cell(0, 0, Glyph::Wall), cell(1, 0, Glyph::Wall), cell(0, 0, Glyph::Wall), cell(1, 0, Glyph::Wall)]
    );
}

#[test]
fn vertical_corridor_covers_span_on_midline() {
    let c = Corridor { vertical: true, mid: 5, from: Point { x: 3, y: 10 }, to: Point { x: 7, y: 6 } };
    let mut out = Vec::new();
    dungeon::draw::draw_corridor(&mut out, c);
    let f = Glyph::Floor;
    assert_eq!(
        out,
        vec![
            cell(3, 10, f), cell(4, 10, f), cell(5, 10, f),
            cell(5, 6, f), cell(6, 6, f), cell(7, 6, f),
            cell(5, 6, f), cell(5, 7, f), cell(5, 8, f), cell(5, 9, f), cell(5, 10, f),
        ]
    );
    for y in 6..=10 {
        assert!(out.contains(&cell(5, y, f)));
    }
}

#[test]
fn vertical_corridor_with_rising_doors() {
    let c = Corridor { vertical: true, mid: 20, from: Point { x: 18, y: 2 }, to: Point { x: 22, y: 9 } };
    let mut out = Vec::new();
    dungeon::draw::draw_corridor(&mut out, c);
    for y in 2..=9 {
        assert!(out.contains(&cell(20, y, Glyph::Floor)));
    }
    assert_eq!(out.len(), 3 + 3 + 8);
}

#[test]
fn horizontal_corridor_covers_span_on_midline() {
    let c = Corridor { vertical: false, mid: 4, from: Point { x: 8, y: 2 }, to: Point { x: 5, y: 6 } };
    let mut out = Vec::new();
    dungeon::draw::draw_corridor(&mut out, c);
    let f = Glyph::Floor;
    assert_eq!(
        out,
        vec![
            cell(8, 2, f), cell(8, 3, f), cell(8, 4, f),
            cell(5, 4, f), cell(5, 5, f), cell(5, 6, f),
            cell(5, 4, f), cell(6, 4, f), cell(7, 4, f), cell(8, 4, f),
        ]
    );
}

#[test]
fn draw_calls_are_rooms_then_corridors() {
    let d = dungeon::Dungeon {
        rooms: vec![Rect { left: 0, top: 0, cols: 0, rows: 0 }],
        corridors: vec![Corridor { vertical: true, mid: 1, from: Point { x: 1, y: 0 }, to: Point { x: 1, y: 0 } }],
    };
    let w = Glyph::Wall;
    let f = Glyph::Floor;
    assert_eq!(
        d.draw_calls(),
        vec![cell(0, 0, w), cell(0, 0, w), cell(1, 0, f), cell(1, 0, f), cell(1, 0, f)]
    );
}
