use dungeon::{
    can_generate, children, door_wall, generate, generate_dungeon, merge_doors, pick_orientation, pick_room,
    pick_split, place_door, Corridor, Dungeon, Point, Pos, Rect, Split, Wall, MAX_DEPTH,
};
use rand::rngs::StdRng;
use rand::SeedableRng;

fn rect(left: u16, top: u16, cols: u16, rows: u16) -> Rect {
    Rect { left, top, cols, rows }
}

fn inside(r: &Rect, p: &Point) -> bool {
    r.left <= p.x && p.x <= r.left + r.cols && r.top <= p.y && p.y <= r.top + r.rows
}

#[test]
fn whole_canvas_has_sixteen_rooms_and_fifteen_corridors() {
    for seed in 0..50u64 {
        let mut rng = StdRng::seed_from_u64(seed);
        let d = generate_dungeon(&mut rng, Split::Ver(None), 80, 24).expect("80x24 fits");
        assert_eq!(d.rooms.len(), 16);
        assert_eq!(d.corridors.len(), 15);
        for c in d.draw_calls() {
            assert!(c.x < 80 && c.y < 24);
        }
        for room in &d.rooms {
            assert!(room.left + room.cols < 80 && room.top + room.rows < 24);
        }
    }
}

#[test]
fn same_seed_gives_same_draw_calls() {
    let mut a = StdRng::seed_from_u64(42);
    let mut b = StdRng::seed_from_u64(42);
    let da = generate_dungeon(&mut a, Split::Ver(None), 80, 24).unwrap();
    let db = generate_dungeon(&mut b, Split::Ver(None), 80, 24).unwrap();
    assert_eq!(da.draw_calls(), db.draw_calls());
    assert_eq!(da.rooms, db.rooms);
    assert_eq!(da.corridors, db.corridors);
}

#[test]
fn too_small_or_empty_canvas_is_refused() {
    let mut rng = StdRng::seed_from_u64(1);
    assert!(generate_dungeon(&mut rng, Split::Hor(None), 80, 24).is_none());
    assert!(generate_dungeon(&mut rng, Split::Ver(None), 0, 24).is_none());
    assert!(generate_dungeon(&mut rng, Split::Ver(None), 80, 0).is_none());
    assert!(generate_dungeon(&mut rng, Split::Ver(None), 40, 24).is_none());
    assert!(generate_dungeon(&mut rng, Split::Hor(None), 24, 80).is_some());
}

#[test]
fn can_generate_matches_required_extents() {
    assert!(can_generate(Split::Ver(None), rect(0, 0, 79, 23), 0));
    assert!(can_generate(Split::Ver(None), rect(0, 0, 40, 23), 0));
    assert!(!can_generate(Split::Ver(None), rect(0, 0, 39, 23), 0));
    assert!(!can_generate(Split::Ver(None), rect(0, 0, 79, 22), 0));
    assert!(!can_generate(Split::Ver(None), rect(0, 0, 2, 2), MAX_DEPTH));
    assert!(can_generate(Split::Ver(Some(Pos::First)), rect(0, 0, 2, 0), MAX_DEPTH));
    assert!(!can_generate(Split::Ver(Some(Pos::First)), rect(0, 0, 1, 5), MAX_DEPTH));
    assert!(can_generate(Split::Hor(Some(Pos::Last)), rect(0, 0, 0, 2), MAX_DEPTH));
    assert!(!can_generate(Split::Hor(Some(Pos::Last)), rect(0, 0, 9, 1), MAX_DEPTH));
    assert!(!can_generate(Split::Ver(Some(Pos::First)), rect(0, 0, 79, 23), MAX_DEPTH + 1));
    assert!(!can_generate(Split::Ver(None), rect(65535, 0, 79, 23), 0));
}

#[test]
fn split_offset_stays_within_jitter() {
    let mut rng = StdRng::seed_from_u64(3);
    let mut seen_off_centre = false;
    for _ in 0..200 {
        let sp = pick_split(&mut rng, 100);
        assert!((35..=65).contains(&sp));
        if sp != 35 {
            seen_off_centre = true;
        }
        let small = pick_split(&mut rng, 6);
        assert!((2..=3).contains(&small));
    }
    assert!(seen_off_centre);
    assert_eq!(pick_split(&mut rng, 0), 0);
}

#[test]
fn vertical_split_children_alternate_and_keep_gap() {
    let ((s1, r1), (s2, r2)) = children(Split::Ver(None), rect(0, 0, 79, 23), 40);
    assert_eq!(s1, Split::Hor(Some(Pos::First)));
    assert_eq!(s2, Split::Hor(Some(Pos::Last)));
    assert_eq!(r1, rect(0, 0, 38, 23));
    assert_eq!(r2, rect(42, 0, 37, 23));
    assert_eq!(r1.cols + r2.cols + 4, 79);
}

#[test]
fn horizontal_split_children_alternate_and_keep_gap() {
    let ((s1, r1), (s2, r2)) = children(Split::Hor(Some(Pos::First)), rect(5, 3, 30, 20), 9);
    assert_eq!(s1, Split::Ver(Some(Pos::First)));
    assert_eq!(s2, Split::Ver(Some(Pos::Last)));
    assert_eq!(r1, rect(5, 3, 30, 7));
    assert_eq!(r2, rect(5, 14, 30, 9));
    assert_eq!(r1.rows + r2.rows + 4, 20);
}

#[test]
fn room_is_seventy_to_hundred_percent_and_inside() {
    let mut rng = StdRng::seed_from_u64(9);
    let part = rect(3, 4, 10, 7);
    let mut seen_smaller = false;
    for _ in 0..200 {
        let room = pick_room(&mut rng, part);
        assert!((7..=10).contains(&room.cols));
        assert!((5..=7).contains(&room.rows));
        assert!(room.left >= 3 && room.left + room.cols <= 13);
        assert!(room.top >= 4 && room.top + room.rows <= 11);
        if room.cols < 10 || room.rows < 7 {
            seen_smaller = true;
        }
    }
    assert!(seen_smaller);
}

#[test]
fn door_wall_follows_orientation_and_side() {
    assert_eq!(door_wall(Split::Ver(Some(Pos::First))), Some(Wall::Bottom));
    assert_eq!(door_wall(Split::Ver(Some(Pos::Last))), Some(Wall::Top));
    assert_eq!(door_wall(Split::Hor(Some(Pos::First))), Some(Wall::Right));
    assert_eq!(door_wall(Split::Hor(Some(Pos::Last))), Some(Wall::Left));
    assert_eq!(door_wall(Split::Ver(None)), None);
    assert_eq!(door_wall(Split::Hor(None)), None);
}

#[test]
fn door_sits_inside_its_wall() {
    let mut rng = StdRng::seed_from_u64(11);
    let room = rect(10, 20, 6, 4);
    for _ in 0..100 {
        let p = place_door(&mut rng, room, Wall::Bottom);
        assert!(p.x > 10 && p.x < 16 && p.y == 24);
        let p = place_door(&mut rng, room, Wall::Top);
        assert!(p.x > 10 && p.x < 16 && p.y == 20);
        let p = place_door(&mut rng, room, Wall::Right);
        assert!(p.y > 20 && p.y < 24 && p.x == 16);
        let p = place_door(&mut rng, room, Wall::Left);
        assert!(p.y > 20 && p.y < 24 && p.x == 10);
    }
    let narrow = rect(0, 0, 2, 2);
    assert_eq!(place_door(&mut rng, narrow, Wall::Top), Point { x: 1, y: 0 });
    assert_eq!(place_door(&mut rng, narrow, Wall::Left), Point { x: 0, y: 1 });
}

#[test]
fn leaf_generates_one_room_and_its_door() {
    let mut rng = StdRng::seed_from_u64(5);
    let mut d = Dungeon::new();
    let part = rect(2, 2, 8, 5);
    let door = generate(&mut rng, &mut d, Split::Hor(Some(Pos::First)), part, MAX_DEPTH);
    assert_eq!(d.rooms.len(), 1);
    assert_eq!(d.corridors.len(), 0);
    let room = d.rooms[0];
    assert_eq!(door.x, room.left + room.cols);
    assert!(door.y > room.top && door.y < room.top + room.rows);
}

#[test]
fn subtree_door_lies_inside_partition() {
    for seed in 0..30u64 {
        let mut rng = StdRng::seed_from_u64(seed);
        let mut d = Dungeon::new();
        let part = rect(7, 1, 40, 30);
        let door = generate(&mut rng, &mut d, Split::Hor(Some(Pos::Last)), part, 2);
        assert!(inside(&part, &door));
        assert_eq!(d.rooms.len(), 4);
        assert_eq!(d.corridors.len(), 3);
        let last = d.corridors[2];
        assert_eq!(last.vertical, false);
        assert_eq!(door, merge_doors(&last));
        assert!(last.mid >= 1 + 10 && last.mid <= 1 + 19);
        assert!(last.from.y + 2 <= last.mid && last.mid + 2 <= last.to.y);
        for room in &d.rooms {
            assert!(inside(&part, &Point { x: room.left, y: room.top }));
            assert!(inside(&part, &Point { x: room.left + room.cols, y: room.top + room.rows }));
        }
    }
}

#[test]
fn root_orientation_is_either_without_side() {
    let mut ver = 0;
    let mut hor = 0;
    for seed in 0..64u64 {
        let mut rng = StdRng::seed_from_u64(seed);
        match pick_orientation(&mut rng) {
            Split::Ver(None) => ver += 1,
            Split::Hor(None) => hor += 1,
            other => panic!("unexpected root {:?}", other),
        }
    }
    assert!(ver > 0 && hor > 0);
}

#[test]
fn merged_door_is_halfway_on_split_line() {
    let v = Corridor { vertical: true, mid: 40, from: Point { x: 30, y: 12 }, to: Point { x: 50, y: 5 } };
    assert_eq!(merge_doors(&v), Point { x: 40, y: 8 });
    let h = Corridor { vertical: false, mid: 10, from: Point { x: 20, y: 7 }, to: Point { x: 3, y: 14 } };
    assert_eq!(merge_doors(&h), Point { x: 11, y: 10 });
    let same = Corridor { vertical: true, mid: 4, from: Point { x: 1, y: 6 }, to: Point { x: 7, y: 6 } };
    assert_eq!(merge_doors(&same), Point { x: 4, y: 6 });
}

#[test]
fn vertical_root_leaves_open_on_top_or_bottom_walls() {
    for seed in 0..20u64 {
        let mut rng = StdRng::seed_from_u64(seed);
        let d = generate_dungeon(&mut rng, Split::Ver(None), 80, 24).unwrap();
        for room in &d.rooms {
            let on_horizontal_wall = |p: &Point| {
                room.left < p.x
                    && p.x < room.left + room.cols
                    && (p.y == room.top || p.y == room.top + room.rows)
            };
            assert!(d
                .corridors
                .iter()
                .any(|c| on_horizontal_wall(&c.from) || on_horizontal_wall(&c.to)));
        }
        for c in d.corridors.iter().filter(|c| c.vertical) {
            assert!(c.from.x + 2 <= c.mid && c.mid + 2 <= c.to.x);
        }
    }
}
