use wow_vanilla_server::aoi::{within_aoi, AOI_RADIUS_SQ, AOI_RADIUS_YARDS};
use wow_vanilla_server::movement::Place;
use wow_vanilla_server::notice::{hearers, Audience, Bystander};
use wow_vanilla_server::spatial::{pack, unpack, SpatialIndex};
use wow_vanilla_server::tables::Occupant;

const CELL_SIZE_YD: f32 = 33.3333;

fn cell_coord(x: f32, y: f32) -> (i32, i32) {
    ((x / CELL_SIZE_YD).floor() as i32, (y / CELL_SIZE_YD).floor() as i32)
}

fn visit(idx: &SpatialIndex, x: f32, y: f32, radius: f32) -> Vec<Occupant> {
    idx.visit(cell_coord(x - radius, y - radius), cell_coord(x + radius, y + radius))
}

#[test]
fn visit_finds_within_radius_excludes_beyond() {
    let mut idx = SpatialIndex::new();
    let radius = 200.0f32;
    let (cx, cy) = (1000.0f32, 1000.0f32);
    idx.insert_creature(1, cell_coord(cx + 199.0, cy));
    idx.insert_creature(2, cell_coord(cx + 201.0, cy));
    let mut found = Vec::new();
    for occ in visit(&idx, cx, cy, radius) {
        if let Occupant::Creature(k) = occ {
            let px = if k == 1 { cx + 199.0 } else { cx + 201.0 };
            let dx = px - cx;
            if dx * dx <= radius * radius {
                found.push(k);
            }
        }
    }
    assert!(found.contains(&1), "199 yd occupant should be in range");
    assert!(!found.contains(&2), "201 yd occupant should be out of range");
}

#[test]
fn visit_window_includes_occupant_at_exactly_radius() {
    let mut idx = SpatialIndex::new();
    idx.insert_client(7, cell_coord(200.0, 0.0));
    let seen = visit(&idx, 0.0, 0.0, 200.0).iter().any(|o| matches!(o, Occupant::Client(7)));
    assert!(seen, "occupant at exactly the radius must be visited");
}

#[test]
fn insert_move_remove_keep_buckets_consistent() {
    let mut idx = SpatialIndex::new();
    idx.insert_creature(1, cell_coord(10.0, 10.0));
    idx.insert_client(2, cell_coord(10.0, 10.0));
    assert_eq!(idx.occupied_cell_count(), 1);
    idx.move_creature(1, cell_coord(2000.0, 2000.0));
    assert_eq!(idx.occupied_cell_count(), 2);
    idx.remove_client(2);
    assert_eq!(idx.occupied_cell_count(), 1);
    idx.remove_creature(1);
    assert_eq!(idx.occupied_cell_count(), 0);
}

#[test]
fn move_to_same_cell_is_noop() {
    let mut idx = SpatialIndex::new();
    idx.insert_creature(1, cell_coord(10.0, 10.0));
    idx.move_creature(1, cell_coord(12.0, 12.0));
    assert_eq!(idx.occupied_cell_count(), 1);
    assert_eq!(visit(&idx, 10.0, 10.0, 1.0).len(), 1, "no duplicate after same-cell move");
}

#[test]
fn cells_are_packed_and_unpacked() {
    for cell in [(0, 0), (-1, 1), (i32::MIN, i32::MAX), (17, -400)] {
        assert_eq!(unpack(pack(cell)), cell);
    }
}

#[test]
fn occupants_are_tracked() {
    let mut idx = SpatialIndex::new();
    idx.insert_creature(4, (1, 1));
    idx.insert_client(4, (1, 1));
    assert!(idx.is_creature_tracked(4) && idx.is_client_tracked(4));
    assert_eq!((idx.tracked_client_count(), idx.tracked_creature_count()), (1, 1));
    assert_eq!(idx.cell_occupants((1, 1)).map(|v| v.len()), Some(2));
    assert!(idx.cell_occupants((1, 2)).is_none());
    assert_eq!(idx.iter_cells(), vec![(1, 1)]);
    idx.remove_creature(4);
    assert!(!idx.is_creature_tracked(4) && idx.is_client_tracked(4));
}

/// A point: how far east, how far north, how high.
type Point = (f32, f32, f32);

/// Whether somebody at `observer` hears of what happens at `anchor`. How high the
/// points are does not count.
fn hears(observer: Point, anchor: Point) -> bool {
    let (dx, dy) = (observer.0 - anchor.0, observer.1 - anchor.1);
    within_aoi((dx * dx + dy * dy).to_bits())
}

fn v(x: f32, y: f32) -> Point {
    (x, y, 0.0)
}

#[test]
fn within_aoi_self_is_in_range() {
    assert!(hears(v(100.0, 100.0), v(100.0, 100.0)));
}

#[test]
fn within_aoi_inside_radius() {
    assert!(hears(v(0.0, 0.0), v(100.0, 0.0)));
}

#[test]
fn within_aoi_just_outside_radius() {
    assert!(!hears(v(0.0, 0.0), v(401.0, 0.0)));
}

#[test]
fn within_aoi_ignores_z() {
    assert!(hears((0.0, 0.0, 0.0), (100.0, 0.0, 1000.0)));
}

#[test]
fn within_aoi_diagonal() {
    assert!(!hears(v(0.0, 0.0), v(300.0, 300.0)));
    assert!(hears(v(0.0, 0.0), v(200.0, 200.0)));
}

#[test]
fn the_radius_and_its_square_belong_together() {
    let radius = f32::from_bits(AOI_RADIUS_YARDS);
    assert_eq!(radius, 400.0);
    assert_eq!((radius * radius).to_bits(), AOI_RADIUS_SQ);
    assert!(hears(v(0.0, 0.0), v(400.0, 0.0)));
    assert!(!within_aoi(f32::NAN.to_bits()));
    let place = Place { x: 0, y: 0, z: 0, cell: (0, 0), grid: (0, 0) };
    let far = |key: usize, yards: f32| Bystander { key, guid: 1, map: 0, dist_sq: (yards * yards).to_bits() };
    assert_eq!(hearers(Audience::Near { map: 0, place }, &vec![far(1, 399.0), far(2, 401.0)]), vec![1]);
}
