use wow_vanilla_server::dice;
use wow_vanilla_server::movement::{Place, FORWARD};
use wow_vanilla_server::numeric::rand_unit_f32;
use wow_vanilla_server::simulated_player::{
    equipment_index, pick, pick_gender, pick_horde_race_class, random_horde_at, route_segment, HordeDraw, HORDE,
    LEFT_ROUTE, RIGHT_ROUTE, SLOT_CHEST, SLOT_HEAD, SLOT_MAIN_HAND,
};

fn point(p: (u32, u32, u32)) -> (f32, f32, f32) {
    (f32::from_bits(p.0), f32::from_bits(p.1), f32::from_bits(p.2))
}

fn unit(r: u64) -> f32 {
    f32::from_bits(rand_unit_f32(r))
}

#[test]
fn rand_unit_f32_zero() {
    assert_eq!(unit(0), 0.0);
}

#[test]
fn rand_unit_f32_max_below_one() {
    let r = unit(u64::MAX);
    assert!(r < 1.0, "rand_unit_f32 should never return 1.0, got {r}");
    assert!(r > 0.99);
}

#[test]
fn rand_unit_f32_preserves_top_bit() {
    let low = unit(1u64 << 62);
    let high = unit(1u64 << 63);
    assert!(high > low, "high bit must affect output: low={low} high={high}");
}

#[test]
fn fractions_are_those_of_the_highest_bits() {
    let mut x = 0x1234_5678_9abc_def1;
    for _ in 0..1000 {
        let r = dice::next_rand(&mut x);
        assert_eq!(unit(r), (r >> 40) as f32 / (1u32 << 24) as f32);
    }
    assert_eq!(unit(1u64 << 40), 1.0 / (1u32 << 24) as f32);
}

fn pick_route_start(route: &[(f32, f32, f32)], r: u64) -> ((f32, f32, f32), usize) {
    let mut cum = vec![0.0_f32];
    for i in 1..route.len() {
        let (a, b) = (route[i - 1], route[i]);
        let d = ((b.0 - a.0).powi(2) + (b.1 - a.1).powi(2)).sqrt();
        cum.push(cum[i - 1] + d);
    }
    let t = unit(r).powi(4) * *cum.last().unwrap();
    let bits: Vec<u32> = cum.iter().map(|c| c.to_bits()).collect();
    let (seg, next) = route_segment(&bits, t.to_bits());
    let seg_len = cum[next] - cum[seg];
    let frac = if seg_len > 0.0 { (t - cum[seg]) / seg_len } else { 0.0 };
    let (a, b) = (route[seg], route[next]);
    ((a.0 + (b.0 - a.0) * frac, a.1 + (b.1 - a.1) * frac, a.2 + (b.2 - a.2) * frac), next)
}

#[test]
fn pick_route_start_returns_valid_index_and_finite_pos() {
    let route: Vec<(f32, f32, f32)> = LEFT_ROUTE.iter().map(|p| point(*p)).collect();
    let mut x = 99;
    for _ in 0..200 {
        let (pos, idx) = pick_route_start(&route, dice::next_rand(&mut x));
        assert!(idx < route.len(), "current_wp out of range: {idx}");
        assert!(idx >= 1, "should head toward at least waypoint 1");
        assert!(pos.0.is_finite() && pos.1.is_finite() && pos.2.is_finite());
    }
}

#[test]
fn random_horde_at_produces_walking_puppet_pointing_at_first_target() {
    let mut x = 0xCAFE;
    let draw = HordeDraw::draw(&equipment_index(), &mut x);
    let route = if draw.left { LEFT_ROUTE } else { RIGHT_ROUTE };
    let waypoints: Vec<Place> =
        route.iter().map(|p| Place { x: p.0, y: p.1, z: p.2, cell: (0, 0), grid: (0, 0) }).collect();
    let here = waypoints[0];
    let puppet = random_horde_at(0xCAFE_BABE, draw, waypoints, 1, here, 0, 0);
    assert!(puppet.current_wp < puppet.waypoints.len());
    assert!(puppet.equipment[SLOT_HEAD].is_some());
    assert!(puppet.equipment[SLOT_CHEST].is_some());
    assert!(puppet.equipment[SLOT_MAIN_HAND].is_some());
    assert!(puppet.info.flags & FORWARD != 0);
    assert!(!puppet.is_rooted(0));
    assert!(puppet.next_jump_at >= 5_000_000_000 && puppet.next_jump_at < 15_000_000_000);
}

#[test]
fn both_routes_share_gate_endpoint() {
    assert_eq!(LEFT_ROUTE[0], RIGHT_ROUTE[0]);
    assert_eq!(LEFT_ROUTE.last(), RIGHT_ROUTE.last());
}

#[test]
fn the_route_begins_at_the_south_gate() {
    assert_eq!(point(LEFT_ROUTE[0]), (-9083.265, 419.14047, 92.569046));
    assert_eq!(point(LEFT_ROUTE[7]), (-8824.353, 628.5146, 93.93376));
}

#[test]
fn gear_is_sorted_by_where_it_is_worn() {
    let eq = equipment_index();
    let worn = |entry: u32| wow_items::vanilla::lookup_item(entry).unwrap().inventory_type().as_int();
    assert!(!eq.head.is_empty() && eq.head.iter().all(|e| worn(*e) == 1));
    assert!(!eq.shoulders.is_empty() && eq.shoulders.iter().all(|e| worn(*e) == 3));
    assert!(eq.chest.iter().any(|e| worn(*e) == 5) && eq.chest.iter().any(|e| worn(*e) == 20));
    assert!(!eq.waist.is_empty() && eq.waist.iter().all(|e| worn(*e) == 6));
    assert!(!eq.legs.is_empty() && eq.legs.iter().all(|e| worn(*e) == 7));
    assert!(eq.main_hand.iter().all(|e| [13, 17, 21].contains(&worn(*e))));
}

#[test]
fn all_gear_is_listed_in_order() {
    let eq = equipment_index();
    let worn = |types: &[u8]| -> Vec<u32> {
        (0..100_000_u32)
            .filter(|e| {
                wow_items::vanilla::lookup_item(*e).is_some_and(|i| types.contains(&i.inventory_type().as_int()))
            })
            .collect()
    };
    assert_eq!(eq.head, worn(&[1]));
    assert_eq!(eq.shoulders, worn(&[3]));
    assert_eq!(eq.chest, worn(&[5, 20]));
    assert_eq!(eq.waist, worn(&[6]));
    assert_eq!(eq.legs, worn(&[7]));
    assert_eq!(eq.main_hand, worn(&[13, 17, 21]));
}

#[test]
fn every_item_is_found_by_its_entry() {
    for item in wow_items::vanilla::all_items() {
        let found = wow_items::vanilla::lookup_item(item.entry()).expect("the entry is known");
        assert!(std::ptr::eq(found, item));
    }
}

#[test]
fn nothing_is_drawn_for_nothing() {
    let mut x = 7;
    let none: Vec<u32> = Vec::new();
    assert_eq!(pick(&none, &mut x), None);
    assert_eq!(x, 7);
    let mut y = 7;
    let r = dice::next_rand(&mut y);
    let some: Vec<u32> = vec![10, 20, 30];
    assert_eq!(pick(&some, &mut x), Some(some[(r % 3) as usize]));
    assert_eq!(x, y);
}

#[test]
fn the_horde_has_no_humans() {
    let mut x = 5;
    for _ in 0..100 {
        let (race, _) = pick_horde_race_class(&mut x);
        assert!([2, 5, 6, 8].contains(&race));
        assert!(pick_gender(&mut x) < 2);
    }
    let all: Vec<wow_world_base::vanilla::RaceClass> = HORDE
        .iter()
        .map(|(r, c)| {
            let race = wow_world_base::vanilla::Race::try_from(*r).unwrap();
            let class = wow_world_base::vanilla::Class::try_from(*c).unwrap();
            wow_world_base::vanilla::RaceClass::try_from((race, class)).unwrap()
        })
        .collect();
    assert_eq!(all[0], wow_world_base::vanilla::RaceClass::OrcWarrior);
    assert_eq!(all[6], wow_world_base::vanilla::RaceClass::TaurenDruid);
    assert_eq!(all[13], wow_world_base::vanilla::RaceClass::TrollPriest);
    assert_eq!(all[19], wow_world_base::vanilla::RaceClass::UndeadWarlock);
}

#[test]
fn the_dice_are_a_xorshift_generator() {
    let mut x = 1u64;
    let mut state = 1u64;
    for _ in 0..50 {
        x ^= x << 13;
        x ^= x >> 7;
        x ^= x << 17;
        assert_eq!(dice::next_rand(&mut state), x);
    }
    assert_eq!(dice::seed(0), 1);
    assert_eq!(dice::seed(2) & 1, 1);
}

#[test]
fn names_are_of_five_to_ten_letters() {
    let mut x = 77;
    for _ in 0..200 {
        let n = dice::random_name(&mut x);
        assert!(n.len() >= 5 && n.len() <= 10);
        assert!(n.chars().all(|c| c.is_ascii_lowercase()));
        let d = dice::random_display_id(&mut x);
        assert!(d >= 1 && d <= 11657);
        assert!(!dice::swifty_invasion_yell(&mut x).is_empty());
    }
}
