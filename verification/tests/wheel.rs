use roulette::data::{Degrees, Root, WheelChoice, WheelItem};
use roulette::segments::{chosen_item, covers, lay_out_items};
use roulette::selection_wheel::{Spin, Wheel, EXTRA_ROTATION, NO_WHEEL};
use roulette::ui::{wheel_visibility, Visibility};

fn item(id: i64, name: &str, next: i32) -> WheelItem {
    WheelItem {
        id,
        name: name.to_string(),
        probability_bits: 0.25f64.to_bits(),
        next_wheel_id: next,
        from: Degrees::zero(),
        to: Degrees::zero(),
    }
}

fn sample_root() -> Root {
    Root {
        wheels: vec![
            WheelChoice {
                name: "Start".to_string(),
                id: 1,
                results: vec![
                    item(10, "North", 2),
                    item(11, "East", -1),
                    item(12, "South", 3),
                    item(13, "West", 2),
                ],
            },
            WheelChoice {
                name: "Second".to_string(),
                id: 2,
                results: vec![item(20, "Left", -1), item(21, "Middle", -1), item(22, "Right", 3)],
            },
            WheelChoice {
                name: "Third".to_string(),
                id: 3,
                results: vec![item(30, "Only", -1)],
            },
            WheelChoice {
                name: "Shadowed".to_string(),
                id: 2,
                results: vec![item(40, "Never", -1)],
            },
        ],
    }
}

fn loaded() -> Wheel {
    let mut w = Wheel::new();
    w.on_btn_load_file(sample_root());
    w
}

#[test]
fn new_wheel_is_idle_and_empty() {
    let w = Wheel::new();
    assert!(!w.is_spin);
    assert_eq!(w.line_width, 4);
    assert_eq!(w.outer_radius, 256);
    assert_eq!(w.inner_radius, 64);
    assert_eq!(w.next_wheel_id, NO_WHEEL);
    assert!(w.possible_wheels.is_none());
    assert!(w.items.is_empty());
}

#[test]
fn loading_shows_the_first_wheel_in_equal_segments() {
    let w = loaded();
    assert!(w.possible_wheels.is_some());
    let names: Vec<&str> = w.items.iter().map(|i| i.name.as_str()).collect();
    assert_eq!(names, vec!["North", "East", "South", "West"]);
    for (i, it) in w.items.iter().enumerate() {
        assert_eq!(it.from, Degrees { num: 360 * i as u128, den: 4 });
        assert_eq!(it.to, Degrees { num: 360 * (i as u128 + 1), den: 4 });
        assert_eq!(it.probability_bits, 0.25f64.to_bits());
    }
    assert_eq!(w.items[0].id, 10);
    assert_eq!(w.items[2].next_wheel_id, 3);
}

#[test]
fn segments_of_three_tile_the_turn() {
    let laid = lay_out_items(&vec![item(1, "a", -1), item(2, "b", -1), item(3, "c", -1)]);
    assert_eq!(laid[0].from, Degrees { num: 0, den: 3 });
    assert_eq!(laid[0].to, laid[1].from);
    assert_eq!(laid[1].to, laid[2].from);
    assert_eq!(laid[2].to, Degrees { num: 1080, den: 3 });
}

#[test]
fn laying_out_nothing_gives_nothing() {
    assert!(lay_out_items(&Vec::new()).is_empty());
}

#[test]
fn spin_lands_on_the_segment_under_the_pointer() {
    let w = loaded();
    assert_eq!(w.chosen_item(0), Some(0));
    assert_eq!(w.chosen_item(45), Some(0));
    assert_eq!(w.chosen_item(91), Some(1));
    assert_eq!(w.chosen_item(200), Some(2));
    assert_eq!(w.chosen_item(359), Some(3));
    assert_eq!(w.chosen_item(360), Some(3));
}

#[test]
fn shared_boundary_goes_to_the_later_segment() {
    let w = loaded();
    assert_eq!(w.chosen_item(90), Some(1));
    assert_eq!(w.chosen_item(180), Some(2));
    assert_eq!(w.chosen_item(270), Some(3));
}

#[test]
fn positions_off_the_wheel_land_nowhere() {
    let w = loaded();
    assert_eq!(w.chosen_item(-1), None);
    assert_eq!(w.chosen_item(361), None);
    assert_eq!(w.chosen_item(i32::MIN), None);
    assert_eq!(w.chosen_item(i32::MAX), None);
    assert_eq!(Wheel::new().chosen_item(0), None);
}

#[test]
fn thirds_use_exact_fractions() {
    let laid = lay_out_items(&vec![item(1, "a", -1), item(2, "b", -1), item(3, "c", -1)]);
    assert_eq!(chosen_item(&laid, 119), Some(0));
    assert_eq!(chosen_item(&laid, 120), Some(1));
    assert_eq!(chosen_item(&laid, 121), Some(1));
    assert_eq!(chosen_item(&laid, 240), Some(2));
    assert!(covers(&laid[0], 120));
    assert!(!covers(&laid[0], 121));
}

#[test]
fn unset_segment_covers_only_zero() {
    let it = item(1, "a", -1);
    assert!(covers(&it, 0));
    assert!(!covers(&it, 1));
    assert!(!covers(&it, -5));
}

#[test]
fn start_spin_sets_target_and_blocks_a_second_spin() {
    let mut w = loaded();
    assert_eq!(w.start_spin(37), Some(Spin { reward_pos: 37, target_rotation: 37 + EXTRA_ROTATION }));
    assert_eq!(EXTRA_ROTATION, 7200);
    assert!(w.is_spin);
    assert_eq!(w.start_spin(100), None);
    assert!(w.is_spin);
}

#[test]
fn random_spin_stays_on_the_wheel() {
    for _ in 0..50 {
        let mut w = loaded();
        let spin = w.on_btn_spin_wheel().expect("idle wheel spins");
        assert!((0..360).contains(&spin.reward_pos));
        assert_eq!(spin.target_rotation, spin.reward_pos + 7200);
        assert!(w.is_spin);
        assert_eq!(w.on_btn_spin_wheel(), None);
        assert!(w.chosen_item(spin.reward_pos).is_some());
    }
}

#[test]
fn end_spin_names_the_item_and_remembers_its_next_wheel() {
    let mut w = loaded();
    w.start_spin(200);
    assert_eq!(w.end_spin(200), "South");
    assert!(!w.is_spin);
    assert_eq!(w.next_wheel_id, 3);
    assert_eq!(w.end_spin(100), "East");
    assert_eq!(w.next_wheel_id, -1);
}

#[test]
fn next_wheel_is_loaded_by_id() {
    let mut w = loaded();
    w.end_spin(10);
    assert_eq!(w.next_wheel_id, 2);
    assert_eq!(w.on_load_next_wheel(), None);
    let names: Vec<&str> = w.items.iter().map(|i| i.name.as_str()).collect();
    assert_eq!(names, vec!["Left", "Middle", "Right"]);
    assert_eq!(w.items[2].to, Degrees { num: 1080, den: 3 });
    assert_eq!(w.next_wheel_id, 2);
}

#[test]
fn without_next_wheel_the_end_is_announced() {
    let mut w = loaded();
    w.end_spin(100);
    let before: Vec<String> = w.items.iter().map(|i| i.name.clone()).collect();
    assert_eq!(w.on_load_next_wheel(), Some("END".to_string()));
    let after: Vec<String> = w.items.iter().map(|i| i.name.clone()).collect();
    assert_eq!(before, after);
}

#[test]
fn find_wheel_takes_the_first_match() {
    let root = sample_root();
    assert_eq!(root.find_wheel(1), Some(0));
    assert_eq!(root.find_wheel(2), Some(1));
    assert_eq!(root.find_wheel(3), Some(2));
    assert_eq!(root.find_wheel(9), None);
}

#[test]
fn separators_need_two_items() {
    let mut w = Wheel::new();
    assert_eq!(w.separator_count(), 0);
    w.items = vec![item(1, "a", -1)];
    assert_eq!(w.separator_count(), 0);
    w.items.push(item(2, "b", -1));
    assert_eq!(w.separator_count(), 2);
    assert_eq!(loaded().separator_count(), 4);
}

#[test]
fn visibility_follows_the_action() {
    assert_eq!(wheel_visibility(true, true, false), Visibility::Show);
    assert_eq!(wheel_visibility(true, true, true), Visibility::Show);
    assert_eq!(wheel_visibility(true, false, true), Visibility::Hide);
    assert_eq!(wheel_visibility(true, false, false), Visibility::Keep);
    assert_eq!(wheel_visibility(false, true, true), Visibility::Keep);
}

#[test]
fn item_clone_keeps_every_field() {
    let a = item(5, "x", 7);
    let b = a.clone();
    assert_eq!((b.id, b.name.as_str(), b.next_wheel_id, b.probability_bits), (5, "x", 7, a.probability_bits));
    assert_eq!(b.from, a.from);
}

#[test]
fn defaults_and_copies_of_the_configuration() {
    assert_eq!(Degrees::default(), Degrees { num: 0, den: 1 });
    let it = WheelItem::default();
    assert_eq!((it.id, it.name.as_str(), it.next_wheel_id), (0, "", 0));
    assert_eq!(it.from, Degrees::zero());
    assert!(Root::default().wheels.is_empty());
    let root = sample_root();
    let copy = root.clone();
    assert_eq!(copy, root);
    assert_ne!(copy.wheels[0], root.wheels[1]);
    assert_eq!(item(1, "a", 2), item(1, "a", 2).clone());
}

#[test]
fn every_drawn_stop_on_a_loaded_wheel_can_be_ended() {
    let mut w = loaded();
    for r in 0..360 {
        assert_eq!(w.chosen_item(r), Some((r as usize * 4) / 360));
    }
    w.start_spin(359);
    assert_eq!(w.start_spin(0), None);
    assert_eq!(w.end_spin(359), "West");
    assert!(!w.is_spin);
    assert!(w.start_spin(5).is_some());
}
