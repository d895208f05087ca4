use narrative_core::conditions::{
    AttributeCheck, Condition, ConditionGroup, ItemCheck, PlayerAttributeCondition,
    PlayerItemContition, TimeCondition,
};
use narrative_core::conditions::EvalErr;
use narrative_core::items::ItemPayload;
use narrative_core::map_system::{Connection, MapNode, MapSystem, TravelErr};
use narrative_core::items::payload_eq;
use narrative_core::modifier::{isqrt, trunc_div_i64, Identity, ItemModifier, Modifier, ValModifier};
use narrative_core::game::GameErr;
use narrative_core::player::{Attribute, Player, PlayerAttribute, PlayerItem};
use narrative_core::rng::Rand;
use narrative_core::time_system::{SimTime, TimeSystem};

fn attr_def(name: &str, min: i32, max: i32, default: i32) -> Attribute {
    Attribute {
        name: name.to_string(),
        max,
        min,
        default,
        over_max: max,
        under_min: min,
        over_max_desc: String::new(),
        under_min_desc: String::new(),
        invisible: false,
    }
}

fn empty_maps() -> MapSystem {
    MapSystem::new(Vec::new())
}

fn base_player() -> Player {
    Player::new(&vec![attr_def("mood", 0, 100, 80)])
}

#[test]
fn empty_connectives() {
    let player = base_player();
    let time = TimeSystem::new();
    let mut rand = Rand::from_seed(7);
    let and = Condition::And(ConditionGroup { conds: Vec::new() });
    let or = Condition::Or(ConditionGroup { conds: Vec::new() });
    let xor = Condition::Xor(ConditionGroup { conds: Vec::new() });
    assert_eq!(and.is_met(&time, &player, &mut rand), Ok(true));
    assert_eq!(or.is_met(&time, &player, &mut rand), Ok(false));
    assert_eq!(xor.is_met(&time, &player, &mut rand), Ok(false));
    // no random subconditions, so no draw was consumed
    assert_eq!(rand.state, 7);
}

#[test]
fn xor_parity_of_three() {
    let player = base_player();
    let time = TimeSystem::new();
    let mut rand = Rand::from_seed(7);
    let cases = [
        (vec![true, true, true], true),
        (vec![true, true, false], false),
        (vec![true, false, false], true),
        (vec![false, false, false], false),
    ];
    for (values, expected) in cases {
        let conds = values
            .iter()
            .map(|b| if *b { Condition::True } else { Condition::False })
            .collect();
        let xor = Condition::Xor(ConditionGroup { conds });
        assert_eq!(xor.is_met(&time, &player, &mut rand), Ok(expected));
    }
}

#[test]
fn attribute_condition_bounds_are_exclusive() {
    let player = base_player();
    let time = TimeSystem::new();
    let mut rand = Rand::from_seed(1);
    let cond = |gt: Option<i32>, lt: Option<i32>| {
        Condition::PlayerAttribute(PlayerAttributeCondition {
            attributes: vec![(
                "mood".to_string(),
                AttributeCheck { greater_than: gt, less_than: lt },
            )],
        })
    };
    // current value is 80; bounds are strict
    assert_eq!(cond(Some(79), None).is_met(&time, &player, &mut rand), Ok(true));
    assert_eq!(cond(Some(80), None).is_met(&time, &player, &mut rand), Ok(false));
    assert_eq!(cond(None, Some(81)).is_met(&time, &player, &mut rand), Ok(true));
    assert_eq!(cond(None, Some(80)).is_met(&time, &player, &mut rand), Ok(false));
}

#[test]
fn missing_attribute_is_a_typed_failure() {
    let player = base_player();
    let time = TimeSystem::new();
    let mut rand = Rand::from_seed(1);
    let cond = Condition::PlayerAttribute(PlayerAttributeCondition {
        attributes: vec![(
            "charm".to_string(),
            AttributeCheck { greater_than: None, less_than: None },
        )],
    });
    assert_eq!(
        cond.is_met(&time, &player, &mut rand),
        Err(EvalErr::MissingAttribute("charm".to_string()))
    );
}

fn player_with_item(payload: ItemPayload, count: usize) -> Player {
    let mut p = base_player();
    p.items = PlayerItem { entries: vec![("potion".to_string(), (payload, count))] };
    p
}

#[test]
fn item_condition_checks() {
    let time = TimeSystem::new();
    let mut rand = Rand::from_seed(1);
    let p = player_with_item(ItemPayload::Table(vec!["magic".to_string()]), 3);
    let cond = |check: ItemCheck| {
        Condition::PlayerItem(PlayerItemContition { items: vec![("potion".to_string(), check)] })
    };
    let base = ItemCheck {
        expect_existence: None,
        expect_tags: None,
        more_than: None,
        less_than: None,
    };
    assert_eq!(cond(base.clone()).is_met(&time, &p, &mut rand), Ok(true));
    // exclusive count bounds
    assert_eq!(
        cond(ItemCheck { more_than: Some(2), ..base.clone() }).is_met(&time, &p, &mut rand),
        Ok(true)
    );
    assert_eq!(
        cond(ItemCheck { more_than: Some(3), ..base.clone() }).is_met(&time, &p, &mut rand),
        Ok(false)
    );
    assert_eq!(
        cond(ItemCheck { less_than: Some(3), ..base.clone() }).is_met(&time, &p, &mut rand),
        Ok(false)
    );
    // tag presence on a structured payload
    assert_eq!(
        cond(ItemCheck { expect_tags: Some("magic".to_string()), ..base.clone() })
            .is_met(&time, &p, &mut rand),
        Ok(true)
    );
    assert_eq!(
        cond(ItemCheck { expect_tags: Some("plain".to_string()), ..base.clone() })
            .is_met(&time, &p, &mut rand),
        Ok(false)
    );
    // a scalar payload fails any tag request
    let scalar = player_with_item(ItemPayload::Int(1), 3);
    assert_eq!(
        cond(ItemCheck { expect_tags: Some("magic".to_string()), ..base.clone() })
            .is_met(&time, &scalar, &mut rand),
        Ok(false)
    );
    // existence expectations
    let absent = base_player();
    assert_eq!(cond(base.clone()).is_met(&time, &absent, &mut rand), Ok(false));
    assert_eq!(
        cond(ItemCheck { expect_existence: Some(false), ..base.clone() })
            .is_met(&time, &absent, &mut rand),
        Ok(true)
    );
    assert_eq!(
        cond(ItemCheck { expect_existence: Some(false), ..base.clone() })
            .is_met(&time, &p, &mut rand),
        Ok(false)
    );
}

#[test]
fn time_condition_window_and_points() {
    let time = TimeSystem::new();
    let mut p = base_player();
    p.game_time = SimTime { weekday: 0, minute: 500 };
    let cond = TimeCondition { start: 480, end: 600, days: vec![0], times: None };
    assert!(time.check_condition(&p, &cond));
    let wrong_day = TimeCondition { start: 480, end: 600, days: vec![3], times: None };
    assert!(!time.check_condition(&p, &wrong_day));
    let outside = TimeCondition { start: 480, end: 499, days: vec![0], times: None };
    assert!(!time.check_condition(&p, &outside));
    let exact = TimeCondition { start: 0, end: 1439, days: vec![0], times: Some(vec![500]) };
    assert!(time.check_condition(&p, &exact));
    let wrong_point = TimeCondition { start: 0, end: 1439, days: vec![0], times: Some(vec![501]) };
    assert!(!time.check_condition(&p, &wrong_point));
}

#[test]
fn location_condition_membership() {
    let time = TimeSystem::new();
    let mut rand = Rand::from_seed(1);
    let p = base_player();
    let here = Condition::Location(narrative_core::conditions::LocationCondition {
        locations: vec!["Lake".to_string(), "Town".to_string()],
    });
    let elsewhere = Condition::Location(narrative_core::conditions::LocationCondition {
        locations: vec!["Lake".to_string()],
    });
    assert_eq!(here.is_met(&time, &p, &mut rand), Ok(true));
    assert_eq!(elsewhere.is_met(&time, &p, &mut rand), Ok(false));
}

#[test]
fn random_condition_is_reproducible_from_its_seed() {
    let time = TimeSystem::new();
    let p = base_player();
    let cond = Condition::RandomCondition(500000);
    let mut r1 = Rand::from_seed(12345);
    let mut r2 = Rand::from_seed(12345);
    let a = cond.is_met(&time, &p, &mut r1);
    let b = cond.is_met(&time, &p, &mut r2);
    assert_eq!(a, b);
    assert_eq!(r1.state, r2.state);
    assert_ne!(r1.state, 12345);
    // certain and impossible probabilities
    assert_eq!(Condition::RandomCondition(1000000).is_met(&time, &p, &mut r1), Ok(true));
    assert_eq!(Condition::RandomCondition(0).is_met(&time, &p, &mut r1), Ok(false));
}

#[test]
fn entropy_generator_draws_below_bound() {
    let mut r = Rand::from_entropy();
    for _ in 0..10 {
        assert!(r.next_below(10) < 10);
    }
}

#[test]
fn attribute_add_clamps_at_max() {
    // min 0, max 100, current 80: adding 50 lands on 100
    let mut p = base_player();
    let time = TimeSystem::new();
    let mut rand = Rand::from_seed(1);
    let m = Modifier::Attribute {
        attr: Identity::Str("mood".to_string()),
        val: ValModifier::Add(50),
    };
    assert!(m.modify(&empty_maps(), &time, &mut p, &mut rand).is_ok());
    assert_eq!(p.attributes.get("mood"), Some(100));
    let m2 = Modifier::Attribute {
        attr: Identity::Str("mood".to_string()),
        val: ValModifier::Add(-500),
    };
    assert!(m2.modify(&empty_maps(), &time, &mut p, &mut rand).is_ok());
    assert_eq!(p.attributes.get("mood"), Some(0));
}

#[test]
fn attribute_multiply_truncates() {
    let mut p = Player::new(&vec![attr_def("mood", 0, 200, 100)]);
    let time = TimeSystem::new();
    let mut rand = Rand::from_seed(1);
    let m = Modifier::Attribute {
        attr: Identity::Str("mood".to_string()),
        val: ValModifier::Mul { num: 1, den: 2 },
    };
    assert!(m.modify(&empty_maps(), &time, &mut p, &mut rand).is_ok());
    assert_eq!(p.attributes.get("mood"), Some(50));
}

#[test]
fn attribute_sqrt10_rescale() {
    let mut p = Player::new(&vec![attr_def("mood", 0, 200, 81)]);
    let time = TimeSystem::new();
    let mut rand = Rand::from_seed(1);
    let m = Modifier::Attribute {
        attr: Identity::Str("mood".to_string()),
        val: ValModifier::Sqrt10,
    };
    assert!(m.modify(&empty_maps(), &time, &mut p, &mut rand).is_ok());
    assert_eq!(p.attributes.get("mood"), Some(90));
}

#[test]
fn attribute_by_index_and_unaddressed() {
    let mut p = base_player();
    let time = TimeSystem::new();
    let mut rand = Rand::from_seed(1);
    let by_index = Modifier::Attribute { attr: Identity::Index(0), val: ValModifier::Add(5) };
    assert!(by_index.modify(&empty_maps(), &time, &mut p, &mut rand).is_ok());
    assert_eq!(p.attributes.get("mood"), Some(85));
    // an unaddressed mutation references no attribute and stays a no-op
    let unaddressed = Modifier::Attribute { attr: Identity::NoOp, val: ValModifier::Add(5) };
    assert!(unaddressed.modify(&empty_maps(), &time, &mut p, &mut rand).is_ok());
    assert_eq!(p.attributes.get("mood"), Some(85));
}

#[test]
fn attribute_mutation_of_missing_attribute_fails_hard() {
    let mut p = base_player();
    let time = TimeSystem::new();
    let mut rand = Rand::from_seed(1);
    // a name the store does not hold is a typed failure, world untouched
    let missing = Modifier::Attribute {
        attr: Identity::Str("charm".to_string()),
        val: ValModifier::Add(5),
    };
    match missing.modify(&empty_maps(), &time, &mut p, &mut rand) {
        Err(GameErr::Eval(EvalErr::MissingAttribute(name))) => assert_eq!(name, "charm"),
        _ => panic!("expected a typed missing-attribute failure"),
    }
    assert_eq!(p.attributes.get("mood"), Some(80));
    // an index out of range fails the same way
    let out_of_range = Modifier::Attribute { attr: Identity::Index(7), val: ValModifier::Add(5) };
    match out_of_range.modify(&empty_maps(), &time, &mut p, &mut rand) {
        Err(GameErr::Eval(EvalErr::MissingAttributeIndex(i))) => assert_eq!(i, 7),
        _ => panic!("expected a typed missing-index failure"),
    }
    assert_eq!(p.attributes.get("mood"), Some(80));
    // the failure aborts the rest of a group
    let group = Modifier::Group(vec![
        Modifier::Attribute {
            attr: Identity::Str("charm".to_string()),
            val: ValModifier::Add(5),
        },
        Modifier::Attribute {
            attr: Identity::Str("mood".to_string()),
            val: ValModifier::Add(5),
        },
    ]);
    assert!(group.modify(&empty_maps(), &time, &mut p, &mut rand).is_err());
    assert_eq!(p.attributes.get("mood"), Some(80));
}

#[test]
fn integer_helpers_are_exact() {
    assert_eq!(isqrt(8100), 90);
    assert_eq!(isqrt(0), 0);
    assert_eq!(isqrt(99), 9);
    assert_eq!(trunc_div_i64(-7, 2), -3);
    assert_eq!(trunc_div_i64(7, 2), 3);
}

#[test]
fn item_sub_floors_at_zero_and_removes_empty() {
    let time = TimeSystem::new();
    let mut rand = Rand::from_seed(1);
    let mut p = player_with_item(ItemPayload::Int(1), 2);
    let m = Modifier::Item {
        item: "potion".to_string(),
        modify: ItemModifier::Sub { sub: 5, val: None },
    };
    assert!(m.modify(&empty_maps(), &time, &mut p, &mut rand).is_ok());
    // the count was floored at zero and the empty entry removed
    assert_eq!(p.items.find_index("potion"), None);
}

#[test]
fn item_sub_guard_must_match_payload() {
    let time = TimeSystem::new();
    let mut rand = Rand::from_seed(1);
    let mut p = player_with_item(ItemPayload::Int(1), 2);
    let guarded = Modifier::Item {
        item: "potion".to_string(),
        modify: ItemModifier::Sub { sub: 1, val: Some(ItemPayload::Int(9)) },
    };
    assert!(guarded.modify(&empty_maps(), &time, &mut p, &mut rand).is_ok());
    assert_eq!(p.items.entries[0].1 .1, 2);
    let matching = Modifier::Item {
        item: "potion".to_string(),
        modify: ItemModifier::Sub { sub: 1, val: Some(ItemPayload::Int(1)) },
    };
    assert!(matching.modify(&empty_maps(), &time, &mut p, &mut rand).is_ok());
    assert_eq!(p.items.entries[0].1 .1, 1);
}

#[test]
fn item_add_and_replace_payload() {
    let time = TimeSystem::new();
    let mut rand = Rand::from_seed(1);
    let mut p = player_with_item(ItemPayload::Int(1), 2);
    let m = Modifier::Item {
        item: "potion".to_string(),
        modify: ItemModifier::Add { add: 3, val: Some(ItemPayload::Text("new".to_string())) },
    };
    assert!(m.modify(&empty_maps(), &time, &mut p, &mut rand).is_ok());
    assert_eq!(p.items.entries[0].1 .1, 5);
    assert!(narrative_core::items::payload_eq(
        &p.items.entries[0].1 .0,
        &ItemPayload::Text("new".to_string())
    ));
    // a missing item makes the operation a silent no-op
    let missing = Modifier::Item {
        item: "sword".to_string(),
        modify: ItemModifier::Add { add: 1, val: None },
    };
    assert!(missing.modify(&empty_maps(), &time, &mut p, &mut rand).is_ok());
    assert_eq!(p.items.entries.len(), 1);
}

fn two_town_map() -> MapSystem {
    MapSystem::new(vec![
        MapNode {
            name: "Town".to_string(),
            displayed_name: None,
            description: None,
            connections: vec![Connection {
                to: "Lake".to_string(),
                time: 3,
                optional_name: None,
                condition: None,
            }],
        },
        MapNode {
            name: "Lake".to_string(),
            displayed_name: None,
            description: None,
            connections: Vec::new(),
        },
    ])
}

#[test]
fn travel_follows_connections_and_reports_refusals() {
    let time = TimeSystem::new();
    let mut rand = Rand::from_seed(1);
    let maps = two_town_map();
    let mut p = base_player();
    let guarded = Modifier::Position { towards: "Lake".to_string(), check: true };
    assert!(guarded.modify(&maps, &time, &mut p, &mut rand).is_ok());
    assert_eq!(p.game_map, "Lake");
    // no connection back
    let back = Modifier::Position { towards: "Town".to_string(), check: true };
    match back.modify(&maps, &time, &mut p, &mut rand) {
        Err(GameErr::Travel(TravelErr::NoConnection)) => {}
        other => panic!("expected a refused travel, got {:?}", other.is_ok()),
    }
    assert_eq!(p.game_map, "Lake");
    // unconditional relocation bypasses travel rules
    let teleport = Modifier::Position { towards: "Moon".to_string(), check: false };
    assert!(teleport.modify(&maps, &time, &mut p, &mut rand).is_ok());
    assert_eq!(p.game_map, "Moon");
    // travelling from an unknown location is refused
    let lost = Modifier::Position { towards: "Lake".to_string(), check: true };
    match lost.modify(&maps, &time, &mut p, &mut rand) {
        Err(GameErr::Travel(TravelErr::UnknownLocation)) => {}
        other => panic!("expected an unknown location, got {:?}", other.is_ok()),
    }
}

#[test]
fn travel_errors_have_messages() {
    assert_eq!(
        TravelErr::UnknownLocation.message(),
        "the current location is not on the map"
    );
    assert_eq!(TravelErr::NoConnection.message(), "no connection leads to the destination");
}

#[test]
fn group_applies_in_order_and_aborts_on_failure() {
    let time = TimeSystem::new();
    let mut rand = Rand::from_seed(1);
    let maps = empty_maps();
    let mut p = base_player();
    let m = Modifier::Group(vec![
        Modifier::Attribute { attr: Identity::Str("mood".to_string()), val: ValModifier::Add(5) },
        // fails: the current location is not on the empty map
        Modifier::Position { towards: "Lake".to_string(), check: true },
        Modifier::Attribute { attr: Identity::Str("mood".to_string()), val: ValModifier::Add(5) },
    ]);
    assert!(m.modify(&maps, &time, &mut p, &mut rand).is_err());
    // the first member applied, the third was aborted
    assert_eq!(p.attributes.get("mood"), Some(85));
}

#[test]
fn conditional_group_applies_only_when_condition_holds() {
    let time = TimeSystem::new();
    let mut rand = Rand::from_seed(1);
    let maps = empty_maps();
    let mut p = base_player();
    let add = Modifier::Attribute {
        attr: Identity::Str("mood".to_string()),
        val: ValModifier::Add(5),
    };
    let skipped = Modifier::Condition {
        group: vec![add],
        cond: Some(Condition::False),
    };
    assert!(skipped.modify(&maps, &time, &mut p, &mut rand).is_ok());
    assert_eq!(p.attributes.get("mood"), Some(80));
    let add2 = Modifier::Attribute {
        attr: Identity::Str("mood".to_string()),
        val: ValModifier::Add(5),
    };
    let applied = Modifier::Condition { group: vec![add2], cond: None };
    assert!(applied.modify(&maps, &time, &mut p, &mut rand).is_ok());
    assert_eq!(p.attributes.get("mood"), Some(85));
}

#[test]
fn payload_equality_is_structural() {
    let a = ItemPayload::Table(vec!["x".to_string(), "y".to_string()]);
    let b = ItemPayload::Table(vec!["x".to_string(), "y".to_string()]);
    let c = ItemPayload::Table(vec!["x".to_string()]);
    assert!(payload_eq(&a, &b));
    assert!(!payload_eq(&a, &c));
    assert!(!payload_eq(&a, &ItemPayload::Int(3)));
    assert!(payload_eq(&ItemPayload::Text("t".to_string()), &ItemPayload::Text("t".to_string())));
    assert!(a.is_table());
    assert!(a.has_tag("x"));
    assert!(!a.has_tag("z"));
    assert!(!ItemPayload::Truth(true).is_table());
}

#[test]
fn clock_initialization_and_reading() {
    let t = TimeSystem::init_time();
    assert_eq!(t, SimTime { weekday: 1, minute: 420 });
    let mut p = base_player();
    p.game_time = t;
    assert_eq!(TimeSystem::get_current_time(&p), t);
}

#[test]
fn simtime_from_calendar_dates() {
    // 2024-01-01 was a Monday
    assert_eq!(
        SimTime::from_ymd_hm(2024, 1, 1, 0, 0),
        Some(SimTime { weekday: 0, minute: 0 })
    );
    // 2024-01-02 07:00, a Tuesday
    assert_eq!(
        SimTime::from_ymd_hm(2024, 1, 2, 7, 0),
        Some(SimTime { weekday: 1, minute: 420 })
    );
    // invalid dates and times give nothing
    assert_eq!(SimTime::from_ymd_hm(2023, 2, 29, 0, 0), None);
    assert_eq!(SimTime::from_ymd_hm(2024, 1, 1, 24, 0), None);
    assert_eq!(SimTime::from_ymd_hm(2024, 1, 1, 0, 60), None);
}
