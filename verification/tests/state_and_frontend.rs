use narrative_core::frontend::{DebugFromFrontend, DebugSign, FromFrontend, ToFrontend};
use narrative_core::game::GameData;
use narrative_core::items::ItemPayload;
use narrative_core::player::{Attribute, Player, PlayerAttribute, PlayerItem, SaveData};
use narrative_core::time_system::SimTime;
use narrative_core::triggers::Trigger;

fn attr_def(name: &str, min: i32, max: i32, default: i32) -> Attribute {
    Attribute {
        name: name.to_string(),
        max,
        min,
        default,
        over_max: max,
        under_min: min,
        over_max_desc: String::new(),
        under_min_desc: String::new(),
        invisible: false,
    }
}

#[test]
fn new_player_starts_from_defaults() {
    let p = Player::new(&vec![attr_def("mood", 0, 100, 80), attr_def("gold", 0, 9999, 10)]);
    assert_eq!(p.attributes.get("mood"), Some(80));
    assert_eq!(p.attributes.get("gold"), Some(10));
    assert_eq!(p.attributes.get("charm"), None);
    assert_eq!(p.game_map, "Town");
    assert_eq!(p.game_time, SimTime { weekday: 0, minute: 0 });
    assert!(p.cur_evt_seg.is_none());
    assert!(!p.stuck_in_event);
    assert!(matches!(&p.trigger[..], [Trigger::Init]));
    assert!(p.items.entries.is_empty());
}

#[test]
fn attribute_store_addressing() {
    let mut store = PlayerAttribute {
        val: vec![("mood".to_string(), 4), ("gold".to_string(), 7)],
    };
    assert_eq!(store.index_of("gold"), Some(1));
    assert_eq!(store.index_of("iron"), None);
    assert_eq!(
        store.id_index(&narrative_core::modifier::Identity::Index(1)),
        Some(1)
    );
    assert_eq!(store.id_index(&narrative_core::modifier::Identity::Index(2)), None);
    assert_eq!(store.id_index(&narrative_core::modifier::Identity::NoOp), None);
    assert!(store.set_value("mood", 9));
    assert_eq!(store.get("mood"), Some(9));
    assert!(!store.set_value("iron", 9));
    let listed = store.iter();
    assert_eq!(listed, vec![("mood".to_string(), 9), ("gold".to_string(), 7)]);
}

fn rich_player() -> Player {
    let mut p = Player::new(&vec![attr_def("mood", 0, 100, 80)]);
    p.items = PlayerItem {
        entries: vec![
            ("potion".to_string(), (ItemPayload::Table(vec!["magic".to_string()]), 2)),
            ("coin".to_string(), (ItemPayload::Int(5), 30)),
        ],
    };
    p.game_map = "Lake".to_string();
    p.game_time = SimTime { weekday: 3, minute: 600 };
    p.trigger = vec![Trigger::Custom("seen".to_string())];
    p.cur_evt_seg = Some(("tale".to_string(), Some("start".to_string())));
    p
}

#[test]
fn save_and_restore_round_trip() {
    // the persisted form reproduces attribute values, item contents, trigger
    // membership and location
    let p = rich_player();
    let saved = p.save();
    let defs: Vec<Attribute> = vec![attr_def("mood", 0, 100, 80)];
    let restored = Player::restore(saved, defs).expect("a saved world restores");
    assert_eq!(restored.attributes.get("mood"), p.attributes.get("mood"));
    assert_eq!(restored.items.entries.len(), 2);
    assert_eq!(restored.items.find_index("potion"), Some(0));
    assert!(restored.items.entries[0].1 .0.has_tag("magic"));
    assert_eq!(restored.items.entries[1].1 .1, 30);
    assert_eq!(restored.game_map, "Lake");
    assert_eq!(restored.game_time, SimTime { weekday: 3, minute: 600 });
    assert_eq!(restored.cur_evt_seg, Some(("tale".to_string(), Some("start".to_string()))));
    assert!(matches!(&restored.trigger[..], [Trigger::Custom(t)] if t == "seen"));
    assert!(!restored.stuck_in_event);
}

#[test]
fn restore_rejects_broken_saves() {
    let p = rich_player();
    // an attribute without a definition
    let saved = p.save();
    assert!(Player::restore(saved, Vec::new()).is_none());
    // an attribute out of its definition's bounds
    let mut saved = p.save();
    saved.attributes[0].1 = 101;
    assert!(Player::restore(saved, vec![attr_def("mood", 0, 100, 80)]).is_none());
    // an item with a zero count
    let mut saved = p.save();
    saved.items[0].1 .1 = 0;
    assert!(Player::restore(saved, vec![attr_def("mood", 0, 100, 80)]).is_none());
    // duplicate item names
    let mut saved = p.save();
    saved.items[1].0 = "potion".to_string();
    assert!(Player::restore(saved, vec![attr_def("mood", 0, 100, 80)]).is_none());
    // duplicate definitions
    let saved = p.save();
    let defs = vec![attr_def("mood", 0, 100, 80), attr_def("mood", 0, 50, 10)];
    assert!(Player::restore(saved, defs).is_none());
    // a definition whose default is out of bounds
    let saved = p.save();
    assert!(Player::restore(saved, vec![attr_def("mood", 0, 100, 200)]).is_none());
}

#[test]
fn restore_accepts_a_hand_written_save() {
    let data = SaveData {
        attributes: vec![("mood".to_string(), 12)],
        items: Vec::new(),
        game_time: SimTime { weekday: 0, minute: 0 },
        game_map: "Town".to_string(),
        cur_evt_seg: None,
        trigger: Vec::new(),
    };
    let p = Player::restore(data, vec![attr_def("mood", 0, 100, 80)]).expect("restores");
    assert_eq!(p.attributes.get("mood"), Some(12));
}

#[test]
fn over_under_descriptions_stop_at_two() {
    let mut defs = Vec::new();
    for name in ["a", "b", "c"] {
        defs.push(Attribute {
            name: name.to_string(),
            max: 100,
            min: 0,
            default: 90,
            over_max: 50,
            under_min: 10,
            over_max_desc: format!("{} runs high", name),
            under_min_desc: format!("{} runs low", name),
            invisible: false,
        });
    }
    let p = Player::new(&defs);
    // every value (90) is above its display threshold (50), but the walk
    // stops once two lines are collected
    let descs = p.get_over_under_descriptions();
    assert_eq!(descs, vec!["a runs high".to_string(), "b runs high".to_string()]);
    // an invisible attribute contributes nothing
    let mut quiet = clone_defs(&defs);
    quiet[0].invisible = true;
    let p2 = Player::new(&quiet);
    let descs2 = p2.get_over_under_descriptions();
    assert_eq!(descs2, vec!["b runs high".to_string(), "c runs high".to_string()]);
}

fn clone_defs(v: &Vec<Attribute>) -> Vec<Attribute> {
    v.iter().map(|a| a.duplicate()).collect()
}

#[test]
fn under_min_descriptions_appear() {
    let defs = vec![Attribute {
        name: "warmth".to_string(),
        max: 100,
        min: 0,
        default: 5,
        over_max: 90,
        under_min: 10,
        over_max_desc: "too hot".to_string(),
        under_min_desc: "too cold".to_string(),
        invisible: false,
    }];
    let p = Player::new(&defs);
    assert_eq!(p.get_over_under_descriptions(), vec!["too cold".to_string()]);
}

#[test]
fn catalog_validation_decides_session_seeding() {
    let good = GameData {
        maps: Vec::new(),
        events: Vec::new(),
        player: vec![attr_def("mood", 0, 100, 80)],
        trigger: Vec::new(),
    };
    assert!(good.validate());
    let duplicate = GameData {
        maps: Vec::new(),
        events: Vec::new(),
        player: vec![attr_def("mood", 0, 100, 80), attr_def("mood", 0, 5, 1)],
        trigger: Vec::new(),
    };
    assert!(!duplicate.validate());
    let bad_default = GameData {
        maps: Vec::new(),
        events: Vec::new(),
        player: vec![attr_def("mood", 0, 100, 200)],
        trigger: Vec::new(),
    };
    assert!(!bad_default.validate());
}

#[test]
fn snapshot_text_appends() {
    let mut cache = ToFrontend::new();
    cache.display_text("hello ");
    cache.display_text("world");
    assert_eq!(cache.main_area, Some("hello world".to_string()));
}

#[test]
fn snapshot_options_and_flags() {
    let mut cache = ToFrontend::new();
    cache.display_options(&[("go".to_string(), true), ("stay".to_string(), false)], true);
    assert_eq!(
        cache.option_area,
        Some(vec![("go".to_string(), true), ("stay".to_string(), false)])
    );
    assert_eq!(cache.option_display_disabled, Some(true));
    cache.display_options(&[("more".to_string(), true)], false);
    assert_eq!(cache.option_area.as_ref().map(|v| v.len()), Some(3));
    assert_eq!(cache.option_display_disabled, Some(false));
}

#[test]
fn snapshot_status_and_attributes() {
    let mut cache = ToFrontend::new();
    cache.display_player_status(&["tired".to_string()]);
    assert_eq!(cache.player_status, Some(vec!["tired".to_string()]));
    let attrs = vec![("mood".to_string(), 40), ("secret".to_string(), 1)];
    let mut defs = vec![attr_def("mood", 0, 100, 40), attr_def("secret", 0, 5, 1)];
    defs[1].invisible = true;
    cache.display_player_attributes(&attrs, &defs);
    assert_eq!(cache.player_attribute, Some(vec![("mood".to_string(), 40, 100)]));
}

#[test]
fn snapshot_avatar_directives() {
    let mut cache = ToFrontend::new();
    cache.add_avatar_deco("hat".to_string());
    assert_eq!(cache.avatar_image.1, Some(vec!["hat".to_string()]));
    cache.change_avatar_keeping_deco("face2".to_string());
    assert_eq!(cache.avatar_image.0, Some("face2".to_string()));
    assert_eq!(cache.avatar_image.1, Some(vec!["hat".to_string()]));
    cache.change_avatar("face3".to_string());
    assert_eq!(cache.avatar_image.0, Some("face3".to_string()));
    assert_eq!(cache.avatar_image.1, Some(Vec::new()));
}

#[test]
fn snapshot_merge_and_clear() {
    let mut cache = ToFrontend::new();
    cache.display_text("kept");
    let mut incoming = ToFrontend::new();
    incoming.display_options(&[("x".to_string(), true)], false);
    cache.merge(incoming);
    assert_eq!(cache.main_area, Some("kept".to_string()));
    assert!(cache.option_area.is_some());
    let taken = cache.clone_and_clear();
    assert_eq!(taken.main_area, Some("kept".to_string()));
    assert!(cache.main_area.is_none());
    assert!(cache.option_area.is_none());
}

#[test]
fn inbound_messages_resolve_to_choices() {
    assert_eq!(FromFrontend::Choice(3).into_choice().ok(), Some(3));
    let escape = FromFrontend::Debug(DebugFromFrontend {
        sign: DebugSign::SetAttribute("mood".to_string(), 7),
    });
    match escape.into_choice() {
        Err(d) => match d.sign {
            DebugSign::SetAttribute(name, v) => {
                assert_eq!(name, "mood");
                assert_eq!(v, 7);
            },
            _ => panic!("expected the set-attribute command"),
        },
        Ok(_) => panic!("expected the command back"),
    }
    assert!(matches!(
        FromFrontend::Empty.into_choice(),
        Err(DebugFromFrontend { sign: DebugSign::Nothing })
    ));
}
