use narrative_core::conditions::Condition;
use narrative_core::events::{
    AvatarSet, EventData, EventOption, EventSegment, EventSystem, SegmentStep,
};
use narrative_core::game::GameErr;
use narrative_core::map_system::MapSystem;
use narrative_core::modifier::{Identity, Modifier, ValModifier};
use narrative_core::player::{Attribute, Player};
use narrative_core::rng::Rand;
use narrative_core::systems::Systems;
use narrative_core::time_system::TimeSystem;
use narrative_core::triggers::{Trigger, TriggerSystem};

fn attr_def(name: &str, min: i32, max: i32, default: i32) -> Attribute {
    Attribute {
        name: name.to_string(),
        max,
        min,
        default,
        over_max: max,
        under_min: min,
        over_max_desc: String::new(),
        under_min_desc: String::new(),
        invisible: false,
    }
}

fn plain_option(text: &str, modifier: Modifier) -> EventOption {
    EventOption {
        text: text.to_string(),
        condition: None,
        jump_to_event: None,
        jump_to: None,
        trigger: None,
        avatar_set: None,
        modifier,
    }
}

fn one_segment_event(name: &str, priority: u32, options: Vec<EventOption>) -> EventData {
    EventData {
        name: name.to_string(),
        priority,
        force: false,
        condition: Condition::True,
        segments: vec![EventSegment {
            name: "start".to_string(),
            text: format!("{} begins", name),
            silent: false,
            options,
            hide_disabled_options: false,
        }],
        stuck_moving: false,
    }
}

fn always_bindings(names: &[&str]) -> Vec<(String, Trigger)> {
    names.iter().map(|n| (n.to_string(), Trigger::Always)).collect()
}

#[test]
fn scheduler_picks_smallest_priority() {
    // candidates with priorities {5, 2, 8}, all eligible, no active event:
    // the priority-2 event is selected
    let events = EventSystem::new(vec![
        one_segment_event("five", 5, Vec::new()),
        one_segment_event("two", 2, Vec::new()),
        one_segment_event("eight", 8, Vec::new()),
    ]);
    let registry = TriggerSystem::new(&always_bindings(&["five", "two", "eight"]));
    let mut player = Player::new(&vec![attr_def("mood", 0, 100, 50)]);
    player.trigger = vec![Trigger::Always];
    let mut rand = Rand::from_seed(1);
    let picked = registry.pick_event(&player, &events, &mut rand);
    assert_eq!(picked, Ok(Some("two".to_string())));
}

#[test]
fn scheduler_never_interrupts_a_forced_event() {
    let mut boss = one_segment_event("boss", 9, Vec::new());
    boss.force = true;
    let events = EventSystem::new(vec![boss, one_segment_event("urgent", 0, Vec::new())]);
    let registry = TriggerSystem::new(&always_bindings(&["urgent"]));
    let mut player = Player::new(&vec![attr_def("mood", 0, 100, 50)]);
    player.trigger = vec![Trigger::Always];
    player.cur_evt_seg = Some(("boss".to_string(), None));
    let mut rand = Rand::from_seed(1);
    // no candidate is examined and no draw is consumed
    assert_eq!(registry.pick_event(&player, &events, &mut rand), Ok(None));
    assert_eq!(rand.state, 1);
}

#[test]
fn scheduler_preempts_only_more_urgent_candidates() {
    let events = EventSystem::new(vec![
        one_segment_event("current", 3, Vec::new()),
        one_segment_event("less_urgent", 5, Vec::new()),
        one_segment_event("more_urgent", 1, Vec::new()),
    ]);
    let mut player = Player::new(&vec![attr_def("mood", 0, 100, 50)]);
    player.trigger = vec![Trigger::Always];
    player.cur_evt_seg = Some(("current".to_string(), None));
    let mut rand = Rand::from_seed(1);
    let only_less = TriggerSystem::new(&always_bindings(&["less_urgent"]));
    assert_eq!(only_less.pick_event(&player, &events, &mut rand), Ok(None));
    let both = TriggerSystem::new(&always_bindings(&["less_urgent", "more_urgent"]));
    assert_eq!(
        both.pick_event(&player, &events, &mut rand),
        Ok(Some("more_urgent".to_string()))
    );
}

#[test]
fn scheduler_ties_go_to_the_first_candidate() {
    let events = EventSystem::new(vec![
        one_segment_event("first", 4, Vec::new()),
        one_segment_event("second", 4, Vec::new()),
    ]);
    let registry = TriggerSystem::new(&always_bindings(&["first", "second"]));
    let mut player = Player::new(&vec![attr_def("mood", 0, 100, 50)]);
    player.trigger = vec![Trigger::Always];
    let mut rand = Rand::from_seed(1);
    assert_eq!(registry.pick_event(&player, &events, &mut rand), Ok(Some("first".to_string())));
}

#[test]
fn scheduler_filters_by_condition() {
    let mut no = one_segment_event("no", 1, Vec::new());
    no.condition = Condition::False;
    let events = EventSystem::new(vec![no, one_segment_event("yes", 6, Vec::new())]);
    let registry = TriggerSystem::new(&always_bindings(&["no", "yes"]));
    let mut player = Player::new(&vec![attr_def("mood", 0, 100, 50)]);
    player.trigger = vec![Trigger::Always];
    let mut rand = Rand::from_seed(1);
    assert_eq!(registry.pick_event(&player, &events, &mut rand), Ok(Some("yes".to_string())));
}

#[test]
fn registry_unions_and_deduplicates_candidates() {
    let registry = TriggerSystem::new(&vec![
        ("a".to_string(), Trigger::Always),
        ("b".to_string(), Trigger::Custom("x".to_string())),
        ("c".to_string(), Trigger::Always),
        ("a".to_string(), Trigger::Custom("x".to_string())),
    ]);
    let all = registry.get_all_events(&vec![Trigger::Always, Trigger::Custom("x".to_string())]);
    assert_eq!(all, vec!["a".to_string(), "c".to_string(), "b".to_string()]);
    let only_custom = registry.get_all_events(&vec![Trigger::Custom("x".to_string())]);
    assert_eq!(only_custom, vec!["b".to_string(), "a".to_string()]);
    let none = registry.get_all_events(&vec![Trigger::Init]);
    assert!(none.is_empty());
}

#[test]
fn set_default_seeds_always_once() {
    let mut triggers = Vec::new();
    TriggerSystem::set_default(&mut triggers);
    TriggerSystem::set_default(&mut triggers);
    assert_eq!(triggers.len(), 1);
    assert!(matches!(triggers[0], Trigger::Always));
}

#[test]
fn terminal_segment_goes_idle() {
    // a segment with zero options, once rendered, transitions the machine to
    // Idle
    let events = EventSystem::new(vec![one_segment_event("tale", 1, Vec::new())]);
    let mut player = Player::new(&vec![attr_def("mood", 0, 100, 50)]);
    player.cur_evt_seg = Some(("tale".to_string(), None));
    let time = TimeSystem::new();
    let mut rand = Rand::from_seed(1);
    match events.begin_step(&time, &mut player, &mut rand) {
        Ok(SegmentStep::Finished { text }) => assert_eq!(text, Some("tale begins".to_string())),
        _ => panic!("expected a finished step"),
    }
    assert!(player.cur_evt_seg.is_none());
}

#[test]
fn idle_and_unknown_pointers_finish_without_text() {
    let events = EventSystem::new(vec![one_segment_event("tale", 1, Vec::new())]);
    let time = TimeSystem::new();
    let mut rand = Rand::from_seed(1);
    let mut player = Player::new(&vec![attr_def("mood", 0, 100, 50)]);
    match events.begin_step(&time, &mut player, &mut rand) {
        Ok(SegmentStep::Finished { text }) => assert_eq!(text, None),
        _ => panic!("expected a finished step"),
    }
    player.cur_evt_seg = Some(("nowhere".to_string(), None));
    match events.begin_step(&time, &mut player, &mut rand) {
        Ok(SegmentStep::Finished { text }) => assert_eq!(text, None),
        _ => panic!("expected a finished step"),
    }
    assert!(player.cur_evt_seg.is_none());
    // a named segment that is missing aborts to Idle
    player.cur_evt_seg = Some(("tale".to_string(), Some("missing".to_string())));
    match events.begin_step(&time, &mut player, &mut rand) {
        Ok(SegmentStep::Finished { text }) => assert_eq!(text, None),
        _ => panic!("expected a finished step"),
    }
    assert!(player.cur_evt_seg.is_none());
}

#[test]
fn silent_segment_picks_first_enabled_option() {
    let mut disabled = plain_option("hidden", Modifier::NoOp);
    disabled.condition = Some(Condition::False);
    let enabled = plain_option("go", Modifier::NoOp);
    let mut event = one_segment_event("auto", 1, vec![disabled, enabled]);
    event.segments[0].silent = true;
    let events = EventSystem::new(vec![event]);
    let time = TimeSystem::new();
    let mut rand = Rand::from_seed(1);
    let mut player = Player::new(&vec![attr_def("mood", 0, 100, 50)]);
    player.cur_evt_seg = Some(("auto".to_string(), None));
    match events.begin_step(&time, &mut player, &mut rand) {
        Ok(SegmentStep::AutoChoice { pick, .. }) => assert_eq!(pick, 1),
        _ => panic!("expected an automatic pick"),
    }
}

#[test]
fn silent_segment_with_nothing_enabled_is_an_error() {
    let mut disabled = plain_option("hidden", Modifier::NoOp);
    disabled.condition = Some(Condition::False);
    let mut event = one_segment_event("auto", 1, vec![disabled]);
    event.segments[0].silent = true;
    let events = EventSystem::new(vec![event]);
    let time = TimeSystem::new();
    let mut rand = Rand::from_seed(1);
    let mut player = Player::new(&vec![attr_def("mood", 0, 100, 50)]);
    player.cur_evt_seg = Some(("auto".to_string(), None));
    assert!(matches!(
        events.begin_step(&time, &mut player, &mut rand),
        Err(GameErr::NoEnabledOption)
    ));
}

#[test]
fn options_carry_enabled_flags() {
    let mut locked = plain_option("locked", Modifier::NoOp);
    locked.condition = Some(Condition::False);
    let open = plain_option("open", Modifier::NoOp);
    let mut event = one_segment_event("fork", 1, vec![open, locked]);
    event.segments[0].hide_disabled_options = true;
    let events = EventSystem::new(vec![event]);
    let time = TimeSystem::new();
    let mut rand = Rand::from_seed(1);
    let mut player = Player::new(&vec![attr_def("mood", 0, 100, 50)]);
    player.cur_evt_seg = Some(("fork".to_string(), None));
    match events.begin_step(&time, &mut player, &mut rand) {
        Ok(SegmentStep::AwaitChoice { text, options, hide_disabled }) => {
            assert_eq!(text, "fork begins");
            assert!(hide_disabled);
            assert_eq!(options.len(), 2);
            assert_eq!(options[0], ("open".to_string(), true));
            assert_eq!(options[1], ("locked".to_string(), false));
        },
        _ => panic!("expected options"),
    }
    // the pointer still points at the segment while awaiting the choice
    assert!(player.cur_evt_seg.is_some());
}

#[test]
fn same_event_jump_moves_to_named_segment() {
    let mut event = one_segment_event("tour", 1, Vec::new());
    let mut jump = plain_option("next", Modifier::NoOp);
    jump.jump_to = Some("end".to_string());
    event.segments = vec![
        EventSegment {
            name: "start".to_string(),
            text: "first".to_string(),
            silent: false,
            options: vec![jump],
            hide_disabled_options: false,
        },
        EventSegment {
            name: "end".to_string(),
            text: "last".to_string(),
            silent: false,
            options: Vec::new(),
            hide_disabled_options: false,
        },
    ];
    let events = EventSystem::new(vec![event]);
    let time = TimeSystem::new();
    let maps = MapSystem::new(Vec::new());
    let mut rand = Rand::from_seed(1);
    let mut player = Player::new(&vec![attr_def("mood", 0, 100, 50)]);
    player.cur_evt_seg = Some(("tour".to_string(), None));
    assert!(events.begin_step(&time, &mut player, &mut rand).is_ok());
    assert!(events.apply_choice(0, &maps, &time, &mut player, &mut rand).is_ok());
    assert_eq!(player.cur_evt_seg, Some(("tour".to_string(), Some("end".to_string()))));
    // the next step renders the terminal segment and goes idle
    match events.begin_step(&time, &mut player, &mut rand) {
        Ok(SegmentStep::Finished { text }) => assert_eq!(text, Some("last".to_string())),
        _ => panic!("expected a finished step"),
    }
    assert!(player.cur_evt_seg.is_none());
}

#[test]
fn cross_event_jump_and_triggers_and_avatar() {
    let mut option = plain_option("leap", Modifier::NoOp);
    option.jump_to_event = Some("elsewhere".to_string());
    option.trigger = Some(vec![Trigger::Custom("fired".to_string())]);
    option.avatar_set = Some(AvatarSet::Main("smile".to_string()));
    let events = EventSystem::new(vec![
        one_segment_event("here", 1, vec![option]),
        one_segment_event("elsewhere", 1, Vec::new()),
    ]);
    let time = TimeSystem::new();
    let maps = MapSystem::new(Vec::new());
    let mut rand = Rand::from_seed(1);
    let mut player = Player::new(&vec![attr_def("mood", 0, 100, 50)]);
    player.trigger = Vec::new();
    player.cur_evt_seg = Some(("here".to_string(), None));
    assert!(events.begin_step(&time, &mut player, &mut rand).is_ok());
    match events.apply_choice(0, &maps, &time, &mut player, &mut rand) {
        Ok(Some(AvatarSet::Main(name))) => assert_eq!(name, "smile"),
        _ => panic!("expected the avatar directive back"),
    }
    assert_eq!(player.cur_evt_seg, Some(("elsewhere".to_string(), None)));
    assert!(matches!(&player.trigger[..], [Trigger::Custom(t)] if t == "fired"));
}

#[test]
fn stuck_flag_follows_running_event() {
    let mut stay = plain_option("stay", Modifier::NoOp);
    stay.jump_to = Some("start".to_string());
    let mut event = one_segment_event("den", 1, vec![stay]);
    event.stuck_moving = true;
    let events = EventSystem::new(vec![event]);
    let time = TimeSystem::new();
    let maps = MapSystem::new(Vec::new());
    let mut rand = Rand::from_seed(1);
    let mut player = Player::new(&vec![attr_def("mood", 0, 100, 50)]);
    player.cur_evt_seg = Some(("den".to_string(), None));
    assert!(events.begin_step(&time, &mut player, &mut rand).is_ok());
    assert!(events.apply_choice(0, &maps, &time, &mut player, &mut rand).is_ok());
    assert!(player.stuck_in_event);
}

#[test]
fn emitted_triggers_reach_the_next_tick() {
    // an option emits a custom trigger; the event bound to that trigger is
    // scheduled on the following tick
    let mut emit = plain_option("wave", Modifier::NoOp);
    emit.trigger = Some(vec![Trigger::Custom("signal".to_string())]);
    let systems = Systems {
        time: TimeSystem::new(),
        map: MapSystem::new(Vec::new()),
        trigger: TriggerSystem::new(&vec![
            ("opener".to_string(), Trigger::Init),
            ("answer".to_string(), Trigger::Custom("signal".to_string())),
        ]),
        event: EventSystem::new(vec![
            one_segment_event("opener", 1, vec![emit]),
            one_segment_event("answer", 1, Vec::new()),
        ]),
    };
    let mut player = Player::new(&vec![attr_def("mood", 0, 100, 50)]);
    let mut rand = Rand::from_seed(9);
    // first tick: the initialization trigger schedules the opener
    assert!(systems.schedule_tick(&mut player, &mut rand).is_ok());
    assert_eq!(player.cur_evt_seg, Some(("opener".to_string(), None)));
    assert!(player.trigger.is_empty());
    assert!(systems.event.begin_step(&systems.time, &mut player, &mut rand).is_ok());
    assert!(
        systems.event.apply_choice(0, &systems.map, &systems.time, &mut player, &mut rand).is_ok()
    );
    // the option carried no jump, so the opener ended; its trigger is set
    assert!(player.cur_evt_seg.is_none());
    assert_eq!(player.trigger.len(), 1);
    // second tick: the emitted trigger makes the answer a candidate
    assert!(systems.schedule_tick(&mut player, &mut rand).is_ok());
    assert_eq!(player.cur_evt_seg, Some(("answer".to_string(), None)));
}

#[test]
fn random_draws_are_consumed_in_candidate_order() {
    // every examined candidate's condition is evaluated, so a run with the
    // same seed and the same candidates is reproducible
    let mut coin_a = one_segment_event("coin_a", 1, Vec::new());
    coin_a.condition = Condition::RandomCondition(500000);
    let mut coin_b = one_segment_event("coin_b", 2, Vec::new());
    coin_b.condition = Condition::RandomCondition(500000);
    let events = EventSystem::new(vec![coin_a, coin_b]);
    let registry = TriggerSystem::new(&always_bindings(&["coin_a", "coin_b"]));
    let mut player = Player::new(&vec![attr_def("mood", 0, 100, 50)]);
    player.trigger = vec![Trigger::Always];
    let mut r1 = Rand::from_seed(77);
    let mut r2 = Rand::from_seed(77);
    let first = registry.pick_event(&player, &events, &mut r1);
    let second = registry.pick_event(&player, &events, &mut r2);
    assert_eq!(first, second);
    assert_eq!(r1.state, r2.state);
    // both coins were tossed: two draws were consumed
    let mut r3 = Rand::from_seed(77);
    r3.next_below(1000000);
    r3.next_below(1000000);
    assert_eq!(r1.state, r3.state);
}

#[test]
fn full_scenario_applies_modifier_and_goes_idle() {
    // event E, priority 1, condition True, one segment with one option whose
    // modifier adds 10 to mood and which carries no jump: selecting it ends
    // the event, raises mood by 10 (clamped) and leaves the engine Idle
    let option = plain_option(
        "leave",
        Modifier::Attribute {
            attr: Identity::Str("mood".to_string()),
            val: ValModifier::Add(10),
        },
    );
    let systems = Systems {
        time: TimeSystem::new(),
        map: MapSystem::new(Vec::new()),
        trigger: TriggerSystem::new(&always_bindings(&["E"])),
        event: EventSystem::new(vec![one_segment_event("E", 1, vec![option])]),
    };
    let mut player = Player::new(&vec![attr_def("mood", 0, 100, 50)]);
    let mut rand = Rand::from_seed(1);
    assert!(systems.schedule_tick(&mut player, &mut rand).is_ok());
    assert_eq!(player.cur_evt_seg, Some(("E".to_string(), None)));
    assert!(player.trigger.is_empty());
    let step = systems.event.begin_step(&systems.time, &mut player, &mut rand);
    match step {
        Ok(SegmentStep::AwaitChoice { text, options, .. }) => {
            assert_eq!(text, "E begins");
            assert_eq!(options, vec![("leave".to_string(), true)]);
        },
        _ => panic!("expected options"),
    }
    let out = systems.event.apply_choice(0, &systems.map, &systems.time, &mut player, &mut rand);
    assert!(matches!(out, Ok(None)));
    assert_eq!(player.attributes.get("mood"), Some(60));
    assert!(player.cur_evt_seg.is_none());
    assert!(!player.stuck_in_event);
    // clamping: a second run from a high value lands on the maximum
    let mut rich = Player::new(&vec![attr_def("mood", 0, 100, 95)]);
    let mut rand2 = Rand::from_seed(2);
    assert!(systems.schedule_tick(&mut rich, &mut rand2).is_ok());
    assert!(systems.event.begin_step(&systems.time, &mut rich, &mut rand2).is_ok());
    assert!(
        systems.event.apply_choice(0, &systems.map, &systems.time, &mut rich, &mut rand2).is_ok()
    );
    assert_eq!(rich.attributes.get("mood"), Some(100));
}
