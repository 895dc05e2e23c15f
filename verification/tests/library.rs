use orbital::broadphase::FrameSpaceCache;
use orbital::clock::{warp_cap_level, warp_level, SimClock, DAY, POWERED_WARP_CEILING, TOP_LEVEL};
use orbital::game_state::{not_menu, pause_menu_requests, toggle_mode, AppMode, GameState};
use orbital::hierarchy::{body_tree, entity_tag};
use orbital::log_capture::{color_for, LogColor, LogLevel, LogLine, LogStore, MAX_LINES};
use orbital::propagation::OrbitPropagationCache;
use orbital::routing::{
    click_order, root_capture_siblings, soi_transition, transfer_route, ClickOrder, SoiTransition,
    TargetKind, TransferRoute,
};
use orbital::names::{contains_text_exec, lex_le_exec, name_is_listed, resolve_names, sort_names};
use orbital::scene::{initial_position, resolved_motion, saved_motion, MotionDescription, SimulationTier};
use orbital::text::{decimal_string, fmt_time, numbered_name};

// ---- broadphase ----

#[test]
fn missing_frame_returns_empty_slice() {
    let cache: FrameSpaceCache<u64> = FrameSpaceCache::default();
    assert!(cache.siblings(u64::MAX).is_empty());
}

#[test]
fn frame_cache_groups_siblings_in_listing_order() {
    let cache = FrameSpaceCache::build(vec![(1u64, 'a'), (2, 'b'), (1, 'c'), (3, 'd'), (1, 'e')]);
    assert_eq!(cache.siblings(1), &['a', 'c', 'e']);
    assert_eq!(cache.siblings(2), &['b']);
    assert_eq!(cache.siblings(3), &['d']);
    assert!(cache.siblings(4).is_empty());
}

#[test]
fn frame_cache_push_and_clear() {
    let mut cache: FrameSpaceCache<u32> = FrameSpaceCache::new();
    cache.push(7, 10);
    cache.push(8, 20);
    cache.push(7, 30);
    assert_eq!(cache.siblings(7), &[10, 30]);
    assert_eq!(cache.siblings(8), &[20]);
    cache.clear();
    assert!(cache.siblings(7).is_empty());
    assert!(cache.siblings(8).is_empty());
}

// ---- clock ----

#[test]
fn warp_ladder_values() {
    let expected: [u64; 12] = [
        0,
        1,
        10,
        60,
        600,
        10_800,
        21_600,
        43_200,
        86_400,
        172_800,
        864_000,
        2_592_000,
    ];
    for (level, w) in expected.iter().enumerate() {
        assert_eq!(warp_level(level), *w, "level {level}");
    }
    assert_eq!(DAY, 86_400);
}

#[test]
fn default_clock_runs_an_eighth_of_a_day_per_second() {
    let clock = SimClock::default();
    assert_eq!(clock.warp(), DAY / 8);
    assert_eq!(SimClock::new().warp(), 10_800);
}

#[test]
fn faster_stops_at_the_top_and_slower_at_paused() {
    let mut clock = SimClock::new();
    for _ in 0..20 {
        clock.faster();
    }
    assert_eq!(clock.warp(), 30 * DAY);
    for _ in 0..20 {
        clock.slower();
    }
    assert_eq!(clock.warp(), 0);
    clock.faster();
    assert_eq!(clock.warp(), 1);
}

#[test]
fn faster_then_slower_returns_to_the_same_rung() {
    let mut clock = SimClock::new();
    let before = clock.warp();
    clock.faster();
    assert_eq!(clock.warp(), DAY / 4);
    clock.slower();
    assert_eq!(clock.warp(), before);
}

#[test]
fn pause_stops_time() {
    let mut clock = SimClock::new();
    clock.pause();
    assert_eq!(clock.warp(), 0);
}

#[test]
fn powered_cap_is_one_day_and_release_restores_request() {
    assert_eq!(warp_cap_level(true), 8);
    assert_eq!(warp_cap_level(false), TOP_LEVEL);
    let mut clock = SimClock::new();
    for _ in 0..6 {
        clock.faster();
    }
    assert_eq!(clock.warp(), 30 * DAY);
    clock.set_max_level(warp_cap_level(true));
    assert_eq!(clock.warp(), POWERED_WARP_CEILING);
    clock.set_max_level(warp_cap_level(false));
    assert_eq!(clock.warp(), 30 * DAY);
}

#[test]
fn cap_does_not_raise_a_slow_request() {
    let mut clock = SimClock::new();
    clock.set_max_level(8);
    assert_eq!(clock.warp(), DAY / 8);
    clock.set_max_level(usize::MAX);
    clock.faster();
    clock.faster();
    clock.faster();
    clock.faster();
    assert_eq!(clock.warp(), 2 * DAY);
}

#[test]
fn warp_keys_in_one_frame_cancel_out() {
    let mut clock = SimClock::new();
    clock.apply_warp_keys(true, true);
    assert_eq!(clock.warp(), DAY / 8);
    clock.apply_warp_keys(true, false);
    assert_eq!(clock.warp(), DAY / 4);
    clock.apply_warp_keys(false, true);
    clock.apply_warp_keys(false, true);
    assert_eq!(clock.warp(), 600);
    clock.apply_warp_keys(false, false);
    assert_eq!(clock.warp(), 600);
}

// ---- game state ----

#[test]
fn tab_flips_running_and_editing() {
    assert_eq!(toggle_mode(GameState::Running, true, false), Some(GameState::Editing));
    assert_eq!(toggle_mode(GameState::Editing, true, false), Some(GameState::Running));
    assert_eq!(toggle_mode(GameState::Paused, true, false), Some(GameState::Paused));
}

#[test]
fn escape_pauses_and_resumes() {
    assert_eq!(toggle_mode(GameState::Running, false, true), Some(GameState::Paused));
    assert_eq!(toggle_mode(GameState::Editing, false, true), Some(GameState::Paused));
    assert_eq!(toggle_mode(GameState::Paused, false, true), Some(GameState::Running));
}

#[test]
fn keys_leave_loading_and_saving_alone() {
    for s in [GameState::Loading, GameState::Saving] {
        assert_eq!(toggle_mode(s, true, false), Some(s));
        assert_eq!(toggle_mode(s, false, true), Some(s));
    }
}

#[test]
fn escape_wins_over_tab() {
    assert_eq!(toggle_mode(GameState::Running, true, true), Some(GameState::Paused));
    assert_eq!(toggle_mode(GameState::Paused, true, true), Some(GameState::Running));
}

#[test]
fn no_keys_no_request() {
    assert_eq!(toggle_mode(GameState::Running, false, false), None);
}

#[test]
fn pause_menu_buttons() {
    assert_eq!(pause_menu_requests(false, false, false), (None, None));
    assert_eq!(pause_menu_requests(true, false, false), (Some(GameState::Running), None));
    assert_eq!(pause_menu_requests(true, true, false), (Some(GameState::Saving), None));
    assert_eq!(pause_menu_requests(false, false, true), (None, Some(AppMode::Menu)));
}

#[test]
fn modes_and_defaults() {
    assert!(!not_menu(AppMode::Menu));
    assert!(not_menu(AppMode::Run));
    assert!(not_menu(AppMode::Edit));
    assert_eq!(AppMode::default(), AppMode::Menu);
    assert_eq!(GameState::default(), GameState::Loading);
}

// ---- log capture ----

fn line(level: LogLevel, msg: &str) -> LogLine {
    LogLine { level, msg: msg.to_string() }
}

#[test]
fn log_keeps_the_last_lines() {
    let mut store = LogStore::new();
    assert_eq!(store.len(), 0);
    for i in 0..(MAX_LINES + 5) {
        store.push(line(LogLevel::Info, &i.to_string()));
    }
    assert_eq!(store.len(), MAX_LINES);
    assert_eq!(store.lines().front().unwrap().msg, "5");
    assert_eq!(store.lines().back().unwrap().msg, (MAX_LINES + 4).to_string());
}

#[test]
fn log_short_history_is_kept_whole() {
    let mut store = LogStore::default();
    store.push(line(LogLevel::Warn, "a"));
    store.push(line(LogLevel::Error, "b"));
    assert_eq!(store.len(), 2);
    let msgs: Vec<&str> = store.lines().iter().map(|l| l.msg.as_str()).collect();
    assert_eq!(msgs, vec!["a", "b"]);
    assert_eq!(store.lines()[1].level, LogLevel::Error);
}

#[test]
fn log_colors() {
    assert_eq!(color_for(LogLevel::Error), LogColor::Rgb(240, 90, 90));
    assert_eq!(color_for(LogLevel::Warn), LogColor::Rgb(240, 200, 90));
    assert_eq!(color_for(LogLevel::Info), LogColor::Rgb(180, 220, 180));
    assert_eq!(color_for(LogLevel::Debug), LogColor::Gray);
    assert_eq!(color_for(LogLevel::Trace), LogColor::Gray);
}

// ---- text ----

#[test]
fn clock_readout() {
    assert_eq!(fmt_time(273_906), "3d 04:05:06");
    assert_eq!(fmt_time(0), "0d 00:00:00");
    assert_eq!(fmt_time(86_399), "0d 23:59:59");
    assert_eq!(fmt_time(86_400 * 400 + 61), "400d 00:01:01");
}

#[test]
fn decimal_text() {
    assert_eq!(decimal_string(0), "0");
    assert_eq!(decimal_string(7), "7");
    assert_eq!(decimal_string(1_234_567_890), "1234567890");
    assert_eq!(decimal_string(u64::MAX), u64::MAX.to_string());
}

#[test]
fn numbered_names() {
    assert_eq!(numbered_name("world_", 12), "world_12");
    assert_eq!(numbered_name("level_", 0), "level_0");
    assert_ne!(numbered_name("world_", 1), numbered_name("world_", 11));
}

// ---- propagation ----

#[test]
fn rebuild_puts_parents_first() {
    let mut cache = OrbitPropagationCache::new();
    assert!(cache.needs_rebuild());
    // 1 is a root; 2 and 4 orbit it; 3 orbits 2
    cache.rebuild_order(&vec![(2, 1), (3, 2), (4, 1)], &vec![1]);
    assert_eq!(cache.order(), &vec![2, 3, 4]);
    assert!(!cache.needs_rebuild());
    cache.mark_dirty();
    assert!(cache.needs_rebuild());
    assert_eq!(cache.order(), &vec![2, 3, 4]);
}

#[test]
fn rebuild_lists_unreached_orbiters_after_the_reached_ones() {
    let mut cache = OrbitPropagationCache::default();
    // 10 orbits 99, which is neither a root nor an orbiter; 11 orbits 10
    cache.rebuild_order(&vec![(11, 10), (5, 1), (10, 99)], &vec![1]);
    assert_eq!(cache.order(), &vec![5, 11, 10]);
}

#[test]
fn rebuild_with_child_listed_before_parent() {
    let mut cache = OrbitPropagationCache::new();
    cache.rebuild_order(&vec![(3, 2), (2, 1)], &vec![1]);
    assert_eq!(cache.order(), &vec![2, 3]);
}

#[test]
fn empty_order_needs_rebuild() {
    let mut cache = OrbitPropagationCache::new();
    cache.rebuild_order(&vec![], &vec![1]);
    assert!(cache.order().is_empty());
    assert!(cache.needs_rebuild());
}

// ---- routing ----

#[test]
fn transfer_routes() {
    let orbiting = |parent| TargetKind::Orbiting { parent };
    assert_eq!(transfer_route(1, Some(0), 5, orbiting(1)), TransferRoute::Direct);
    assert_eq!(transfer_route(1, Some(0), 5, orbiting(0)), TransferRoute::EscapeThenTransfer);
    assert_eq!(transfer_route(1, None, 5, orbiting(0)), TransferRoute::ParentNotOrbiting);
    assert_eq!(transfer_route(1, Some(0), 5, orbiting(9)), TransferRoute::MultiLeg);
    assert_eq!(transfer_route(1, Some(0), 1, TargetKind::Root), TransferRoute::RootCapture);
    assert_eq!(transfer_route(1, Some(0), 0, TargetKind::Root), TransferRoute::EscapeThenRootCapture);
    assert_eq!(transfer_route(1, None, 0, TargetKind::Root), TransferRoute::ParentNotOrbiting);
    assert_eq!(transfer_route(1, Some(0), 7, TargetKind::Root), TransferRoute::MultiLegRoot);
    assert_eq!(transfer_route(1, Some(0), 7, TargetKind::NotABody), TransferRoute::NotABody);
}

#[test]
fn capture_obstacles_skip_the_escaped_body() {
    // (entity, parent)
    let bodies = vec![(10, 0), (11, 0), (12, 3), (13, 0)];
    assert_eq!(root_capture_siblings(&bodies, 0, 11), vec![0, 3]);
    assert_eq!(root_capture_siblings(&bodies, 3, 11), vec![2]);
    assert!(root_capture_siblings(&bodies, 42, 11).is_empty());
}

#[test]
fn click_orders() {
    assert_eq!(click_order(Some(4), 1, true), ClickOrder::Transfer(4));
    assert_eq!(click_order(Some(4), 1, false), ClickOrder::Ignore);
    assert_eq!(click_order(Some(1), 1, true), ClickOrder::MoveOnShell);
    assert_eq!(click_order(None, 1, false), ClickOrder::MoveOnShell);
}

#[test]
fn soi_transitions() {
    assert_eq!(soi_transition(true, &vec![true]), SoiTransition::Ascend);
    assert_eq!(soi_transition(false, &vec![false, true, true]), SoiTransition::Descend(1));
    assert_eq!(soi_transition(false, &vec![false, false]), SoiTransition::Stay);
    assert_eq!(soi_transition(false, &vec![]), SoiTransition::Stay);
}

// ---- scene ----

#[test]
fn explicit_motion_wins() {
    let m: MotionDescription<i32, u8, u8> = resolved_motion(
        Some(MotionDescription::Powered { frame: "sun".to_string(), state: 3 }),
        Some("earth".to_string()),
        Some(1),
        Some(5),
        0,
    );
    match m {
        MotionDescription::Powered { frame, state } => {
            assert_eq!(frame, "sun");
            assert_eq!(state, 3);
        }
        _ => panic!("expected powered motion"),
    }
}

#[test]
fn legacy_fields_resolve() {
    let m: MotionDescription<i32, u8, u8> =
        resolved_motion(None, Some("sun".to_string()), Some(9), Some(5), 0);
    match m {
        MotionDescription::Orbit { parent, orbital_elements } => {
            assert_eq!(parent, "sun");
            assert_eq!(orbital_elements, 9);
        }
        _ => panic!("expected orbit"),
    }
    let m: MotionDescription<i32, u8, u8> = resolved_motion(None, Some("sun".to_string()), None, Some(5), 0);
    assert_eq!(initial_position(&m, 0), 5);
    let m: MotionDescription<i32, u8, u8> = resolved_motion(None, None, Some(9), None, -1);
    assert_eq!(initial_position(&m, 0), -1);
    let orbit: MotionDescription<i32, u8, u8> =
        MotionDescription::Orbit { parent: "x".to_string(), orbital_elements: 1 };
    assert_eq!(initial_position(&orbit, 77), 77);
}

#[test]
fn tiers() {
    assert_eq!(SimulationTier::default(), SimulationTier::Rendered);
    assert!(SimulationTier::Rendered.renders_mesh());
    assert!(SimulationTier::Local.renders_mesh());
    assert!(!SimulationTier::Background.renders_mesh());
}

// ---- hierarchy ----

#[test]
fn body_tree_splits_roots_and_children() {
    let (roots, children) = body_tree(vec![
        (None, "sun"),
        (Some(1), "earth"),
        (Some(2), "moon"),
        (Some(1), "mars"),
        (None, "other"),
    ]);
    assert_eq!(roots, vec!["sun", "other"]);
    assert_eq!(children.siblings(1), &["earth", "mars"]);
    assert_eq!(children.siblings(2), &["moon"]);
    assert!(children.siblings(3).is_empty());
}

#[test]
fn entity_tags() {
    assert_eq!(entity_tag(true, true), "ship");
    assert_eq!(entity_tag(false, true), "body");
    assert_eq!(entity_tag(false, false), "root");
}

// ---- names ----

fn strings(v: &[&str]) -> Vec<String> {
    v.iter().map(|s| s.to_string()).collect()
}

#[test]
fn names_sort_like_strings() {
    let input = strings(&["world_2", "world_10", "alpha", "World", "world_1", "é", "z", "world_1", ""]);
    let mut expected = input.clone();
    expected.sort();
    assert_eq!(sort_names(input), expected);
    assert_eq!(sort_names(strings(&["level_3", "level_1", "level_2"])), strings(&["level_1", "level_2", "level_3"]));
    assert!(sort_names(Vec::new()).is_empty());
}

#[test]
fn dictionary_order() {
    assert!(lex_le_exec("abc", "abd"));
    assert!(!lex_le_exec("abd", "abc"));
    assert!(lex_le_exec("ab", "abc"));
    assert!(!lex_le_exec("abc", "ab"));
    assert!(lex_le_exec("", ""));
    assert!(lex_le_exec("Z", "a"));
    assert!(lex_le_exec("z", "é"));
}

#[test]
fn node_names_match_fragments() {
    let hide = strings(&["atmosphere", "cloud"]);
    assert!(name_is_listed("planet cloud", &hide));
    assert!(name_is_listed("atmosphere", &hide));
    assert!(!name_is_listed("planet surface", &hide));
    assert!(!name_is_listed("Cloud", &hide));
    assert!(!name_is_listed("planet cloud", &Vec::new()));
    assert!(name_is_listed("anything", &strings(&[""])));
    assert!(contains_text_exec("clouds", "oud"));
    assert!(!contains_text_exec("oud", "clouds"));
    assert!(contains_text_exec("", ""));
}

// ---- saving ----

#[test]
fn saved_motion_cases() {
    let m: Option<MotionDescription<i32, u8, u8>> = saved_motion(Some((Some("sun".to_string()), 4)), None, 9);
    match m {
        Some(MotionDescription::Orbit { parent, orbital_elements }) => {
            assert_eq!(parent, "sun");
            assert_eq!(orbital_elements, 4);
        }
        _ => panic!("expected orbit"),
    }
    let m: Option<MotionDescription<i32, u8, u8>> = saved_motion(None, Some((Some("earth".to_string()), 7)), 9);
    match m {
        Some(MotionDescription::Powered { frame, state }) => {
            assert_eq!(frame, "earth");
            assert_eq!(state, 7);
        }
        _ => panic!("expected powered"),
    }
    let m: Option<MotionDescription<i32, u8, u8>> = saved_motion(None, None, 9);
    assert!(matches!(m, Some(MotionDescription::Root { world_pos: 9 })));
    let m: Option<MotionDescription<i32, u8, u8>> = saved_motion(Some((None, 4)), Some((Some("x".to_string()), 1)), 9);
    assert!(m.is_none());
    let m: Option<MotionDescription<i32, u8, u8>> = saved_motion(None, Some((None, 1)), 9);
    assert!(m.is_none());
}

#[test]
fn save_then_load_round_trip() {
    let saved: Option<MotionDescription<i32, u8, u8>> = saved_motion(None, Some((Some("earth".to_string()), 7)), 9);
    let loaded = resolved_motion(saved, None, None, None, 0);
    match loaded {
        MotionDescription::Powered { frame, state } => {
            assert_eq!(frame, "earth");
            assert_eq!(state, 7);
        }
        _ => panic!("expected powered"),
    }
    let saved: Option<MotionDescription<i32, u8, u8>> = saved_motion(Some((None, 4)), None, 9);
    let loaded = resolved_motion(saved, None, None, None, 0);
    assert_eq!(initial_position(&loaded, 0), 0);
    let saved: Option<MotionDescription<i32, u8, u8>> = saved_motion(None, None, 9);
    let loaded = resolved_motion(saved, None, None, None, 0);
    assert_eq!(initial_position(&loaded, 0), 9);
}

#[test]
fn tab_twice_is_no_change() {
    for s in [GameState::Loading, GameState::Running, GameState::Editing, GameState::Paused, GameState::Saving] {
        let once = toggle_mode(s, true, false).unwrap();
        assert_eq!(toggle_mode(once, true, false), Some(s));
    }
}

#[test]
fn decimal_text_reads_back() {
    for n in [0u64, 1, 9, 10, 99, 100, 4096, 86_399, 1_000_000_007, u64::MAX] {
        assert_eq!(decimal_string(n).parse::<u64>().unwrap(), n);
    }
}

#[test]
fn names_resolve_to_the_last_body_listed() {
    let names = strings(&["Jupiter", "Ship", "Io", "Ship"]);
    let refs = vec![Some("Io".to_string()), None, Some("Ship".to_string()), Some("Europa".to_string()), Some("Jupiter".to_string())];
    assert_eq!(resolve_names(&names, &refs), vec![Some(2), None, Some(3), None, Some(0)]);
    assert!(resolve_names(&Vec::new(), &vec![Some("x".to_string())]) == vec![None]);
    assert!(resolve_names(&names, &Vec::new()).is_empty());
}

#[test]
fn a_body_listed_before_its_frame_still_resolves() {
    // the ship refers to a frame listed after it
    let names = strings(&["Ship", "Io"]);
    assert_eq!(resolve_names(&names, &vec![Some("Io".to_string()), None]), vec![Some(1), None]);
}
