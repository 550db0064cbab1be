use gtpsp::assets::{assets_root, init_assets_root, AssetsRoot};
use gtpsp::camera::{CameraKey, FreecamKeys};
use gtpsp::input::{button_bit, button_pressed, get_current_sequence, pack_key_state, set_next_sequence, update_global_key_state, KeyState, SeqState};
use gtpsp::main_loop::{capitalize, race_controls, Flow, LoopAction, LoopPhase, LoopState, PhaseInput};
use gtpsp::platform::{create_window, init_audio, is_button_pressed, load_texture, play_sound, poll_input, stop_sound};
use gtpsp::text::{parse_bool, parse_int};
use gtpsp::ui::{handle_menu_input, handle_page_navigation, is_page_root, is_shared_root, page_after, tokenize, FocusState, MProjectParser};

#[test]
fn a_press_shows_for_one_frame() {
    let mut k = KeyState::new();
    update_global_key_state(&mut k, 1 << 10);
    assert!(button_pressed(&k, 10));
    assert!(!button_pressed(&k, 9));
    update_global_key_state(&mut k, 1 << 10);
    assert!(!button_pressed(&k, 10));
    assert_eq!((k.current, k.previous), (1 << 10, 1 << 10));
}

#[test]
fn game_sequence_starts_in_the_menu() {
    let mut s = SeqState::new();
    assert_eq!(get_current_sequence(&s), 1);
    assert_eq!(s.current_project, "arcade");
    set_next_sequence(&mut s, 4);
    assert_eq!(get_current_sequence(&s), 4);
}

fn input(sequence: Option<i32>) -> PhaseInput {
    PhaseInput { sequence, exit_game: false, menu_finished: true, keys: 0, race_over: false, call_stack_empty: true }
}

#[test]
fn a_menu_pass_returns_to_the_check() {
    let mut s = LoopState::new();
    let i = input(Some(1));
    let mut actions = Vec::new();
    for _ in 0..10 {
        let (a, f) = s.step(&i);
        assert_eq!(f, Flow::Continue);
        actions.push(a);
    }
    assert_eq!(s.phase, LoopPhase::CheckConditions);
    assert!(!s.menu_resource_loaded);
    assert_eq!(actions[0], LoopAction::PrintHeapStatus);
    assert_eq!(actions[2], LoopAction::LoadMenuFonts);
    assert_eq!(actions[3], LoopAction::SetMode(1));
    assert_eq!(actions[7], LoopAction::UnloadMenuFonts);
    assert_eq!(actions[9], LoopAction::ClearFontCache);
}

#[test]
fn the_menu_waits_for_the_user() {
    let mut s = LoopState::new();
    let mut i = input(Some(1));
    i.menu_finished = false;
    for _ in 0..6 {
        s.step(&i);
    }
    assert_eq!(s.phase, LoopPhase::MenuSync);
    assert_eq!(s.step(&i), (LoopAction::Nothing, Flow::Yield));
    i.sequence = Some(4);
    assert_eq!(s.step(&i), (LoopAction::FinishMenu, Flow::Continue));
    assert_eq!(s.phase, LoopPhase::MenuUnloadResource);
    assert_eq!(s.game_sequence.current_sequence, 4);
}

#[test]
fn a_quit_race_ends_and_returns() {
    let mut s = LoopState::new();
    let mut i = input(Some(4));
    i.race_over = false;
    for _ in 0..3 {
        s.step(&i);
    }
    assert_eq!(s.step(&i), (LoopAction::StartRace, Flow::Continue));
    assert!(s.race_started);
    assert_eq!(s.step(&i), (LoopAction::Nothing, Flow::Yield));
    i.keys = 1 << 6;
    assert_eq!(s.step(&i), (LoopAction::Nothing, Flow::Continue));
    assert!(!s.race_started);
    assert_eq!(s.phase, LoopPhase::RaceEndReplay);
}

#[test]
fn the_game_exits_when_asked() {
    let mut s = LoopState::new();
    let mut i = input(None);
    i.exit_game = true;
    assert_eq!(s.step(&i), (LoopAction::Nothing, Flow::Exit));
    assert!(s.should_exit);
}

#[test]
fn race_controls_from_keys() {
    let c = race_controls((1 << 2) | (1 << 9) | (1 << 3));
    assert!(c.throttle && c.brake && c.steer_right && !c.steer_left && !c.quit);
    assert!(race_controls(1 << 6).quit);
}

#[test]
fn capitalize_upper_cases_the_first_character() {
    assert_eq!(capitalize("arcade"), "Arcade");
    assert_eq!(capitalize(""), "");
    assert_eq!(capitalize("ßx"), "SSx");
}

#[test]
fn headless_platform() {
    let mut w = create_window().unwrap();
    w.set_title("GT");
    assert_eq!(poll_input(), 0);
    assert!(!is_button_pressed("cross"));
    assert!(init_audio().is_ok());
    play_sound(1);
    stop_sound(1);
    let t = load_texture("x.png").unwrap();
    assert_eq!((t.width(), t.height()), (0, 0));
}

#[test]
fn the_first_assets_root_stays() {
    let mut r = AssetsRoot::new();
    assert_eq!(assets_root(&r), "assets");
    init_assets_root(&mut r, "/data/gt");
    init_assets_root(&mut r, "/other");
    assert_eq!(assets_root(&r), "/data/gt");
}

#[test]
fn freecam_keys_start_released() {
    let k = FreecamKeys::new();
    assert!(!k.forward && !k.backward && !k.left && !k.right && !k.up && !k.down && !k.fast);
}

#[test]
fn integers_parse_like_the_standard_library() {
    assert_eq!(parse_int(" 42 "), 42);
    assert_eq!(parse_int("-7"), -7);
    assert_eq!(parse_int("+5"), 5);
    assert_eq!(parse_int("-2147483648"), i32::MIN);
    assert_eq!(parse_int("2147483648"), 0);
    assert_eq!(parse_int("12a"), 0);
    assert_eq!(parse_int(""), 0);
    assert_eq!(parse_int("-"), 0);
    assert!(parse_bool("1"));
    assert!(!parse_bool("0"));
    assert!(!parse_bool("yes"));
}

#[test]
fn page_and_shared_roots() {
    assert!(is_page_root("CarRoot"));
    assert!(is_page_root("GameDataEditRoot"));
    assert!(!is_page_root("Tooltip"));
    assert!(is_shared_root("Tooltip"));
    assert!(!is_shared_root("CarRoot"));
}

#[test]
fn tokens_of_project_text() {
    let t = tokenize("Widget { name \"a b\\n\" 'x' } [1]\n");
    assert_eq!(t, vec!["Widget", "{", "name", "a b\n", "x", "}", "[", "1", "]"]);
    assert_eq!(tokenize("ab{cd"), vec!["ab", "{", "cd"]);
    assert_eq!(tokenize("\"open"), vec!["open"]);
    assert!(tokenize("  \t ").is_empty());
}

#[test]
fn parser_reads_colours_and_skips_blocks() {
    let toks: Vec<String> = ["RGBA", "{", "255", "128", "300", "-1", "}", "x"].iter().map(|s| s.to_string()).collect();
    let mut p = MProjectParser::new(toks);
    let c = p.parse_rgba();
    assert_eq!((c.r, c.g, c.b, c.a), (255, 128, 44, 255));
    assert_eq!(p.peek(), Some("x"));
    assert!(!p.expect("y"));
    assert!(p.expect("x"));
    assert_eq!(p.peek(), None);
    assert_eq!(p.consume(), None);
    let block: Vec<String> = ["a", "{", "b", "}", "}", "after"].iter().map(|s| s.to_string()).collect();
    let mut q = MProjectParser::new(block);
    q.skip_block();
    assert_eq!(q.consume(), Some("after".to_string()));
}


fn focus_on(names: &[&str], idx: usize) -> FocusState {
    let mut f = FocusState::new();
    f.focus_widgets = names.iter().map(|n| n.to_string()).collect();
    f.focus_index = idx;
    f
}

#[test]
fn focus_wraps_around_both_ways() {
    let mut f = focus_on(&["a", "b", "c"], 0);
    f.navigate_focus("up");
    assert_eq!(f.focus_index, 2);
    assert_eq!(f.focused_widget(), Some("c".to_string()));
    f.navigate_focus("right");
    assert_eq!(f.focus_index, 0);
    f.navigate_focus("down");
    f.navigate_focus("left");
    assert_eq!(f.focus_index, 0);
    f.navigate_focus("sideways");
    assert_eq!(f.focus_index, 0);
}

#[test]
fn focus_without_widgets_stays() {
    let mut f = FocusState::new();
    f.navigate_focus("down");
    assert_eq!(f.focus_index, 0);
    assert_eq!(f.focused_widget(), None);
}

#[test]
fn keys_move_focus_and_finish_the_page() {
    let mut f = focus_on(&["a", "b", "c"], 1);
    f.handle_keys(1 << 4);
    assert_eq!(f.focus_index, 2);
    assert!(!f.is_finished());
    f.handle_keys((1 << 2) | (1 << 2));
    assert_eq!(f.focus_index, 1);
    f.handle_keys(1 << 10);
    assert!(f.is_finished());
    f.reset_finished();
    assert!(!f.is_finished());
    f.handle_keys(1 << 9);
    assert!(f.is_finished());
}

#[test]
fn a_new_page_clears_the_focus() {
    let mut f = focus_on(&["a", "b"], 1);
    f.go_to_page("CarRoot");
    assert_eq!(f.active_page, "CarRoot");
    assert_eq!(f.focus_index, 0);
    assert!(f.focus_widgets.is_empty());
}

#[test]
fn activations_lead_to_their_pages() {
    assert_eq!(page_after("BranchRoot", "ArcadeRace"), Some("GTTopRoot"));
    assert_eq!(page_after("GTTopRoot", "CarTown"), Some("DealerRoot"));
    assert_eq!(page_after("GTTopRoot", "Options"), None);
    assert_eq!(page_after("GTTopRoot", "Anything"), Some("TopRoot"));
    assert_eq!(page_after("TopRoot", "Exit"), Some("BranchRoot"));
    assert_eq!(page_after("TopRoot", "Start"), None);
    assert_eq!(page_after("DrivingModeRoot", "TimeAttack"), Some("CarRoot"));
    assert_eq!(page_after("DrivingModeRoot", "AdHocBattle"), Some("OnlineRoot"));
    assert_eq!(page_after("DrivingModeRoot", "Back"), Some("TopRoot"));
    assert_eq!(page_after("CarRoot", "Next"), None);
    assert_eq!(page_after("", "x"), Some("TopRoot"));
}

#[test]
fn start_on_the_top_page_starts_a_race() {
    let mut ui = focus_on(&["Start"], 0);
    ui.active_page = "TopRoot".to_string();
    let mut seq = SeqState::new();
    handle_page_navigation(&mut ui, &mut seq, "Start");
    assert_eq!(seq.current_sequence, 4);
    assert_eq!(ui.active_page, "TopRoot");
    assert_eq!(ui.focus_widgets.len(), 1);
}

#[test]
fn crossing_on_a_widget_moves_to_its_page() {
    let mut ui = focus_on(&["Course", "CarTown"], 0);
    ui.active_page = "GTTopRoot".to_string();
    let mut seq = SeqState::new();
    handle_menu_input(&mut ui, &mut seq, (1 << 4) | (1 << 10));
    assert_eq!(ui.active_page, "DealerRoot");
    assert_eq!(ui.focus_index, 0);
    assert!(ui.focus_widgets.is_empty());
    assert!(!ui.is_finished());
    assert_eq!(seq.current_sequence, 1);
}

#[test]
fn navigation_keys_alone_only_move_the_focus() {
    let mut ui = focus_on(&["Course", "CarTown"], 0);
    ui.active_page = "GTTopRoot".to_string();
    let mut seq = SeqState::new();
    handle_menu_input(&mut ui, &mut seq, 1 << 3);
    assert_eq!(ui.focus_index, 1);
    assert_eq!(ui.active_page, "GTTopRoot");
    assert!(!ui.is_finished());
}

#[test]
fn camera_keys_follow_presses_and_releases() {
    let mut k = FreecamKeys::new();
    k.handle_key(CameraKey::ArrowUp, true);
    k.handle_key(CameraKey::ControlRight, true);
    assert!(k.forward && k.fast && !k.backward);
    k.handle_key(CameraKey::KeyW, false);
    assert!(!k.forward && k.fast);
    k.handle_key(CameraKey::Other, true);
    k.handle_key(CameraKey::ShiftLeft, true);
    k.handle_key(CameraKey::Space, true);
    assert!(k.down && k.up && !k.left && !k.right);
    k.handle_key(CameraKey::KeyA, true);
    k.handle_key(CameraKey::ArrowRight, true);
    assert!(k.left && k.right);
}

#[test]
fn held_keys_pack_into_button_bits() {
    let mut held = [false; 12];
    assert_eq!(pack_key_state(&held), 0);
    held[2] = true;
    held[10] = true;
    assert_eq!(pack_key_state(&held), (1 << 2) | (1 << 10));
    assert_eq!(pack_key_state(&[true; 12]), 0xFFF);
}

#[test]
fn buttons_have_their_bits() {
    assert_eq!(button_bit("cross"), Some(10));
    assert_eq!(button_bit("select"), Some(0));
    assert_eq!(button_bit("R"), Some(7));
    assert_eq!(button_bit("home"), Some(31));
    assert_eq!(button_bit("cancel"), None);
}

#[test]
fn grid_cells_are_covered_by_two_triangles() {
    let t = gtpsp::grid::grid_triangles(3, 2);
    assert_eq!(t, vec![(0, 1, 3), (1, 4, 3), (1, 2, 4), (2, 5, 4)]);
    assert_eq!(gtpsp::grid::grid_triangles(2, 2), vec![(0, 1, 2), (1, 3, 2)]);
    assert!(gtpsp::grid::grid_triangles(1, 5).is_empty());
    assert!(gtpsp::grid::grid_triangles(5, 1).is_empty());
}

#[test]
fn procedural_track_grid_indices_stay_in_the_grid() {
    let t = gtpsp::grid::grid_triangles(21, 21);
    assert_eq!(t.len(), 800);
    assert!(t.iter().all(|&(a, b, c)| a < 441 && b < 441 && c < 441));
}
