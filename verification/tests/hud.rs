use getting_farted_on::controls::{game_key, keyboard_intent, GameAction, HudToggles, Key, KeyboardIntent};
use getting_farted_on::customizer::edit_name;
use getting_farted_on::hud::{leaderboard_line, run_time_text, BestRecord};
use getting_farted_on::level::{create_true, default_draw_times, one, Object};

#[test]
fn run_time_text_parts() {
    assert_eq!(run_time_text(0), "0 seconds");
    assert_eq!(run_time_text(59), "59 seconds");
    assert_eq!(run_time_text(61), "1 minutes 1 seconds");
    assert_eq!(run_time_text(3600), "1 hours 0 seconds");
    assert_eq!(run_time_text(3725), "1 hours 2 minutes 5 seconds");
    assert_eq!(run_time_text(-61), "-1 minutes -1 seconds");
}

#[test]
fn leaderboard_lines() {
    assert_eq!(
        leaderboard_line(1, "kuvi", 57, BestRecord::Time { millis: 3_725_042 }),
        "#1: kuvi - 57% (1:2:5.42)"
    );
    assert_eq!(
        leaderboard_line(2, "bob", 30, BestRecord::Time { millis: 5_007 }),
        "#2: bob - 30% (5.7)"
    );
    assert_eq!(
        leaderboard_line(3, "", 12, BestRecord::Progress { percent: 40 }),
        "#3:  - 12% (40%)"
    );
    assert_eq!(
        leaderboard_line(4, "x", 0, BestRecord::Time { millis: 3_600_000 }),
        "#4: x - 0% (1:0.0)"
    );
}

#[test]
fn name_typing() {
    let mut name = String::new();
    edit_name(&mut name, "A");
    edit_name(&mut name, "Num7");
    edit_name(&mut name, "LShift");
    assert_eq!(name, "A7");
    edit_name(&mut name, "Backspace");
    assert_eq!(name, "A");
    edit_name(&mut name, "Backspace");
    edit_name(&mut name, "Backspace");
    assert_eq!(name, "");
}

#[test]
fn name_stops_growing_at_fifteen_bytes() {
    let mut name = String::from("ABCDEFGHIJKLMN");
    edit_name(&mut name, "O");
    assert_eq!(name, "ABCDEFGHIJKLMNO");
    edit_name(&mut name, "P");
    assert_eq!(name, "ABCDEFGHIJKLMNO");
}

#[test]
fn readme_controls() {
    let i = keyboard_intent(&vec![Key::A], false);
    assert_eq!(i, KeyboardIntent { roll_left: true, roll_right: false, force_fart: false });
    let i = keyboard_intent(&vec![Key::Right, Key::Space], false);
    assert_eq!(i, KeyboardIntent { roll_left: false, roll_right: true, force_fart: true });
    let i = keyboard_intent(&vec![Key::Up, Key::Left, Key::D], false);
    assert_eq!(i, KeyboardIntent { roll_left: true, roll_right: true, force_fart: true });
    let i = keyboard_intent(&vec![Key::M], true);
    assert_eq!(i, KeyboardIntent { roll_left: false, roll_right: false, force_fart: true });
}

#[test]
fn readme_hotkeys() {
    let mut t = HudToggles { mute_music: false, show_names: true, show_leaderboard: true };
    assert_eq!(game_key(Key::H, false, false, false, &mut t), GameAction::Nothing);
    assert!(!t.show_names);
    assert_eq!(game_key(Key::R, true, false, false, &mut t), GameAction::Respawn);
    assert_eq!(game_key(Key::R, false, false, false, &mut t), GameAction::Nothing);
    assert_eq!(game_key(Key::Num1, false, false, false, &mut t), GameAction::Emote(0));
    assert_eq!(game_key(Key::Num4, false, false, false, &mut t), GameAction::Emote(3));
    assert_eq!(game_key(Key::M, false, true, false, &mut t), GameAction::Nothing);
    assert!(!t.mute_music);
    game_key(Key::M, false, false, false, &mut t);
    assert!(t.mute_music);
    game_key(Key::L, false, false, false, &mut t);
    assert!(!t.show_leaderboard);
    assert_eq!(game_key(Key::Tab, false, false, false, &mut t), GameAction::Nothing);
    assert_eq!(game_key(Key::Tab, false, false, true, &mut t), GameAction::ToggleEditor);
    assert_eq!(game_key(Key::I, false, false, false, &mut t), GameAction::ResetZoom);
}

#[test]
fn objects_give_fart_kinds() {
    let o = |k: &str| Object { kind: k.to_string(), pos: () };
    assert_eq!(o("unicorn").fart_type(), Some("rainbow"));
    assert_eq!(o("hot-pepper").fart_type(), Some("fire"));
    assert_eq!(o("guitar").fart_type(), Some("melody"));
    assert_eq!(o("bubbler").fart_type(), None);
}

#[test]
fn config_defaults() {
    assert_eq!(default_draw_times(), 1);
    assert_eq!(one(), 1);
    assert!(create_true());
}

use getting_farted_on::customizer::{customizer_event, CustomizerAction, UiMessage};

#[test]
fn customizer_opens_on_confirm() {
    let mut showing = false;
    assert!(customizer_event(&mut showing, false, &vec![]).is_empty());
    assert!(!showing);
    assert!(customizer_event(&mut showing, true, &vec![UiMessage::Play]).is_empty());
    assert!(showing);
}

#[test]
fn customizer_buttons_in_order() {
    let mut showing = true;
    let actions = customizer_event(&mut showing, false, &vec![UiMessage::RandomizeSkin]);
    assert_eq!(actions, vec![CustomizerAction::RandomizeColors]);
    assert!(showing);
    let actions = customizer_event(&mut showing, true, &vec![UiMessage::RandomizeSkin]);
    assert_eq!(actions, vec![CustomizerAction::RandomizeColors, CustomizerAction::SaveCustomization]);
    assert!(!showing);
}
