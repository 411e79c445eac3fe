use getting_farted_on::edit::{edit_step, EditAction, EditEvent, EditKey, EditState, Gesture};
use getting_farted_on::editor::{add_path_point, next_option, next_segment, next_tool, prev_segment, remove_path_point, sort_names};
use getting_farted_on::portal::{link_portals, portal_step, remove_portal, Portal, PortalAction, PortalEvent};

#[test]
fn drag_selection_starts_and_ends_with_box() {
    let (s, a) = edit_step(EditState::Idle, EditEvent::MouseDown { left: true }, (1, 2));
    assert!(matches!(s, EditState::DragSelection { start: (1, 2) }));
    assert!(matches!(a, EditAction::Nothing));
    let (s, a) = edit_step(s, EditEvent::MouseUp { left: true, shift: true }, (5, 6));
    assert!(matches!(s, EditState::Idle));
    assert!(matches!(a, EditAction::SelectBox { start: (1, 2), keep: true }));
}

#[test]
fn grab_then_click_moves_selection() {
    let (s, _) = edit_step(EditState::Idle, EditEvent::KeyDown { key: EditKey::G, ctrl: false }, 7);
    assert!(matches!(s, EditState::Grab { start: 7 }));
    let (s, a) = edit_step(s, EditEvent::MouseDown { left: true }, 9);
    assert!(matches!(s, EditState::Idle));
    assert!(matches!(a, EditAction::MoveSelected { gesture: Gesture::Grab, start: 7 }));
}

#[test]
fn right_click_cancels_rotation() {
    let (s, _) = edit_step(EditState::Idle, EditEvent::KeyDown { key: EditKey::R, ctrl: false }, 1);
    let (s, a) = edit_step(s, EditEvent::MouseDown { left: false }, 2);
    assert!(matches!(s, EditState::Idle));
    assert!(matches!(a, EditAction::Nothing));
}

#[test]
fn copy_needs_ctrl() {
    let (s, _) = edit_step(EditState::Idle, EditEvent::KeyDown { key: EditKey::C, ctrl: false }, 1);
    assert!(matches!(s, EditState::Idle));
    let (s, _) = edit_step(s, EditEvent::KeyDown { key: EditKey::C, ctrl: true }, 1);
    assert!(matches!(s, EditState::Copy { start: 1 }));
    let (_, a) = edit_step(s, EditEvent::MouseDown { left: true }, 4);
    assert!(matches!(a, EditAction::CopySelected { start: 1 }));
}

#[test]
fn delete_only_when_idle() {
    let (_, a) = edit_step(EditState::Idle, EditEvent::KeyDown { key: EditKey::Delete, ctrl: false }, 0);
    assert!(matches!(a, EditAction::DeleteSelected));
    let (s, a) = edit_step(EditState::Scale { start: 3 }, EditEvent::KeyDown { key: EditKey::Delete, ctrl: false }, 0);
    assert!(matches!(a, EditAction::Nothing));
    assert!(matches!(s, EditState::Scale { start: 3 }));
}

#[test]
fn key_restarts_gesture_mid_drag() {
    let (s, _) = edit_step(EditState::DragSelection { start: 1 }, EditEvent::KeyDown { key: EditKey::S, ctrl: false }, 8);
    assert!(matches!(s, EditState::Scale { start: 8 }));
}

fn portals(dests: &[Option<usize>]) -> Vec<Portal<usize, ()>> {
    dests.iter().enumerate().map(|(i, &d)| Portal { pos: i, dest: d, color: () }).collect()
}

#[test]
fn removing_portal_keeps_other_links() {
    let mut p = portals(&[Some(2), Some(1), Some(3), Some(0), None]);
    remove_portal(&mut p, 1);
    let got: Vec<(usize, Option<usize>)> = p.iter().map(|x| (x.pos, x.dest)).collect();
    assert_eq!(got, vec![(0, Some(1)), (2, Some(2)), (3, Some(0)), (4, None)]);
}

#[test]
fn removing_linked_target_drops_link() {
    let mut p = portals(&[Some(1), Some(0)]);
    remove_portal(&mut p, 0);
    let got: Vec<(usize, Option<usize>)> = p.iter().map(|x| (x.pos, x.dest)).collect();
    assert_eq!(got, vec![(1, None)]);
}

#[test]
fn portal_drag_creates_and_links() {
    let mut drag = None;
    assert_eq!(portal_step(&mut drag, PortalEvent::LeftDown, None, 3), PortalAction::Create);
    assert_eq!(drag, Some(3));
    assert_eq!(portal_step(&mut drag, PortalEvent::LeftUp, Some(1), 4), PortalAction::Link { from: 3, to: 1 });
    assert_eq!(drag, None);
    assert_eq!(portal_step(&mut drag, PortalEvent::LeftDown, Some(2), 4), PortalAction::Nothing);
    assert_eq!(portal_step(&mut drag, PortalEvent::LeftUp, Some(2), 4), PortalAction::Nothing);
    assert_eq!(portal_step(&mut drag, PortalEvent::RightDown, Some(0), 4), PortalAction::Remove(0));
    assert_eq!(portal_step(&mut drag, PortalEvent::RecolorKey, None, 4), PortalAction::Nothing);
    assert_eq!(portal_step(&mut drag, PortalEvent::RecolorKey, Some(2), 4), PortalAction::Recolor(2));
}

#[test]
fn linking_sets_destination() {
    let mut p = portals(&[None, None, None]);
    link_portals(&mut p, 2, 0);
    assert_eq!(p[2].dest, Some(0));
    assert_eq!(p[2].pos, 2);
    assert_eq!(p[0].dest, None);
}

#[test]
fn tools_cycle() {
    assert_eq!(next_tool(0, 8), 1);
    assert_eq!(next_tool(7, 8), 0);
}

#[test]
fn options_cycle_by_name() {
    let options: Vec<String> = vec!["ice".into(), "slime".into(), "water".into()];
    assert_eq!(next_option(&options, "ice"), 1);
    assert_eq!(next_option(&options, "water"), 0);
    assert_eq!(next_option(&options, "lava"), 1);
    let single: Vec<String> = vec!["x".into()];
    assert_eq!(next_option(&single, "y"), 0);
}

#[test]
fn segments_step_within_bounds() {
    assert_eq!(next_segment(0, 3), 1);
    assert_eq!(next_segment(2, 3), 2);
    assert_eq!(next_segment(0, 1), 0);
    assert_eq!(prev_segment(2), 1);
    assert_eq!(prev_segment(1), 0);
    assert_eq!(prev_segment(0), 0);
}

#[test]
fn expected_path_editing() {
    let mut paths: Vec<Vec<i32>> = Vec::new();
    add_path_point(&mut paths, 1, false);
    add_path_point(&mut paths, 2, false);
    add_path_point(&mut paths, 3, true);
    assert_eq!(paths, vec![vec![1, 2], vec![3]]);
    remove_path_point(&mut paths, 1, 0);
    assert_eq!(paths, vec![vec![1, 2]]);
    remove_path_point(&mut paths, 0, 0);
    assert_eq!(paths, vec![vec![2]]);
}

#[test]
fn tile_types_cycle_in_sorted_order() {
    let mut names = vec!["stone", "ice", "grass", "ice-2", "éclair", "zinc"];
    sort_names(&mut names);
    assert_eq!(names, vec!["grass", "ice", "ice-2", "stone", "zinc", "éclair"]);
    let owned: Vec<String> = names.iter().map(|s| s.to_string()).collect();
    assert_eq!(next_option(&owned, "ice-2"), 3);
    assert_eq!(next_option(&owned, "éclair"), 0);
    assert_eq!(next_option(&owned, "missing"), 1);
}
