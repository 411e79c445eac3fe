use getting_farted_on::cannon_tool::{object_tool_action, CannonTool, PlaceAction, PlaceEvent};
use getting_farted_on::surface_tool::{SurfaceAction, SurfaceEvent, SurfaceTool};
use getting_farted_on::tile_tool::{TileAction, TileEvent, TileTool};

fn place(at: i32, too_close: bool, thin: bool, clockwise: bool) -> TileEvent<i32> {
    TileEvent::Place { at, too_close, thin, clockwise }
}

#[test]
fn three_corners_make_a_tile() {
    let mut tool = TileTool::new();
    assert!(matches!(tool.handle(place(1, false, false, false)), TileAction::Nothing));
    assert!(matches!(tool.handle(place(2, false, false, false)), TileAction::Nothing));
    assert_eq!(tool.points, vec![1, 2]);
    let action = tool.handle(place(3, false, false, false));
    assert!(matches!(action, TileAction::AddTile { a: 1, b: 2, c: 3 }));
    assert!(tool.points.is_empty());
}

#[test]
fn clockwise_tile_is_reversed() {
    let mut tool = TileTool::new();
    tool.handle(place(1, false, false, true));
    tool.handle(place(2, false, false, true));
    let action = tool.handle(place(3, false, false, true));
    assert!(matches!(action, TileAction::AddTile { a: 3, b: 2, c: 1 }));
}

#[test]
fn close_or_thin_corner_is_refused() {
    let mut tool = TileTool::new();
    tool.handle(place(1, false, true, false));
    tool.handle(place(2, true, false, false));
    assert_eq!(tool.points, vec![1]);
    tool.handle(place(2, false, false, false));
    assert!(matches!(tool.handle(place(3, false, true, false)), TileAction::Nothing));
    assert_eq!(tool.points, vec![1, 2]);
}

#[test]
fn right_click_clears_corners_before_removing() {
    let mut tool = TileTool::new();
    tool.handle(place(1, false, false, false));
    assert!(matches!(tool.handle(TileEvent::Erase { hovered: Some(4) }), TileAction::Nothing));
    assert!(tool.points.is_empty());
    assert!(matches!(tool.handle(TileEvent::Erase { hovered: Some(4) }), TileAction::RemoveTile { index: 4 }));
    assert!(matches!(tool.handle(TileEvent::Erase { hovered: None }), TileAction::Nothing));
    assert!(matches!(tool.handle(TileEvent::CycleType), TileAction::NextType));
}

#[test]
fn tile_wind_drag() {
    let mut tool: TileTool<i32> = TileTool::new();
    tool.handle(TileEvent::WindDown { hovered: Some(2), cursor: 10 });
    tool.handle(TileEvent::WindDown { hovered: Some(5), cursor: 20 });
    assert_eq!(tool.wind_drag, Some((2, 10)));
    assert!(matches!(tool.handle(TileEvent::WindUp), TileAction::SetFlow { index: 2, start: 10 }));
    assert!(matches!(tool.handle(TileEvent::WindUp), TileAction::Nothing));
}

#[test]
fn surface_drawn_by_drag() {
    let mut tool: SurfaceTool<i32, i32> = SurfaceTool::new(0);
    tool.handle(SurfaceEvent::Press { at: 1 });
    assert_eq!(tool.start_drag, Some(1));
    let action = tool.handle(SurfaceEvent::Release { end: 5, too_short: false });
    assert!(matches!(action, SurfaceAction::AddSurface { p1: 1, p2: 5 }));
    assert_eq!(tool.start_drag, None);
    assert!(matches!(tool.handle(SurfaceEvent::Release { end: 5, too_short: false }), SurfaceAction::Nothing));
    tool.handle(SurfaceEvent::Press { at: 2 });
    assert!(matches!(tool.handle(SurfaceEvent::Release { end: 3, too_short: true }), SurfaceAction::Nothing));
    assert_eq!(tool.start_drag, None);
    assert!(matches!(tool.handle(SurfaceEvent::Erase { hovered: Some(3) }), SurfaceAction::RemoveSurface { index: 3 }));
}

#[test]
fn surface_wind_copy_paste_and_drag() {
    let mut tool: SurfaceTool<i32, i32> = SurfaceTool::new(0);
    tool.handle(SurfaceEvent::WindDown { hovered: Some((1, 7)), cursor: 0, ctrl: true, shift: false });
    assert_eq!(tool.saved_flow, 7);
    let action = tool.handle(SurfaceEvent::WindDown { hovered: Some((4, 0)), cursor: 0, ctrl: false, shift: true });
    assert!(matches!(action, SurfaceAction::SetFlow { index: 4, flow: 7 }));
    tool.handle(SurfaceEvent::WindDown { hovered: Some((2, 0)), cursor: 9, ctrl: false, shift: false });
    assert_eq!(tool.wind_drag, Some((2, 9)));
    assert!(matches!(tool.handle(SurfaceEvent::WindUp), SurfaceAction::DragFlow { index: 2, start: 9 }));
    tool.remember_flow(3);
    assert_eq!(tool.saved_flow, 3);
}

#[test]
fn cannon_placed_on_release() {
    let mut tool = CannonTool::new();
    assert!(matches!(tool.handle(PlaceEvent::Release), PlaceAction::Nothing));
    tool.handle(PlaceEvent::Press { at: 6 });
    assert!(matches!(tool.handle(PlaceEvent::Release), PlaceAction::Add { pos: 6 }));
    assert_eq!(tool.start_drag, None);
    assert!(matches!(tool.handle(PlaceEvent::Erase { hovered: Some(1) }), PlaceAction::Remove { index: 1 }));
}

#[test]
fn object_placed_on_click() {
    assert!(matches!(object_tool_action(PlaceEvent::Press { at: 2 }), PlaceAction::Add { pos: 2 }));
    assert!(matches!(object_tool_action::<i32>(PlaceEvent::Erase { hovered: None }), PlaceAction::Nothing));
    assert!(matches!(object_tool_action::<i32>(PlaceEvent::Release), PlaceAction::Nothing));
}
