use vstd::prelude::*;

verus! {

/// The tile tool of the level editor: the corners placed so far of the
/// triangle being drawn, and the tile whose wind is being dragged, with the
/// cursor position at which the drag began.
pub struct TileTool<P> {
    pub points: Vec<P>,
    pub wind_drag: Option<(usize, P)>,
}

/// An input event as the tile tool sees it, with what the geometry of the
/// level says about it.
pub enum TileEvent<P> {
    /// The left button went down at snapped position `at`. `too_close`: two
    /// of the placed corners and `at` lie closer than the snap distance;
    /// `thin`: `at` is the third corner and the triangle is thinner than the
    /// snap distance at some corner; `clockwise`: the three corners, in
    /// order, turn clockwise.
    Place { at: P, too_close: bool, thin: bool, clockwise: bool },
    /// The right button went down over the tile at `hovered`, if any.
    Erase { hovered: Option<usize> },
    /// The key that cycles through the tile types.
    CycleType,
    /// The wind key went down at `cursor`, over the tile at `hovered`, if any.
    WindDown { hovered: Option<usize>, cursor: P },
    /// The wind key went up.
    WindUp,
    Other,
}

/// What the level or the tool's settings must undergo after an event.
pub enum TileAction<P> {
    Nothing,
    /// Add a tile of the selected type with these corners, counterclockwise.
    AddTile { a: P, b: P, c: P },
    /// Remove the tile at `index`.
    RemoveTile { index: usize },
    /// Select the next tile type.
    NextType,
    /// Set the wind of the tile at `index` to the offset of the cursor from
    /// `start`.
    SetFlow { index: usize, start: P },
}

impl<P> TileTool<P> {
    /// A tool with no corner placed and no wind drag.
    pub fn new() -> (tool: Self)
        ensures
            tool.points@.len() == 0,
            tool.wind_drag is None,
    {
        TileTool { points: Vec::new(), wind_drag: None }
    }

    /// Never more than two corners wait for the third.
    pub open spec fn wf(&self) -> bool {
        self.points@.len() < 3
    }

    /// The tool's reaction to one event.
    pub fn handle(&mut self, event: TileEvent<P>) -> (action: TileAction<P>)
        ensures
            old(self).wf() ==> final(self).wf(),
            match event {
                TileEvent::Place { at, too_close, thin, clockwise } => {
                    let placed = old(self).points@.push(at);
                    &&& final(self).wind_drag == old(self).wind_drag
                    &&& if too_close || (placed.len() == 3 && thin) {
                        final(self).points@ == old(self).points@ && action is Nothing
                    } else if placed.len() == 3 {
                        &&& final(self).points@.len() == 0
                        &&& if clockwise {
                            action == (TileAction::AddTile { a: placed[2], b: placed[1], c: placed[0] })
                        } else {
                            action == (TileAction::AddTile { a: placed[0], b: placed[1], c: placed[2] })
                        }
                    } else {
                        final(self).points@ == placed && action is Nothing
                    }
                },
                TileEvent::Erase { hovered } => {
                    &&& final(self).wind_drag == old(self).wind_drag
                    &&& final(self).points@.len() == 0
                    &&& if old(self).points@.len() == 0 && hovered is Some {
                        action == (TileAction::RemoveTile::<P> { index: hovered->0 })
                    } else {
                        action is Nothing
                    }
                },
                TileEvent::CycleType => {
                    &&& final(self).points@ == old(self).points@
                    &&& final(self).wind_drag == old(self).wind_drag
                    &&& action is NextType
                },
                TileEvent::WindDown { hovered, cursor } => {
                    &&& final(self).points@ == old(self).points@
                    &&& action is Nothing
                    &&& final(self).wind_drag == if old(self).wind_drag is None {
                        match hovered {
                            Some(index) => Some((index, cursor)),
                            None => None,
                        }
                    } else {
                        old(self).wind_drag
                    }
                },
                TileEvent::WindUp => {
                    &&& final(self).points@ == old(self).points@
                    &&& final(self).wind_drag is None
                    &&& match old(self).wind_drag {
                        Some((index, start)) => action == (TileAction::SetFlow { index, start }),
                        None => action is Nothing,
                    }
                },
                TileEvent::Other => {
                    &&& final(self).points@ == old(self).points@
                    &&& final(self).wind_drag == old(self).wind_drag
                    &&& action is Nothing
                },
            },
    {
        match event {
            TileEvent::Place { at, too_close, thin, clockwise } => {
                if too_close || (self.points.len() == 2 && thin) {
                    TileAction::Nothing
                } else if self.points.len() == 2 {
                    let b = self.points.pop().unwrap();
                    let a = self.points.pop().unwrap();
                    self.points = Vec::new();
                    if clockwise {
                        TileAction::AddTile { a: at, b, c: a }
                    } else {
                        TileAction::AddTile { a, b, c: at }
                    }
                } else {
                    self.points.push(at);
                    TileAction::Nothing
                }
            },
            TileEvent::Erase { hovered } => {
                if self.points.len() == 0 {
                    match hovered {
                        Some(index) => TileAction::RemoveTile { index },
                        None => TileAction::Nothing,
                    }
                } else {
                    self.points = Vec::new();
                    TileAction::Nothing
                }
            },
            TileEvent::CycleType => TileAction::NextType,
            TileEvent::WindDown { hovered, cursor } => {
                if self.wind_drag.is_none() {
                    self.wind_drag = match hovered {
                        Some(index) => Some((index, cursor)),
                        None => None,
                    };
                }
                TileAction::Nothing
            },
            TileEvent::WindUp => {
                let drag = self.wind_drag.take();
                match drag {
                    Some((index, start)) => TileAction::SetFlow { index, start },
                    None => TileAction::Nothing,
                }
            },
            TileEvent::Other => TileAction::Nothing,
        }
    }
}

} // verus!
