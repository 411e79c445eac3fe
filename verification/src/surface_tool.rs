use vstd::prelude::*;

verus! {

/// The surface tool of the level editor: where the segment being drawn
/// began, the surface whose wind is being dragged with the cursor position
/// at which that drag began, and the wind remembered for pasting.
pub struct SurfaceTool<P, F> {
    pub start_drag: Option<P>,
    pub wind_drag: Option<(usize, P)>,
    pub saved_flow: F,
}

/// An input event as the surface tool sees it, with what the geometry of
/// the level says about it.
pub enum SurfaceEvent<P, F> {
    /// The left button went down at snapped position `at`.
    Press { at: P },
    /// The left button went up with the snapped cursor at `end` (turned to
    /// a whole step of angle around the drag's start while shift is held);
    /// `too_short`: `end` lies closer than the snap distance to where the
    /// drag began.
    Release { end: P, too_short: bool },
    /// The right button went down over the surface at `hovered`, if any.
    Erase { hovered: Option<usize> },
    /// The wind key went down at `cursor`, over the surface at `hovered` (with
    /// its wind), if any; `ctrl` and `shift` say which of them were held.
    WindDown { hovered: Option<(usize, F)>, cursor: P, ctrl: bool, shift: bool },
    /// The wind key went up.
    WindUp,
    Other,
}

/// What the level must undergo after an event.
pub enum SurfaceAction<P, F> {
    Nothing,
    /// Add a surface of the selected type from `p1` to `p2`, without wind.
    AddSurface { p1: P, p2: P },
    /// Remove the surface at `index`.
    RemoveSurface { index: usize },
    /// Set the wind of the surface at `index`.
    SetFlow { index: usize, flow: F },
    /// Set the wind of the surface at `index` from the cursor's offset from
    /// `start` along the surface, and remember it with `remember_flow`.
    DragFlow { index: usize, start: P },
}

impl<P, F: Copy> SurfaceTool<P, F> {
    /// A tool with no drag under way, remembering the given wind.
    pub fn new(saved_flow: F) -> (tool: Self)
        ensures
            tool.start_drag is None,
            tool.wind_drag is None,
            tool.saved_flow == saved_flow,
    {
        SurfaceTool { start_drag: None, wind_drag: None, saved_flow }
    }

    /// Remembers a wind for pasting.
    pub fn remember_flow(&mut self, flow: F)
        ensures
            final(self).saved_flow == flow,
            final(self).start_drag == old(self).start_drag,
            final(self).wind_drag == old(self).wind_drag,
    {
        self.saved_flow = flow;
    }

    /// The tool's reaction to one event.
    pub fn handle(&mut self, event: SurfaceEvent<P, F>) -> (action: SurfaceAction<P, F>)
        ensures
            match event {
                SurfaceEvent::Press { at } => {
                    &&& final(self).start_drag == Some(at)
                    &&& final(self).wind_drag == old(self).wind_drag
                    &&& final(self).saved_flow == old(self).saved_flow
                    &&& action is Nothing
                },
                SurfaceEvent::Release { end, too_short } => {
                    &&& final(self).start_drag is None
                    &&& final(self).wind_drag == old(self).wind_drag
                    &&& final(self).saved_flow == old(self).saved_flow
                    &&& match old(self).start_drag {
                        Some(p1) => if too_short {
                            action is Nothing
                        } else {
                            action == (SurfaceAction::AddSurface::<P, F> { p1, p2: end })
                        },
                        None => action is Nothing,
                    }
                },
                SurfaceEvent::Erase { hovered } => {
                    &&& final(self).start_drag == old(self).start_drag
                    &&& final(self).wind_drag == old(self).wind_drag
                    &&& final(self).saved_flow == old(self).saved_flow
                    &&& match hovered {
                        Some(index) => action == (SurfaceAction::RemoveSurface::<P, F> { index }),
                        None => action is Nothing,
                    }
                },
                SurfaceEvent::WindDown { hovered, cursor, ctrl, shift } => {
                    &&& final(self).start_drag == old(self).start_drag
                    &&& if ctrl {
                        &&& final(self).wind_drag == old(self).wind_drag
                        &&& action is Nothing
                        &&& final(self).saved_flow == match hovered {
                            Some((_, flow)) => flow,
                            None => old(self).saved_flow,
                        }
                    } else if shift {
                        &&& final(self).wind_drag == old(self).wind_drag
                        &&& final(self).saved_flow == old(self).saved_flow
                        &&& match hovered {
                            Some((index, _)) => action == (SurfaceAction::SetFlow::<P, F> {
                                index,
                                flow: old(self).saved_flow,
                            }),
                            None => action is Nothing,
                        }
                    } else {
                        &&& final(self).saved_flow == old(self).saved_flow
                        &&& action is Nothing
                        &&& final(self).wind_drag == if old(self).wind_drag is None {
                            match hovered {
                                Some((index, _)) => Some((index, cursor)),
                                None => None,
                            }
                        } else {
                            old(self).wind_drag
                        }
                    }
                },
                SurfaceEvent::WindUp => {
                    &&& final(self).start_drag == old(self).start_drag
                    &&& final(self).wind_drag is None
                    &&& final(self).saved_flow == old(self).saved_flow
                    &&& match old(self).wind_drag {
                        Some((index, start)) => action == (SurfaceAction::DragFlow::<P, F> {
                            index,
                            start,
                        }),
                        None => action is Nothing,
                    }
                },
                SurfaceEvent::Other => {
                    &&& final(self).start_drag == old(self).start_drag
                    &&& final(self).wind_drag == old(self).wind_drag
                    &&& final(self).saved_flow == old(self).saved_flow
                    &&& action is Nothing
                },
            },
    {
        match event {
            SurfaceEvent::Press { at } => {
                self.start_drag = Some(at);
                SurfaceAction::Nothing
            },
            SurfaceEvent::Release { end, too_short } => {
                let start = self.start_drag.take();
                match start {
                    Some(p1) => {
                        if too_short {
                            SurfaceAction::Nothing
                        } else {
                            SurfaceAction::AddSurface { p1, p2: end }
                        }
                    },
                    None => SurfaceAction::Nothing,
                }
            },
            SurfaceEvent::Erase { hovered } => match hovered {
                Some(index) => SurfaceAction::RemoveSurface { index },
                None => SurfaceAction::Nothing,
            },
            SurfaceEvent::WindDown { hovered, cursor, ctrl, shift } => {
                if ctrl {
                    if let Some((_, flow)) = hovered {
                        self.saved_flow = flow;
                    }
                    SurfaceAction::Nothing
                } else if shift {
                    match hovered {
                        Some((index, _)) => SurfaceAction::SetFlow { index, flow: self.saved_flow },
                        None => SurfaceAction::Nothing,
                    }
                } else {
                    if self.wind_drag.is_none() {
                        self.wind_drag = match hovered {
                            Some((index, _)) => Some((index, cursor)),
                            None => None,
                        };
                    }
                    SurfaceAction::Nothing
                }
            },
            SurfaceEvent::WindUp => {
                let drag = self.wind_drag.take();
                match drag {
                    Some((index, start)) => SurfaceAction::DragFlow { index, start },
                    None => SurfaceAction::Nothing,
                }
            },
            SurfaceEvent::Other => SurfaceAction::Nothing,
        }
    }
}

} // verus!
