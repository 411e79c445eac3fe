use vstd::prelude::*;

verus! {

/// The settings of the edit tool: it has none.
pub struct EditToolConfig {}

/// What the level editor's edit tool is doing. `start` is the cursor position
/// at which the gesture began.
pub enum EditState<P> {
    Idle,
    DragSelection { start: P },
    Copy { start: P },
    Grab { start: P },
    Scale { start: P },
    Rotate { start: P },
}

/// A key that the edit tool reacts to.
#[derive(Debug, Clone, Copy, PartialEq, Eq, Structural)]
pub enum EditKey {
    G,
    C,
    S,
    R,
    Delete,
    Other,
}

/// An input event as the edit tool sees it.
#[derive(Debug, Clone, Copy, PartialEq, Eq, Structural)]
pub enum EditEvent {
    /// A mouse button went down.
    MouseDown { left: bool },
    /// A mouse button went up; `shift` says whether shift was held.
    MouseUp { left: bool, shift: bool },
    /// A key went down; `ctrl` says whether control was held.
    KeyDown { key: EditKey, ctrl: bool },
    Other,
}

/// The gesture by which selected vertices are moved.
#[derive(Debug, Clone, Copy, PartialEq, Eq, Structural)]
pub enum Gesture {
    Grab,
    Scale,
    Rotate,
}

/// What the level must undergo after an event.
pub enum EditAction<P> {
    Nothing,
    /// Move the selected vertices by the gesture that began at `start`.
    MoveSelected { gesture: Gesture, start: P },
    /// Add moved copies of the selected shapes, shifted by the offset of the
    /// cursor from `start`.
    CopySelected { start: P },
    /// Select the vertices in the box from `start` to the cursor, after
    /// clearing the selection unless `keep` is set.
    SelectBox { start: P, keep: bool },
    /// Remove the shapes that touch a selected vertex.
    DeleteSelected,
}

/// The state that a key press leads to, if it starts a gesture.
pub open spec fn key_gesture<P>(key: EditKey, ctrl: bool, cursor: P) -> Option<EditState<P>> {
    match key {
        EditKey::G => Some(EditState::Grab { start: cursor }),
        EditKey::C => if ctrl {
            Some(EditState::Copy { start: cursor })
        } else {
            None
        },
        EditKey::S => Some(EditState::Scale { start: cursor }),
        EditKey::R => Some(EditState::Rotate { start: cursor }),
        _ => None,
    }
}

/// The edit tool's reaction to one event at the given cursor position: the
/// next state and what must happen to the level.
pub fn edit_step<P>(state: EditState<P>, event: EditEvent, cursor: P) -> (r: (
    EditState<P>,
    EditAction<P>,
))
    ensures
        match event {
            EditEvent::MouseDown { left } => match state {
                EditState::Idle => if left {
                    r.0 == EditState::DragSelection { start: cursor } && r.1 is Nothing
                } else {
                    r.0 is Idle && r.1 is Nothing
                },
                EditState::DragSelection { .. } => r.0 == state && r.1 is Nothing,
                EditState::Copy { start } => r.0 is Idle && if left {
                    r.1 == EditAction::CopySelected { start }
                } else {
                    r.1 is Nothing
                },
                EditState::Grab { start } => r.0 is Idle && if left {
                    r.1 == EditAction::MoveSelected { gesture: Gesture::Grab, start }
                } else {
                    r.1 is Nothing
                },
                EditState::Scale { start } => r.0 is Idle && if left {
                    r.1 == EditAction::MoveSelected { gesture: Gesture::Scale, start }
                } else {
                    r.1 is Nothing
                },
                EditState::Rotate { start } => r.0 is Idle && if left {
                    r.1 == EditAction::MoveSelected { gesture: Gesture::Rotate, start }
                } else {
                    r.1 is Nothing
                },
            },
            EditEvent::MouseUp { left, shift } => match state {
                EditState::DragSelection { start } => if left {
                    r.0 is Idle && r.1 == EditAction::SelectBox { start, keep: shift }
                } else {
                    r.0 == state && r.1 is Nothing
                },
                _ => r.0 == state && r.1 is Nothing,
            },
            EditEvent::KeyDown { key, ctrl } => match key_gesture(key, ctrl, cursor) {
                Some(next) => r.0 == next && r.1 is Nothing,
                None => r.0 == state && if key == EditKey::Delete && state is Idle {
                    r.1 is DeleteSelected
                } else {
                    r.1 is Nothing
                },
            },
            EditEvent::Other => r.0 == state && r.1 is Nothing,
        },
{
    match event {
        EditEvent::MouseDown { left } => match state {
            EditState::Idle => {
                if left {
                    (EditState::DragSelection { start: cursor }, EditAction::Nothing)
                } else {
                    (EditState::Idle, EditAction::Nothing)
                }
            },
            EditState::DragSelection { start } => (
                EditState::DragSelection { start },
                EditAction::Nothing,
            ),
            EditState::Copy { start } => {
                if left {
                    (EditState::Idle, EditAction::CopySelected { start })
                } else {
                    (EditState::Idle, EditAction::Nothing)
                }
            },
            EditState::Grab { start } => {
                if left {
                    (EditState::Idle, EditAction::MoveSelected { gesture: Gesture::Grab, start })
                } else {
                    (EditState::Idle, EditAction::Nothing)
                }
            },
            EditState::Scale { start } => {
                if left {
                    (EditState::Idle, EditAction::MoveSelected { gesture: Gesture::Scale, start })
                } else {
                    (EditState::Idle, EditAction::Nothing)
                }
            },
            EditState::Rotate { start } => {
                if left {
                    (
                        EditState::Idle,
                        EditAction::MoveSelected { gesture: Gesture::Rotate, start },
                    )
                } else {
                    (EditState::Idle, EditAction::Nothing)
                }
            },
        },
        EditEvent::MouseUp { left, shift } => match state {
            EditState::DragSelection { start } => {
                if left {
                    (EditState::Idle, EditAction::SelectBox { start, keep: shift })
                } else {
                    (EditState::DragSelection { start }, EditAction::Nothing)
                }
            },
            other => (other, EditAction::Nothing),
        },
        EditEvent::KeyDown { key, ctrl } => match key {
            EditKey::G => (EditState::Grab { start: cursor }, EditAction::Nothing),
            EditKey::C => {
                if ctrl {
                    (EditState::Copy { start: cursor }, EditAction::Nothing)
                } else {
                    (state, EditAction::Nothing)
                }
            },
            EditKey::S => (EditState::Scale { start: cursor }, EditAction::Nothing),
            EditKey::R => (EditState::Rotate { start: cursor }, EditAction::Nothing),
            EditKey::Delete => {
                let idle = match state {
                    EditState::Idle => true,
                    _ => false,
                };
                if idle {
                    (state, EditAction::DeleteSelected)
                } else {
                    (state, EditAction::Nothing)
                }
            },
            EditKey::Other => (state, EditAction::Nothing),
        },
        EditEvent::Other => (state, EditAction::Nothing),
    }
}


/// Law: each gesture key starts its own gesture at the cursor, whatever the
/// state before: `G` grabs, `S` scales and `R` rotates, with or without
/// control held, and `C` copies only with control held.
pub proof fn lemma_gesture_keys<P>(ctrl: bool, cursor: P)
    ensures
        key_gesture(EditKey::G, ctrl, cursor) == Some(EditState::Grab { start: cursor }),
        key_gesture(EditKey::S, ctrl, cursor) == Some(EditState::Scale { start: cursor }),
        key_gesture(EditKey::R, ctrl, cursor) == Some(EditState::Rotate { start: cursor }),
        key_gesture(EditKey::C, true, cursor) == Some(EditState::Copy { start: cursor }),
        key_gesture(EditKey::C, false, cursor) is None,
        key_gesture(EditKey::Delete, ctrl, cursor) is None,
        key_gesture(EditKey::Other, ctrl, cursor) is None,
{
}

} // verus!
