use vstd::prelude::*;

verus! {

/// The cannon tool of the level editor: where the cannon being placed
/// stands, while its aim is dragged.
pub struct CannonTool<P> {
    pub start_drag: Option<P>,
}

/// An input event as the cannon and object tools see it.
pub enum PlaceEvent<P> {
    /// The left button went down at cursor position `at`.
    Press { at: P },
    /// The left button went up.
    Release,
    /// The right button went down over the item at `hovered`, if any.
    Erase { hovered: Option<usize> },
    Other,
}

/// What the level must undergo after an event of the cannon or object tool.
pub enum PlaceAction<P> {
    Nothing,
    /// Add an item at `pos` (a cannon aimed from `pos` at the cursor, or an
    /// object of the selected type).
    Add { pos: P },
    /// Remove the item at `index`.
    Remove { index: usize },
}

impl<P> CannonTool<P> {
    /// A tool with no cannon being placed.
    pub fn new() -> (tool: Self)
        ensures
            tool.start_drag is None,
    {
        CannonTool { start_drag: None }
    }

    /// The tool's reaction to one event: a cannon is placed where the left
    /// button went down, once it comes up.
    pub fn handle(&mut self, event: PlaceEvent<P>) -> (action: PlaceAction<P>)
        ensures
            match event {
                PlaceEvent::Press { at } => final(self).start_drag == Some(at) && action is Nothing,
                PlaceEvent::Release => final(self).start_drag is None && match old(self).start_drag {
                    Some(pos) => action == (PlaceAction::Add { pos }),
                    None => action is Nothing,
                },
                PlaceEvent::Erase { hovered } => final(self).start_drag == old(self).start_drag
                    && match hovered {
                    Some(index) => action == (PlaceAction::Remove::<P> { index }),
                    None => action is Nothing,
                },
                PlaceEvent::Other => final(self).start_drag == old(self).start_drag
                    && action is Nothing,
            },
    {
        match event {
            PlaceEvent::Press { at } => {
                self.start_drag = Some(at);
                PlaceAction::Nothing
            },
            PlaceEvent::Release => match self.start_drag.take() {
                Some(pos) => PlaceAction::Add { pos },
                None => PlaceAction::Nothing,
            },
            PlaceEvent::Erase { hovered } => match hovered {
                Some(index) => PlaceAction::Remove { index },
                None => PlaceAction::Nothing,
            },
            PlaceEvent::Other => PlaceAction::Nothing,
        }
    }
}

/// The object tool's reaction to one event: an object goes where the left
/// button goes down, and the right button removes the hovered one.
pub fn object_tool_action<P>(event: PlaceEvent<P>) -> (action: PlaceAction<P>)
    ensures
        match event {
            PlaceEvent::Press { at } => action == (PlaceAction::Add { pos: at }),
            PlaceEvent::Erase { hovered } => match hovered {
                Some(index) => action == (PlaceAction::Remove::<P> { index }),
                None => action is Nothing,
            },
            _ => action is Nothing,
        },
{
    match event {
        PlaceEvent::Press { at } => PlaceAction::Add { pos: at },
        PlaceEvent::Erase { hovered } => match hovered {
            Some(index) => PlaceAction::Remove { index },
            None => PlaceAction::Nothing,
        },
        _ => PlaceAction::Nothing,
    }
}

} // verus!
