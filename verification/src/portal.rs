use vstd::prelude::*;

verus! {

/// A portal of a level: where it is, which portal (by position in the
/// level's list) it leads to, and its color.
pub struct Portal<P, C> {
    pub pos: P,
    pub dest: Option<usize>,
    pub color: C,
}

/// Where a link to portal `dest` points after the portal at `removed` is
/// taken out of the list: links to it are dropped, later portals move down.
pub open spec fn shifted_dest(dest: Option<usize>, removed: usize) -> Option<usize> {
    match dest {
        None => None,
        Some(d) => if d < removed {
            Some(d)
        } else if d == removed {
            None
        } else {
            Some((d - 1) as usize)
        },
    }
}

/// The position in the old list of the portal at `k` after the portal at
/// `removed` is taken out.
pub open spec fn old_position(k: int, removed: int) -> int {
    if k < removed {
        k
    } else {
        k + 1
    }
}

/// Takes the portal at `index` out of the list and keeps every other link
/// pointing at the same portal; links to the removed portal are dropped.
pub fn remove_portal<P, C>(portals: &mut Vec<Portal<P, C>>, index: usize)
    requires
        index < old(portals)@.len(),
    ensures
        final(portals)@.len() == old(portals)@.len() - 1,
        forall|k: int|
            0 <= k < final(portals)@.len() ==> {
                let before = old(portals)@[old_position(k, index as int)];
                &&& (#[trigger] final(portals)@[k]).pos == before.pos
                &&& final(portals)@[k].color == before.color
                &&& final(portals)@[k].dest == shifted_dest(before.dest, index)
            },
{
    let ghost original = portals@;
    portals.remove(index);
    let ghost removed = portals@;
    let mut result: Vec<Portal<P, C>> = Vec::new();
    let n = portals.len();
    let mut k: usize = 0;
    while k < n
        invariant
            n == removed.len(),
            removed == original.remove(index as int),
            portals@.len() == n - k,
            forall|a: int| 0 <= a < n - k ==> portals@[a] == removed[k + a],
            result@.len() == k,
            0 <= k <= n,
            forall|a: int|
                0 <= a < k ==> {
                    let before = removed[a];
                    &&& (#[trigger] result@[a]).pos == before.pos
                    &&& result@[a].color == before.color
                    &&& result@[a].dest == shifted_dest(before.dest, index)
                },
        decreases n - k,
    {
        let portal = portals.remove(0);
        let dest = match portal.dest {
            None => None,
            Some(d) => {
                if d < index {
                    Some(d)
                } else if d == index {
                    None
                } else {
                    Some(d - 1)
                }
            },
        };
        result.push(Portal { pos: portal.pos, dest, color: portal.color });
        k = k + 1;
    }
    *portals = result;
}

/// Law: removing a portal keeps the links between the others: a remaining
/// portal leads, after the removal, to the same portal it led to before,
/// unless it led to the removed one, in which case it leads nowhere.
pub proof fn lemma_removal_keeps_links(dest: Option<usize>, removed: usize, count: int)
    requires
        dest matches Some(d) ==> d < count,
        removed < count,
    ensures
        match shifted_dest(dest, removed) {
            Some(e) => dest matches Some(d) && d != removed && old_position(e as int, removed as int)
                == d && e < count - 1,
            None => dest is None || dest == Some(removed),
        },
{
}

/// A mouse or key event as the portal tool sees it.
#[derive(Debug, Clone, Copy, PartialEq, Eq, Structural)]
pub enum PortalEvent {
    LeftDown,
    LeftUp,
    RightDown,
    /// The recolor key went down.
    RecolorKey,
    Other,
}

/// What the level must undergo after an event of the portal tool.
#[derive(Debug, Clone, Copy, PartialEq, Eq, Structural)]
pub enum PortalAction {
    Nothing,
    /// Add a portal at the cursor, leading nowhere, with a fresh color.
    Create,
    /// Make the portal at `from` lead to the portal at `to`.
    Link { from: usize, to: usize },
    /// Take the portal at this position out (see `remove_portal`).
    Remove(usize),
    /// Give the portal at this position a fresh color.
    Recolor(usize),
}

/// The portal tool's reaction to one event. `drag` is the portal that a link
/// is being dragged from, `hovered` the portal under the cursor, and `count`
/// the number of portals.
pub fn portal_step(drag: &mut Option<usize>, event: PortalEvent, hovered: Option<usize>, count: usize) -> (action: PortalAction)
    ensures
        match event {
            PortalEvent::LeftDown => match hovered {
                Some(h) => *final(drag) == Some(h) && action == PortalAction::Nothing,
                None => *final(drag) == Some(count) && action == PortalAction::Create,
            },
            PortalEvent::LeftUp => *final(drag) is None && action == match (*old(drag), hovered) {
                (Some(from), Some(to)) => if from != to {
                    PortalAction::Link { from, to }
                } else {
                    PortalAction::Nothing
                },
                _ => PortalAction::Nothing,
            },
            PortalEvent::RightDown => *final(drag) == *old(drag) && action == match hovered {
                Some(h) => PortalAction::Remove(h),
                None => PortalAction::Nothing,
            },
            PortalEvent::RecolorKey => *final(drag) == *old(drag) && action == match hovered {
                Some(h) => PortalAction::Recolor(h),
                None => PortalAction::Nothing,
            },
            PortalEvent::Other => *final(drag) == *old(drag) && action == PortalAction::Nothing,
        },
{
    match event {
        PortalEvent::LeftDown => match hovered {
            Some(h) => {
                *drag = Some(h);
                PortalAction::Nothing
            },
            None => {
                *drag = Some(count);
                PortalAction::Create
            },
        },
        PortalEvent::LeftUp => {
            let start = drag.take();
            match (start, hovered) {
                (Some(from), Some(to)) => {
                    if from != to {
                        PortalAction::Link { from, to }
                    } else {
                        PortalAction::Nothing
                    }
                },
                _ => PortalAction::Nothing,
            }
        },
        PortalEvent::RightDown => match hovered {
            Some(h) => PortalAction::Remove(h),
            None => PortalAction::Nothing,
        },
        PortalEvent::RecolorKey => match hovered {
            Some(h) => PortalAction::Recolor(h),
            None => PortalAction::Nothing,
        },
        PortalEvent::Other => PortalAction::Nothing,
    }
}

/// Makes the portal at `from` lead to the portal at `to`.
pub fn link_portals<P, C>(portals: &mut Vec<Portal<P, C>>, from: usize, to: usize)
    requires
        from < old(portals)@.len(),
    ensures
        final(portals)@.len() == old(portals)@.len(),
        forall|k: int|
            0 <= k < final(portals)@.len() && k != from ==> #[trigger] final(portals)@[k]
                == old(portals)@[k],
        final(portals)@[from as int].pos == old(portals)@[from as int].pos,
        final(portals)@[from as int].color == old(portals)@[from as int].color,
        final(portals)@[from as int].dest == Some(to),
{
    let portal = portals.remove(from);
    let linked = Portal { pos: portal.pos, dest: Some(to), color: portal.color };
    portals.insert(from, linked);
}

} // verus!
