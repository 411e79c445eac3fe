use vstd::prelude::*;

verus! {

/// A key of the keyboard, as far as the game tells keys apart.
#[derive(Debug, Clone, Copy, PartialEq, Eq, Structural)]
pub enum Key {
    A,
    D,
    W,
    Left,
    Right,
    Up,
    Space,
    Num1,
    Num2,
    Num3,
    Num4,
    M,
    H,
    L,
    R,
    I,
    Tab,
    Other,
}

/// Keys that roll the player to the left.
pub open spec fn rolls_left(k: Key) -> bool {
    k == Key::A || k == Key::Left
}

/// Keys that roll the player to the right.
pub open spec fn rolls_right(k: Key) -> bool {
    k == Key::D || k == Key::Right
}

/// Keys that force a fart.
pub open spec fn forces_fart(k: Key) -> bool {
    k == Key::W || k == Key::Up || k == Key::Space
}

/// What the keyboard and mouse ask of the player's character: full roll to
/// either side, and whether to force a fart.
#[derive(Debug, Clone, Copy, PartialEq, Eq, Structural)]
pub struct KeyboardIntent {
    pub roll_left: bool,
    pub roll_right: bool,
    pub force_fart: bool,
}

/// Reads the pressed keys: A or Left rolls left, D or Right rolls right, and
/// W, Up, Space or the left mouse button forces a fart.
pub fn keyboard_intent(pressed: &Vec<Key>, left_mouse: bool) -> (intent: KeyboardIntent)
    ensures
        intent.roll_left == exists|i: int| 0 <= i < pressed@.len() && rolls_left(#[trigger] pressed@[i]),
        intent.roll_right == exists|i: int|
            0 <= i < pressed@.len() && rolls_right(#[trigger] pressed@[i]),
        intent.force_fart == (left_mouse || exists|i: int|
            0 <= i < pressed@.len() && forces_fart(#[trigger] pressed@[i])),
{
    let mut intent = KeyboardIntent { roll_left: false, roll_right: false, force_fart: left_mouse };
    let mut i: usize = 0;
    while i < pressed.len()
        invariant
            0 <= i <= pressed@.len(),
            intent.roll_left == exists|j: int| 0 <= j < i && rolls_left(#[trigger] pressed@[j]),
            intent.roll_right == exists|j: int| 0 <= j < i && rolls_right(#[trigger] pressed@[j]),
            intent.force_fart == (left_mouse || exists|j: int|
                0 <= j < i && forces_fart(#[trigger] pressed@[j])),
        decreases pressed@.len() - i,
    {
        let k = pressed[i];
        if k == Key::A || k == Key::Left {
            intent.roll_left = true;
        }
        if k == Key::D || k == Key::Right {
            intent.roll_right = true;
        }
        if k == Key::W || k == Key::Up || k == Key::Space {
            intent.force_fart = true;
        }
        i = i + 1;
    }
    intent
}

/// What the game shows: whether music is muted, player names are shown and
/// the leaderboard is shown.
#[derive(Debug, Clone, Copy, PartialEq, Eq, Structural)]
pub struct HudToggles {
    pub mute_music: bool,
    pub show_names: bool,
    pub show_leaderboard: bool,
}

/// What a key press asks the game to do beyond flipping a display toggle.
#[derive(Debug, Clone, Copy, PartialEq, Eq, Structural)]
pub enum GameAction {
    Nothing,
    /// Put the player back at the start.
    Respawn,
    /// Show the emote with this number to everyone.
    Emote(usize),
    /// Open or close the level editor.
    ToggleEditor,
    /// Put the camera's zoom back to the configured one.
    ResetZoom,
}

/// The number of the emote that a key sends, if any: keys 1 to 4 send emotes
/// 0 to 3.
pub open spec fn emote_of(key: Key) -> Option<usize> {
    match key {
        Key::Num1 => Some(0usize),
        Key::Num2 => Some(1usize),
        Key::Num3 => Some(2usize),
        Key::Num4 => Some(3usize),
        _ => None,
    }
}

/// The game's reaction to a key press: Ctrl-R respawns, M, H and L flip the
/// music, the names and the leaderboard (not while the customization screen
/// is up), 1 to 4 send emotes, Tab opens or closes the editor where editing
/// is allowed, and I resets the zoom.
pub fn game_key(
    key: Key,
    ctrl: bool,
    customizing: bool,
    editing_allowed: bool,
    toggles: &mut HudToggles,
) -> (action: GameAction)
    ensures
        final(toggles).mute_music == (old(toggles).mute_music != (key == Key::M && !customizing)),
        final(toggles).show_names == (old(toggles).show_names != (key == Key::H && !customizing)),
        final(toggles).show_leaderboard == (old(toggles).show_leaderboard != (key == Key::L
            && !customizing)),
        action == if key == Key::R && ctrl {
            GameAction::Respawn
        } else if emote_of(key) is Some {
            GameAction::Emote(emote_of(key).unwrap())
        } else if key == Key::Tab && editing_allowed {
            GameAction::ToggleEditor
        } else if key == Key::I {
            GameAction::ResetZoom
        } else {
            GameAction::Nothing
        },
{
    match key {
        Key::R => {
            if ctrl {
                GameAction::Respawn
            } else {
                GameAction::Nothing
            }
        },
        Key::M => {
            if !customizing {
                toggles.mute_music = !toggles.mute_music;
            }
            GameAction::Nothing
        },
        Key::H => {
            if !customizing {
                toggles.show_names = !toggles.show_names;
            }
            GameAction::Nothing
        },
        Key::L => {
            if !customizing {
                toggles.show_leaderboard = !toggles.show_leaderboard;
            }
            GameAction::Nothing
        },
        Key::Num1 => GameAction::Emote(0),
        Key::Num2 => GameAction::Emote(1),
        Key::Num3 => GameAction::Emote(2),
        Key::Num4 => GameAction::Emote(3),
        Key::Tab => {
            if editing_allowed {
                GameAction::ToggleEditor
            } else {
                GameAction::Nothing
            }
        },
        Key::I => GameAction::ResetZoom,
        _ => GameAction::Nothing,
    }
}


/// Law: with any of W, Up or Space among the pressed keys the player forces
/// a fart; with A or Left it rolls left, with D or Right it rolls right; no
/// other key does any of these.
pub proof fn lemma_readme_controls(pressed: Seq<Key>, k: Key)
    requires
        pressed.contains(k),
    ensures
        (k == Key::W || k == Key::Up || k == Key::Space) ==> exists|i: int|
            0 <= i < pressed.len() && forces_fart(#[trigger] pressed[i]),
        (k == Key::A || k == Key::Left) ==> exists|i: int|
            0 <= i < pressed.len() && rolls_left(#[trigger] pressed[i]),
        (k == Key::D || k == Key::Right) ==> exists|i: int|
            0 <= i < pressed.len() && rolls_right(#[trigger] pressed[i]),
        forces_fart(k) ==> (k == Key::W || k == Key::Up || k == Key::Space),
        rolls_left(k) ==> (k == Key::A || k == Key::Left),
        rolls_right(k) ==> (k == Key::D || k == Key::Right),
{
    let i = choose|i: int| 0 <= i < pressed.len() && pressed[i] == k;
    assert(pressed[i] == k);
}

} // verus!
