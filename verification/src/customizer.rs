use vstd::prelude::*;
use vstd::string::*;
use vstd::utf8::encode_utf8;
use crate::text::str_eq;

verus! {

/// What a button of the customization screen asks for.
#[derive(Debug, Clone, Copy, PartialEq, Eq, Structural)]
pub enum UiMessage {
    Play,
    RandomizeSkin,
}

/// What the game must do for a message of the customization screen.
#[derive(Debug, Clone, Copy, PartialEq, Eq, Structural)]
pub enum CustomizerAction {
    /// Store the player's customization among the preferences.
    SaveCustomization,
    /// Give the player random colors.
    RandomizeColors,
}

/// The action for each message, in order, and whether the screen is still
/// up after them: `Play` closes it.
pub open spec fn customizer_outcome(showing: bool, messages: Seq<UiMessage>) -> (bool, Seq<
    CustomizerAction,
>)
    decreases messages.len(),
{
    if messages.len() == 0 {
        (showing, Seq::empty())
    } else {
        let (shown, actions) = customizer_outcome(showing, messages.drop_last());
        match messages.last() {
            UiMessage::Play => (false, actions.push(CustomizerAction::SaveCustomization)),
            UiMessage::RandomizeSkin => (shown, actions.push(CustomizerAction::RandomizeColors)),
        }
    }
}

/// The customization screen's reaction to an event. `confirm` says whether
/// the event was Enter or a gamepad's Start; `clicked` holds the messages of
/// the buttons that the event clicked. While the screen is down, confirming
/// brings it up; while it is up, the clicked messages are handled in order
/// and then confirming counts as `Play`.
pub fn customizer_event(showing: &mut bool, confirm: bool, clicked: &Vec<UiMessage>) -> (actions:
    Vec<CustomizerAction>)
    ensures
        !*old(showing) ==> *final(showing) == confirm && actions@.len() == 0,
        *old(showing) ==> {
            let messages = if confirm {
                clicked@.push(UiMessage::Play)
            } else {
                clicked@
            };
            (*final(showing), actions@) == customizer_outcome(true, messages)
        },
{
    let mut actions: Vec<CustomizerAction> = Vec::new();
    if !*showing {
        if confirm {
            *showing = true;
        }
        return actions;
    }
    let mut messages: Vec<UiMessage> = Vec::new();
    let mut i: usize = 0;
    while i < clicked.len()
        invariant
            0 <= i <= clicked@.len(),
            messages@ == clicked@.take(i as int),
        decreases clicked@.len() - i,
    {
        messages.push(clicked[i]);
        i = i + 1;
    }
    assert(clicked@.take(clicked@.len() as int) == clicked@);
    if confirm {
        messages.push(UiMessage::Play);
    }
    let ghost all = messages@;
    let mut k: usize = 0;
    while k < messages.len()
        invariant
            messages@ == all,
            0 <= k <= all.len(),
            (*showing, actions@) == customizer_outcome(true, all.take(k as int)),
        decreases all.len() - k,
    {
        proof {
            assert(all.take(k + 1).drop_last() == all.take(k as int));
        }
        match messages[k] {
            UiMessage::Play => {
                *showing = false;
                actions.push(CustomizerAction::SaveCustomization);
            },
            UiMessage::RandomizeSkin => {
                actions.push(CustomizerAction::RandomizeColors);
            },
        }
        k = k + 1;
    }
    assert(all.take(all.len() as int) == all);
    actions
}

/// The longest name, in bytes, to which typing still adds.
pub const MAX_NAME_BYTES: usize = 15;

/// What typing the key with the given name adds to a player's name: a key
/// whose name is one byte long types itself, a key named `Num<d>` types what
/// follows `Num`, any other key types nothing.
pub open spec fn typed_text(key: Seq<char>) -> Option<Seq<char>> {
    if encode_utf8(key).len() as usize == 1 {
        Some(key)
    } else if key.len() >= 3 && key.take(3) == seq!['N', 'u', 'm'] {
        Some(key.skip(3))
    } else {
        None
    }
}

/// A player's name after the key with the given name was pressed: the typed
/// text is added while the name is shorter than `MAX_NAME_BYTES` bytes, and
/// `Backspace` takes the last character away.
pub open spec fn edited_name(name: Seq<char>, key: Seq<char>) -> Seq<char> {
    let typed = match typed_text(key) {
        Some(t) => if (encode_utf8(name).len() as usize) < MAX_NAME_BYTES {
            name + t
        } else {
            name
        },
        None => name,
    };
    if key == "Backspace"@ && typed.len() > 0 {
        typed.drop_last()
    } else {
        typed
    }
}

/// `String::pop`: takes the last character away, if there is one.
#[verifier::external_body]
fn pop_char(s: &mut String) -> (c: Option<char>)
    ensures
        old(s)@.len() == 0 ==> c is None && final(s)@ == old(s)@,
        old(s)@.len() > 0 ==> c == Some(old(s)@.last()) && final(s)@ == old(s)@.drop_last(),
{
    s.pop()
}

/// The text that typing a key adds, from the key's name.
fn typed(key: &str) -> (t: Option<&str>)
    ensures
        match typed_text(key@) {
            Some(x) => t matches Some(y) && y@ == x,
            None => t is None,
        },
{
    if key.len() == 1 {
        return Some(key);
    }
    let n = key.unicode_len();
    if n >= 3 && key.get_char(0) == 'N' && key.get_char(1) == 'u' && key.get_char(2) == 'm' {
        proof {
            assert(key@.take(3) == seq!['N', 'u', 'm']);
        }
        Some(key.substring_char(3, n))
    } else {
        proof {
            if key@.len() >= 3 && key@.take(3) == seq!['N', 'u', 'm'] {
                assert(key@.take(3)[0] == key@[0]);
                assert(key@.take(3)[1] == key@[1]);
                assert(key@.take(3)[2] == key@[2]);
            }
        }
        None
    }
}

/// Edits a player's name on the customization screen as the key with the
/// given name (its debug name, such as `A`, `Num1` or `Backspace`) is pressed.
pub fn edit_name(name: &mut String, key: &str)
    ensures
        final(name)@ == edited_name(old(name)@, key@),
{
    if let Some(c) = typed(key) {
        if name.as_str().len() < MAX_NAME_BYTES {
            name.append(c);
        }
    }
    if str_eq(key, "Backspace") {
        pop_char(name);
    }
}


/// Law: Backspace takes the last character off a name, whatever its length
/// (a full name included), and types nothing; an empty name stays empty.
pub proof fn lemma_backspace_pops(name: Seq<char>)
    ensures
        name.len() > 0 ==> edited_name(name, "Backspace"@) == name.drop_last(),
        name.len() == 0 ==> edited_name(name, "Backspace"@) == name,
{
    reveal_strlit("Backspace");
    let key = "Backspace"@;
    assert(vstd::utf8::is_ascii_chars(key));
    vstd::utf8::is_ascii_chars_encode_utf8(key);
    assert(key.take(3) != seq!['N', 'u', 'm']) by {
        assert(key.take(3)[0] == 'B');
    }
    assert(typed_text(key) is None);
}

} // verus!
