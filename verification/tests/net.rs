use getting_farted_on::id::Id;
use getting_farted_on::net::{client_step, client_steps, set_emote, ClientAction, ClientMessage, ClientView, ServerMessage, ServerState};

fn describe(m: &ServerMessage<&'static str>) -> String {
    match m {
        ServerMessage::Pong => "pong".to_string(),
        ServerMessage::ForceReset => "reset".to_string(),
        ServerMessage::ClientId(id) => format!("id {}", id.0),
        ServerMessage::UpdateGuy { guy, update } => format!("update {} {}", guy.0, update),
        ServerMessage::Despawn(id) => format!("despawn {}", id.0),
        ServerMessage::Emote(id, e) => format!("emote {} {}", id.0, e),
    }
}

#[test]
fn clients_get_fresh_ids() {
    let mut s: ServerState<&'static str> = ServerState::new();
    assert_eq!(s.connect(), Id(0));
    assert_eq!(s.connect(), Id(1));
    s.disconnect(Id(0));
    assert_eq!(s.connect(), Id(2));
}

#[test]
fn update_is_relayed_to_others_only() {
    let mut s: ServerState<&'static str> = ServerState::new();
    let a = s.connect();
    let b = s.connect();
    let c = s.connect();
    let (reply, out) = s.handle(a, ClientMessage::Update { guy: a, update: "moved" });
    assert!(reply.is_none());
    assert_eq!(out.messages.len(), 1);
    assert_eq!(describe(&out.messages[0]), "update 0 moved");
    assert_eq!(out.deliveries, vec![(b, 0), (c, 0)]);
}

#[test]
fn ping_is_answered_directly() {
    let mut s: ServerState<&'static str> = ServerState::new();
    let a = s.connect();
    let _b = s.connect();
    let (reply, out) = s.handle(a, ClientMessage::Ping);
    assert!(matches!(reply, Some(ServerMessage::Pong)));
    assert!(out.messages.is_empty());
    assert!(out.deliveries.is_empty());
}

#[test]
fn emotes_and_resets_go_to_everyone() {
    let mut s: ServerState<&'static str> = ServerState::new();
    let a = s.connect();
    let b = s.connect();
    let (_, out) = s.handle(b, ClientMessage::Emote(3));
    assert_eq!(describe(&out.messages[0]), "emote 1 3");
    assert_eq!(out.deliveries, vec![(a, 0), (b, 0)]);
    let (_, out) = s.handle(a, ClientMessage::ForceReset);
    assert_eq!(describe(&out.messages[0]), "reset");
    assert_eq!(out.deliveries, vec![(a, 0), (b, 0)]);
}

#[test]
fn despawn_on_disconnect_reaches_the_rest() {
    let mut s: ServerState<&'static str> = ServerState::new();
    let a = s.connect();
    let b = s.connect();
    let c = s.connect();
    s.disconnect(b);
    let out = s.send_updates();
    assert_eq!(out.messages.len(), 1);
    assert_eq!(describe(&out.messages[0]), "despawn 1");
    assert_eq!(out.deliveries, vec![(a, 0), (c, 0)]);
    let again = s.send_updates();
    assert!(again.messages.is_empty());
    assert!(again.deliveries.is_empty());
}

#[test]
fn queued_messages_go_out_with_the_next_handled_message() {
    let mut s: ServerState<&'static str> = ServerState::new();
    let a = s.connect();
    let b = s.connect();
    let c = s.connect();
    s.disconnect(c);
    let (_, out) = s.handle(a, ClientMessage::Despawn);
    let texts: Vec<String> = out.messages.iter().map(describe).collect();
    assert_eq!(texts, vec!["despawn 2", "despawn 0"]);
    assert_eq!(out.deliveries, vec![(a, 0), (b, 0), (b, 1)]);
}

#[test]
fn update_for_another_players_id_skips_that_player() {
    let mut s: ServerState<&'static str> = ServerState::new();
    let a = s.connect();
    let b = s.connect();
    let (_, out) = s.handle(a, ClientMessage::Update { guy: b, update: "x" });
    assert_eq!(out.deliveries, vec![(a, 0)]);
}

#[test]
fn emote_replaces_previous_one_of_same_player() {
    let mut emotes: Vec<(u32, Id, usize)> = vec![(1, Id(5), 0), (2, Id(6), 1), (3, Id(5), 2)];
    set_emote(&mut emotes, 9, Id(5), 3);
    assert_eq!(emotes, vec![(2, Id(6), 1), (9, Id(5), 3)]);
    set_emote(&mut emotes, 10, Id(7), 0);
    assert_eq!(emotes, vec![(2, Id(6), 1), (9, Id(5), 3), (10, Id(7), 0)]);
}

#[test]
fn client_reacts_to_server_messages() {
    let mut view = ClientView { emotes: vec![(1u32, Id(4), 0usize)], players: vec![Id(0), Id(3)], recorded: vec![] };
    let a = client_step(&mut view, 2, ServerMessage::<&str>::ForceReset, Some(Id(0)));
    assert!(matches!(a, ClientAction::Respawn));
    let a = client_step(&mut view, 2, ServerMessage::<&str>::Pong, Some(Id(0)));
    assert!(matches!(a, ClientAction::Ping { mine: Some(Id(0)) }));
    let a = client_step(&mut view, 2, ServerMessage::<&str>::Pong, None);
    assert!(matches!(a, ClientAction::Ping { mine: None }));
    let a = client_step(&mut view, 2, ServerMessage::UpdateGuy { guy: Id(3), update: "u" }, None);
    assert!(matches!(a, ClientAction::Remote { guy: Id(3), update: "u" }));
    assert_eq!(view.recorded, vec![Id(3)]);
    client_step(&mut view, 2, ServerMessage::UpdateGuy { guy: Id(3), update: "v" }, None);
    assert_eq!(view.recorded, vec![Id(3)]);
    let a = client_step(&mut view, 2, ServerMessage::<&str>::Despawn(Id(3)), None);
    assert!(matches!(a, ClientAction::Forget(Id(3))));
    assert_eq!(view.players, vec![Id(0)]);
    assert!(view.recorded.is_empty());
    assert_eq!(view.emotes, vec![(1, Id(4), 0)]);
    let a = client_step(&mut view, 5, ServerMessage::<&str>::Emote(Id(4), 2), None);
    assert!(matches!(a, ClientAction::Nothing));
    assert_eq!(view.emotes, vec![(5, Id(4), 2)]);
}

#[test]
fn client_batch_keeps_last_emotes_and_forgets_despawned() {
    let mut view = ClientView { emotes: vec![(1u32, Id(1), 0usize)], players: vec![Id(1), Id(2)], recorded: vec![Id(2)] };
    let messages = vec![
        ServerMessage::Emote(Id(2), 1),
        ServerMessage::UpdateGuy { guy: Id(1), update: 'a' },
        ServerMessage::Emote(Id(1), 3),
        ServerMessage::Despawn(Id(2)),
        ServerMessage::Emote(Id(2), 4),
        ServerMessage::Pong,
    ];
    let actions = client_steps(&mut view, 9, messages, Some(Id(1)));
    assert_eq!(actions.len(), 6);
    assert!(matches!(actions[5], ClientAction::Ping { mine: Some(Id(1)) }));
    assert_eq!(view.emotes, vec![(9, Id(1), 3), (9, Id(2), 4)]);
    assert_eq!(view.players, vec![Id(1)]);
    assert_eq!(view.recorded, vec![Id(1)]);
}
