use vstd::prelude::*;
use crate::id::{Id, IdGen};

verus! {

/// What a client tells the relay server. `Update` carries the identifier of
/// the player it updates beside the update itself, which the server relays
/// without looking into.
pub enum ClientMessage<U> {
    Ping,
    Update { guy: Id, update: U },
    Despawn,
    Emote(usize),
    ForceReset,
}

/// What the relay server tells a client.
pub enum ServerMessage<U> {
    Pong,
    ForceReset,
    ClientId(Id),
    UpdateGuy { guy: Id, update: U },
    Despawn(Id),
    Emote(Id, usize),
}

/// Whether a queued message is relayed to the given client: a client is not
/// told of its own player's updates and despawn; emotes and resets go to all.
pub open spec fn relayed_to<U>(message: ServerMessage<U>, client: Id) -> bool {
    match message {
        ServerMessage::Pong => false,
        ServerMessage::ClientId(_) => false,
        ServerMessage::UpdateGuy { guy, .. } => guy != client,
        ServerMessage::Despawn(id) => id != client,
        ServerMessage::Emote(..) => true,
        ServerMessage::ForceReset => true,
    }
}

/// A message that may wait in the server's queue: only replies go straight to
/// one client.
pub open spec fn queueable<U>(message: ServerMessage<U>) -> bool {
    !(message is Pong) && !(message is ClientId)
}

/// The deliveries of the queued `messages` to one client, in queue order:
/// pairs of the client and the position of the message in the queue.
pub open spec fn client_deliveries<U>(client: Id, messages: Seq<ServerMessage<U>>) -> Seq<
    (Id, usize),
>
    decreases messages.len(),
{
    if messages.len() == 0 {
        Seq::empty()
    } else {
        let before = client_deliveries(client, messages.drop_last());
        if relayed_to(messages.last(), client) {
            before.push((client, (messages.len() - 1) as usize))
        } else {
            before
        }
    }
}

/// The deliveries of the queued `messages` to all `clients`, client by client.
pub open spec fn all_deliveries<U>(clients: Seq<Id>, messages: Seq<ServerMessage<U>>) -> Seq<
    (Id, usize),
>
    decreases clients.len(),
{
    if clients.len() == 0 {
        Seq::empty()
    } else {
        all_deliveries(clients.drop_last(), messages) + client_deliveries(clients.last(), messages)
    }
}

/// No identifier occurs twice.
pub open spec fn distinct_ids(ids: Seq<Id>) -> bool {
    forall|a: int, b: int| 0 <= a < b < ids.len() ==> ids[a] != ids[b]
}

/// Every identifier lies in `0 .. next`.
pub open spec fn ids_in_range(ids: Seq<Id>, next: int) -> bool {
    forall|a: int| 0 <= a < ids.len() ==> 0 <= (#[trigger] ids[a]).value() < next
}

/// No message is a reply.
pub open spec fn all_queueable<U>(queue: Seq<ServerMessage<U>>) -> bool {
    forall|a: int| 0 <= a < queue.len() ==> queueable(#[trigger] queue[a])
}

/// A batch of messages taken from the queue, and who gets which of them.
pub struct Broadcast<U> {
    pub messages: Vec<ServerMessage<U>>,
    /// Pairs of a client and the position in `messages` of a message for it.
    pub deliveries: Vec<(Id, usize)>,
}

/// The server's parts fit together: clients are listed once each and got
/// identifiers in `0 .. next`, and the queue holds no replies.
pub open spec fn parts_ok<U>(next: int, messages: Seq<ServerMessage<U>>, clients: Seq<Id>) -> bool {
    &&& distinct_ids(clients)
    &&& ids_in_range(clients, next)
    &&& all_queueable(messages)
    &&& 0 <= next
}

/// The relay server's bookkeeping: connected clients, the identifier the next
/// client gets, and the messages waiting to be relayed.
pub struct ServerState<U> {
    next_client_id: IdGen,
    messages: Vec<ServerMessage<U>>,
    clients: Vec<Id>,
}

impl<U> ServerState<U> {
    /// The connected clients, in the order they connected.
    pub closed spec fn clients(&self) -> Seq<Id> {
        self.clients@
    }

    /// The messages waiting to be relayed, oldest first.
    pub closed spec fn queue(&self) -> Seq<ServerMessage<U>> {
        self.messages@
    }

    /// The identifier that the next client to connect gets.
    pub closed spec fn next_client(&self) -> int {
        self.next_client_id.next_value()
    }

    /// Clients are listed once each and got identifiers below the next one;
    /// the queue holds no replies.
    #[verifier::type_invariant]
    spec fn wf(self) -> bool {
        parts_ok(self.next_client_id.next_value(), self.messages@, self.clients@)
    }

    /// Takes the state apart, leaving a fresh one in its place.
    fn take_parts(&mut self) -> (parts: (IdGen, Vec<ServerMessage<U>>, Vec<Id>))
        ensures
            parts.0 == old(self).next_client_id,
            parts.1@ == old(self).messages@,
            parts.2@ == old(self).clients@,
            parts_ok(parts.0.next_value(), parts.1@, parts.2@),
    {
        let mut taken = ServerState::new();
        std::mem::swap(self, &mut taken);
        proof {
            use_type_invariant(&taken);
        }
        let ServerState { next_client_id, messages, clients } = taken;
        (next_client_id, messages, clients)
    }

    pub fn new() -> (s: ServerState<U>)
        ensures
            s.clients() == Seq::<Id>::empty(),
            s.queue() == Seq::<ServerMessage<U>>::empty(),
            s.next_client() == 0,
    {
        ServerState { next_client_id: IdGen::new(), messages: Vec::new(), clients: Vec::new() }
    }

    /// The identifier that the next client to connect gets.
    pub fn next_client_id(&self) -> (id: Id)
        ensures
            id.value() == self.next_client(),
    {
        self.next_client_id.peek()
    }

    /// Whether the client is connected.
    pub fn is_connected(&self, client: Id) -> (connected: bool)
        ensures
            connected == self.clients().contains(client),
    {
        let mut i: usize = 0;
        while i < self.clients.len()
            invariant
                0 <= i <= self.clients@.len(),
                forall|a: int| 0 <= a < i ==> self.clients@[a] != client,
            decreases self.clients@.len() - i,
        {
            if self.clients[i] == client {
                return true;
            }
            i = i + 1;
        }
        false
    }

    /// Registers a new client and returns its identifier; the caller sends it
    /// `ServerMessage::ClientId` with that identifier.
    pub fn connect(&mut self) -> (client: Id)
        requires
            old(self).next_client() < i32::MAX,
        ensures
            client.value() == old(self).next_client(),
            !old(self).clients().contains(client),
            final(self).clients() == old(self).clients().push(client),
            final(self).queue() == old(self).queue(),
            final(self).next_client() == old(self).next_client() + 1,
    {
        let (mut ids, messages, mut clients) = self.take_parts();
        let ghost before = clients@;
        let client = ids.gen();
        clients.push(client);
        proof {
            assert forall|a: int| 0 <= a < before.len() implies before[a] != client by {
                assert(before[a].value() < client.value());
            }
            assert(clients@.last() == client);
            assert(clients@.drop_last() == before);
            assert forall|a: int| 0 <= a < clients@.len() implies 0 <= (
            #[trigger] clients@[a]).value() < ids.next_value() by {
                if a < before.len() {
                    assert(clients@[a] == before[a]);
                }
            }
        }
        *self = ServerState { next_client_id: ids, messages, clients };
        client
    }

    /// Forgets a client that went away and queues the despawn of its player.
    pub fn disconnect(&mut self, client: Id)
        ensures
            final(self).clients() == old(self).clients().filter(|c: Id| c != client),
            final(self).queue() == old(self).queue().push(ServerMessage::Despawn(client)),
            final(self).next_client() == old(self).next_client(),
    {
        let (ids, mut messages, mut clients) = self.take_parts();
        messages.push(ServerMessage::Despawn(client));
        let ghost before = clients@;
        let mut i: usize = 0;
        let mut found = false;
        while i < clients.len() && !found
            invariant
                clients@ == before,
                0 <= i <= before.len(),
                found ==> i < before.len() && before[i as int] == client,
                !found ==> forall|a: int| 0 <= a < i ==> before[a] != client,
            decreases before.len() - i, if found { 0int } else { 1int },
        {
            if clients[i] == client {
                found = true;
            } else {
                i = i + 1;
            }
        }
        if found {
            clients.remove(i);
            proof {
                lemma_filter_remove_unique(before, client, i as int);
                assert forall|a: int, b: int| 0 <= a < b < clients@.len() implies clients@[a]
                    != clients@[b] by {
                    let a2 = if a < i { a } else { a + 1 };
                    let b2 = if b < i { b } else { b + 1 };
                    assert(clients@[a] == before[a2]);
                    assert(clients@[b] == before[b2]);
                }
                assert forall|a: int| 0 <= a < clients@.len() implies 0 <= (
                #[trigger] clients@[a]).value() < ids.next_value() by {
                    let a2 = if a < i { a } else { a + 1 };
                    assert(clients@[a] == before[a2]);
                }
            }
        } else {
            proof {
                lemma_filter_absent(before, client);
            }
        }
        proof {
            assert forall|a: int| 0 <= a < messages@.len() implies queueable(
                #[trigger] messages@[a],
            ) by {
                if a < messages@.len() - 1 {
                    assert(messages@[a] == messages@.drop_last()[a]);
                }
            }
        }
        *self = ServerState { next_client_id: ids, messages, clients };
    }

    /// Queues what a client sent for relaying, answers a ping directly, and
    /// then relays everything queued. Returns the direct answer (for `client`)
    /// and the relayed batch.
    pub fn handle(&mut self, client: Id, message: ClientMessage<U>) -> (out: (
        Option<ServerMessage<U>>,
        Broadcast<U>,
    ))
        requires
            old(self).clients().contains(client),
        ensures
            final(self).clients() == old(self).clients(),
            final(self).next_client() == old(self).next_client(),
            final(self).queue() == Seq::<ServerMessage<U>>::empty(),
            out.0 is Some <==> message is Ping,
            out.0 matches Some(reply) ==> reply is Pong,
            out.1.messages@ == match message {
                ClientMessage::Ping => old(self).queue(),
                ClientMessage::Update { guy, update } => old(self).queue().push(
                    ServerMessage::UpdateGuy { guy, update },
                ),
                ClientMessage::Despawn => old(self).queue().push(ServerMessage::Despawn(client)),
                ClientMessage::Emote(emote) => old(self).queue().push(
                    ServerMessage::Emote(client, emote),
                ),
                ClientMessage::ForceReset => old(self).queue().push(ServerMessage::ForceReset),
            },
            out.1.deliveries@ == all_deliveries(old(self).clients(), out.1.messages@),
    {
        let (ids, mut messages, clients) = self.take_parts();
        let reply = match message {
            ClientMessage::ForceReset => {
                messages.push(ServerMessage::ForceReset);
                None
            },
            ClientMessage::Ping => Some(ServerMessage::Pong),
            ClientMessage::Update { guy, update } => {
                messages.push(ServerMessage::UpdateGuy { guy, update });
                None
            },
            ClientMessage::Despawn => {
                messages.push(ServerMessage::Despawn(client));
                None
            },
            ClientMessage::Emote(emote) => {
                messages.push(ServerMessage::Emote(client, emote));
                None
            },
        };
        *self = ServerState { next_client_id: ids, messages, clients };
        let broadcast = self.send_updates();
        (reply, broadcast)
    }

    /// Takes every queued message and says which client gets which: each
    /// connected client, in connection order, gets the queued messages that
    /// are relayed to it, in queue order.
    pub fn send_updates(&mut self) -> (out: Broadcast<U>)
        ensures
            final(self).clients() == old(self).clients(),
            final(self).next_client() == old(self).next_client(),
            final(self).queue() == Seq::<ServerMessage<U>>::empty(),
            out.messages@ == old(self).queue(),
            out.deliveries@ == all_deliveries(old(self).clients(), old(self).queue()),
    {
        proof {
            use_type_invariant(&*self);
        }
        let mut messages: Vec<ServerMessage<U>> = Vec::new();
        std::mem::swap(&mut messages, &mut self.messages);
        let ghost msgs = messages@;
        let ghost clients = self.clients@;
        let mut deliveries: Vec<(Id, usize)> = Vec::new();
        let mut ci: usize = 0;
        while ci < self.clients.len()
            invariant
                messages@ == msgs,
                self.clients@ == clients,
                0 <= ci <= clients.len(),
                deliveries@ == all_deliveries(clients.take(ci as int), msgs),
            decreases clients.len() - ci,
        {
            let client = self.clients[ci];
            let ghost before = deliveries@;
            let mut mi: usize = 0;
            while mi < messages.len()
                invariant
                    messages@ == msgs,
                    self.clients@ == clients,
                    0 <= ci < clients.len(),
                    client == clients[ci as int],
                    0 <= mi <= msgs.len(),
                    before == all_deliveries(clients.take(ci as int), msgs),
                    deliveries@ == before + client_deliveries(client, msgs.take(mi as int)),
                decreases msgs.len() - mi,
            {
                proof {
                    assert(msgs.take(mi + 1).drop_last() == msgs.take(mi as int));
                    assert(msgs.take(mi + 1).last() == msgs[mi as int]);
                }
                let relay = match &messages[mi] {
                    ServerMessage::Pong => false,
                    ServerMessage::ClientId(_) => false,
                    ServerMessage::UpdateGuy { guy, .. } => *guy != client,
                    ServerMessage::Despawn(id) => *id != client,
                    ServerMessage::Emote(..) => true,
                    ServerMessage::ForceReset => true,
                };
                if relay {
                    deliveries.push((client, mi));
                }
                mi = mi + 1;
            }
            proof {
                assert(msgs.take(msgs.len() as int) == msgs);
                assert(clients.take(ci + 1).drop_last() == clients.take(ci as int));
                assert(clients.take(ci + 1).last() == client);
            }
            ci = ci + 1;
        }
        proof {
            assert(clients.take(clients.len() as int) == clients);
        }
        Broadcast { messages, deliveries }
    }
}

/// Shows a player's emote: the emote replaces the one that player showed
/// before, if any, and goes last. `time` is when it was received.
pub fn set_emote<T>(emotes: &mut Vec<(T, Id, usize)>, time: T, id: Id, emote: usize)
    ensures
        final(emotes)@ == old(emotes)@.filter(|e: (T, Id, usize)| e.1 != id).push((time, id, emote)),
{
    let ghost before = emotes@;
    let mut kept: Vec<(T, Id, usize)> = Vec::new();
    while emotes.len() > 0
        invariant
            kept@ + emotes@.filter(|e: (T, Id, usize)| e.1 != id) == before.filter(
                |e: (T, Id, usize)| e.1 != id,
            ),
        decreases emotes@.len(),
    {
        let ghost rest = emotes@;
        let e = emotes.remove(0);
        proof {
            reveal_with_fuel(Seq::filter, 1);
            lemma_filter_front(rest, id);
        }
        if e.1 != id {
            kept.push(e);
            proof {
                assert(kept@ + emotes@.filter(|e: (T, Id, usize)| e.1 != id) == before.filter(
                    |e: (T, Id, usize)| e.1 != id,
                ));
            }
        }
    }
    proof {
        assert(emotes@.filter(|e: (T, Id, usize)| e.1 != id) == Seq::<(T, Id, usize)>::empty());
        assert(kept@ == before.filter(|e: (T, Id, usize)| e.1 != id));
    }
    kept.push((time, id, emote));
    *emotes = kept;
}

/// What a client must do on a message from the relay server, besides
/// keeping its view of the other players.
pub enum ClientAction<U> {
    Nothing,
    /// Put the local player back at the start.
    Respawn,
    /// Ping the server again and, where the local player `mine` is in play,
    /// send its current state.
    Ping { mine: Option<Id> },
    /// Record the update of a remote player (and take over its progress).
    Remote { guy: Id, update: U },
    /// Drop the player's state and its recorded updates.
    Forget(Id),
}

/// What a client keeps of the players: the emotes shown, each with the time
/// it was received; the players in play; the players whose updates are
/// recorded.
pub struct ClientView<T> {
    pub emotes: Vec<(T, Id, usize)>,
    pub players: Vec<Id>,
    pub recorded: Vec<Id>,
}

/// The emotes shown after a message received at `time`.
pub open spec fn emotes_after<T, U>(
    emotes: Seq<(T, Id, usize)>,
    time: T,
    message: ServerMessage<U>,
) -> Seq<(T, Id, usize)> {
    match message {
        ServerMessage::Emote(id, emote) => emotes.filter(|e: (T, Id, usize)| e.1 != id).push(
            (time, id, emote),
        ),
        _ => emotes,
    }
}

/// The players in play after a message: a despawned player leaves.
pub open spec fn players_after<U>(players: Seq<Id>, message: ServerMessage<U>) -> Seq<Id> {
    match message {
        ServerMessage::Despawn(id) => players.filter(|p: Id| p != id),
        _ => players,
    }
}

/// The players with recorded updates after a message: an update starts a
/// record where there is none, a despawn drops the record.
pub open spec fn recorded_after<U>(recorded: Seq<Id>, message: ServerMessage<U>) -> Seq<Id> {
    match message {
        ServerMessage::UpdateGuy { guy, .. } => if recorded.contains(guy) {
            recorded
        } else {
            recorded.push(guy)
        },
        ServerMessage::Despawn(id) => recorded.filter(|p: Id| p != id),
        _ => recorded,
    }
}

/// The client's view as plain values: emotes, players in play, recorded
/// players.
pub open spec fn client_view<T>(view: ClientView<T>) -> (Seq<(T, Id, usize)>, Seq<Id>, Seq<Id>) {
    (view.emotes@, view.players@, view.recorded@)
}

/// The view after the messages, received in order at `time`.
pub open spec fn view_after<T, U>(
    view: (Seq<(T, Id, usize)>, Seq<Id>, Seq<Id>),
    time: T,
    messages: Seq<ServerMessage<U>>,
) -> (Seq<(T, Id, usize)>, Seq<Id>, Seq<Id>)
    decreases messages.len(),
{
    if messages.len() == 0 {
        view
    } else {
        let before = view_after(view, time, messages.drop_last());
        let m = messages.last();
        (emotes_after(before.0, time, m), players_after(before.1, m), recorded_after(before.2, m))
    }
}

/// What a client must do on a message, besides keeping its view; `mine` is
/// the local player, if one is in play.
pub open spec fn client_action<U>(message: ServerMessage<U>, mine: Option<Id>) -> ClientAction<U> {
    match message {
        ServerMessage::ForceReset => ClientAction::Respawn,
        ServerMessage::Pong => ClientAction::Ping { mine },
        ServerMessage::UpdateGuy { guy, update } => ClientAction::Remote { guy, update },
        ServerMessage::Despawn(id) => ClientAction::Forget(id),
        _ => ClientAction::Nothing,
    }
}

/// Takes every `id` out of a list of players.
fn remove_player(players: &mut Vec<Id>, id: Id)
    ensures
        final(players)@ == old(players)@.filter(|p: Id| p != id),
{
    let ghost before = players@;
    let mut kept: Vec<Id> = Vec::new();
    let mut i: usize = 0;
    while i < players.len()
        invariant
            players@ == before,
            0 <= i <= before.len(),
            kept@ == before.take(i as int).filter(|p: Id| p != id),
        decreases before.len() - i,
    {
        proof {
            reveal_with_fuel(Seq::filter, 1);
            assert(before.take(i + 1).drop_last() == before.take(i as int));
        }
        if players[i] != id {
            kept.push(players[i]);
        }
        i = i + 1;
    }
    proof {
        assert(before.take(before.len() as int) == before);
    }
    *players = kept;
}

/// Whether `id` is in the list.
fn has_player(players: &Vec<Id>, id: Id) -> (found: bool)
    ensures
        found == players@.contains(id),
{
    let mut i: usize = 0;
    while i < players.len()
        invariant
            0 <= i <= players@.len(),
            forall|a: int| 0 <= a < i ==> players@[a] != id,
        decreases players@.len() - i,
    {
        if players[i] == id {
            return true;
        }
        i = i + 1;
    }
    false
}

/// A client's reaction to one message from the relay server, received at
/// `time`: the view of the players follows the message, and what else must
/// happen comes back as an action. `mine` is the local player, if one is in
/// play. The server never sends a client its identifier after the
/// connection is made.
pub fn client_step<T, U>(
    view: &mut ClientView<T>,
    time: T,
    message: ServerMessage<U>,
    mine: Option<Id>,
) -> (action: ClientAction<U>)
    requires
        !(message is ClientId),
    ensures
        final(view).emotes@ == emotes_after(old(view).emotes@, time, message),
        final(view).players@ == players_after(old(view).players@, message),
        final(view).recorded@ == recorded_after(old(view).recorded@, message),
        action == client_action(message, mine),
{
    match message {
        ServerMessage::ForceReset => ClientAction::Respawn,
        ServerMessage::Pong => ClientAction::Ping { mine },
        ServerMessage::UpdateGuy { guy, update } => {
            if !has_player(&view.recorded, guy) {
                view.recorded.push(guy);
            }
            ClientAction::Remote { guy, update }
        },
        ServerMessage::Despawn(id) => {
            remove_player(&mut view.players, id);
            remove_player(&mut view.recorded, id);
            ClientAction::Forget(id)
        },
        ServerMessage::ClientId(_) => {
            proof {
                assert(false);
            }
            ClientAction::Nothing
        },
        ServerMessage::Emote(id, emote) => {
            set_emote(&mut view.emotes, time, id, emote);
            ClientAction::Nothing
        },
    }
}

/// A client's reaction to a batch of messages from the relay server, all
/// received at `time`, in order: the view follows each message in turn,
/// and the actions come back in the order of the messages.
pub fn client_steps<T: Copy, U>(
    view: &mut ClientView<T>,
    time: T,
    messages: Vec<ServerMessage<U>>,
    mine: Option<Id>,
) -> (actions: Vec<ClientAction<U>>)
    requires
        forall|k: int| 0 <= k < messages@.len() ==> !(#[trigger] messages@[k] is ClientId),
    ensures
        client_view(*final(view)) == view_after(client_view(*old(view)), time, messages@),
        actions@.len() == messages@.len(),
        forall|k: int| 0 <= k < messages@.len() ==> #[trigger] actions@[k] == client_action(messages@[k], mine),
{
    let ghost start = client_view(*view);
    let ghost all = messages@;
    assert(all.len() == messages.len());
    let mut actions: Vec<ClientAction<U>> = Vec::new();
    let mut rest = messages;
    let mut k: usize = 0;
    while rest.len() > 0
        invariant
            0 <= k <= all.len(),
            all.len() <= usize::MAX,
            rest@ == all.skip(k as int),
            actions@.len() == k,
            forall|j: int| 0 <= j < k ==> #[trigger] actions@[j] == client_action(all[j], mine),
            client_view(*view) == view_after(start, time, all.take(k as int)),
            forall|j: int| 0 <= j < all.len() ==> !(#[trigger] all[j] is ClientId),
        decreases rest@.len(),
    {
        let m = rest.remove(0);
        proof {
            assert(m == all[k as int]);
            assert(all.take(k + 1).drop_last() == all.take(k as int));
            assert(all.take(k + 1).last() == all[k as int]);
            assert(rest@ == all.skip(k + 1));
        }
        let action = client_step(view, time, m, mine);
        actions.push(action);
        k = k + 1;
    }
    proof {
        assert(all.take(k as int) == all);
    }
    actions
}

/// Law: after a player's emote is shown, the list holds that emote last and
/// no other emote of that player, while the other players' emotes stay, in
/// their order.
pub proof fn lemma_one_emote_per_player<T>(
    before: Seq<(T, Id, usize)>,
    time: T,
    id: Id,
    emote: usize,
)
    ensures
        ({
            let after = before.filter(|e: (T, Id, usize)| e.1 != id).push((time, id, emote));
            &&& after.last() == (time, id, emote)
            &&& forall|k: int| 0 <= k < after.len() - 1 ==> (#[trigger] after[k]).1 != id
            &&& forall|e: (T, Id, usize)| e.1 != id ==> (before.contains(e) <==> after.contains(e))
        }),
{
    let pred = |e: (T, Id, usize)| e.1 != id;
    let kept = before.filter(pred);
    let after = kept.push((time, id, emote));
    assert forall|k: int| 0 <= k < after.len() - 1 implies (#[trigger] after[k]).1 != id by {
        assert(after[k] == kept[k]);
        before.lemma_filter_pred(pred, k);
    }
    assert forall|e: (T, Id, usize)| e.1 != id implies (before.contains(e) <==> after.contains(e)) by {
        if before.contains(e) {
            let i = choose|i: int| 0 <= i < before.len() && before[i] == e;
            before.lemma_filter_contains(pred, i);
            let j = choose|j: int| 0 <= j < kept.len() && kept[j] == e;
            assert(after[j] == e);
        }
        if after.contains(e) {
            let j = choose|j: int| 0 <= j < after.len() && after[j] == e;
            assert(kept[j] == e);
            assert(kept.contains(e));
            before.lemma_filter_contains_rev(pred, e);
        }
    }
}

proof fn lemma_filter_front<T>(s: Seq<(T, Id, usize)>, id: Id)
    requires
        s.len() > 0,
    ensures
        s.filter(|e: (T, Id, usize)| e.1 != id) == if s[0].1 != id {
            seq![s[0]] + s.drop_first().filter(|e: (T, Id, usize)| e.1 != id)
        } else {
            s.drop_first().filter(|e: (T, Id, usize)| e.1 != id)
        },
    decreases s.len(),
{
    reveal_with_fuel(Seq::filter, 1);
    if s.len() == 1 {
        assert(s.drop_first() == Seq::<(T, Id, usize)>::empty());
        assert(s.drop_last() == Seq::<(T, Id, usize)>::empty());
    } else {
        lemma_filter_front(s.drop_last(), id);
        assert(s.drop_last().drop_first() == s.drop_first().drop_last());
        assert(s.drop_last()[0] == s[0]);
    }
}

proof fn lemma_client_deliveries<U>(client: Id, messages: Seq<ServerMessage<U>>)
    requires
        messages.len() <= usize::MAX,
    ensures
        forall|d: (Id, usize)|
            client_deliveries(client, messages).contains(d) <==> (d.0 == client && d.1
                < messages.len() && relayed_to(messages[d.1 as int], client)),
    decreases messages.len(),
{
    if messages.len() > 0 {
        let rest = messages.drop_last();
        lemma_client_deliveries(client, rest);
        let before = client_deliveries(client, rest);
        let last = (messages.len() - 1) as usize;
        assert forall|d: (Id, usize)|
            client_deliveries(client, messages).contains(d) <==> (d.0 == client && d.1
                < messages.len() && relayed_to(messages[d.1 as int], client)) by {
            if d.1 < rest.len() {
                assert(rest[d.1 as int] == messages[d.1 as int]);
            }
            if relayed_to(messages.last(), client) {
                let after = before.push((client, last));
                if after.contains(d) && d != (client, last) {
                    let w = choose|w: int| 0 <= w < after.len() && after[w] == d;
                    assert(before[w] == d);
                }
                if before.contains(d) {
                    let w = choose|w: int| 0 <= w < before.len() && before[w] == d;
                    assert(after[w] == d);
                }
                if d == (client, last) {
                    assert(after[before.len() as int] == d);
                }
            }
        }
    }
}

/// Law: one round of relaying delivers a queued message to a client exactly
/// when the client is connected and the message is relayed to it, so no
/// client ever gets its own player's update or despawn, and every other
/// connected client gets each of them.
pub proof fn lemma_deliveries_exact<U>(clients: Seq<Id>, messages: Seq<ServerMessage<U>>)
    requires
        messages.len() <= usize::MAX,
    ensures
        forall|d: (Id, usize)|
            all_deliveries(clients, messages).contains(d) <==> (clients.contains(d.0) && d.1
                < messages.len() && relayed_to(messages[d.1 as int], d.0)),
    decreases clients.len(),
{
    if clients.len() > 0 {
        let rest = clients.drop_last();
        let c = clients.last();
        lemma_deliveries_exact(rest, messages);
        lemma_client_deliveries(c, messages);
        let a = all_deliveries(rest, messages);
        let b = client_deliveries(c, messages);
        assert forall|d: (Id, usize)|
            all_deliveries(clients, messages).contains(d) <==> (clients.contains(d.0) && d.1
                < messages.len() && relayed_to(messages[d.1 as int], d.0)) by {
            let ab = a + b;
            if ab.contains(d) {
                let w = choose|w: int| 0 <= w < ab.len() && ab[w] == d;
                if w < a.len() {
                    assert(a[w] == d);
                    assert(a.contains(d));
                    let x = choose|x: int| 0 <= x < rest.len() && rest[x] == d.0;
                    assert(clients[x] == d.0);
                } else {
                    assert(b[w - a.len()] == d);
                    assert(b.contains(d));
                    assert(clients[clients.len() - 1] == d.0);
                }
            }
            if clients.contains(d.0) && d.1 < messages.len() && relayed_to(
                messages[d.1 as int],
                d.0,
            ) {
                let x = choose|x: int| 0 <= x < clients.len() && clients[x] == d.0;
                if x < clients.len() - 1 {
                    assert(rest[x] == d.0);
                    assert(a.contains(d));
                    let w = choose|w: int| 0 <= w < a.len() && a[w] == d;
                    assert(ab[w] == d);
                } else {
                    assert(b.contains(d));
                    let w = choose|w: int| 0 <= w < b.len() && b[w] == d;
                    assert(ab[a.len() + w] == d);
                }
            }
        }
    }
}

proof fn lemma_filter_absent(s: Seq<Id>, x: Id)
    requires
        forall|a: int| 0 <= a < s.len() ==> s[a] != x,
    ensures
        s.filter(|c: Id| c != x) == s,
    decreases s.len(),
{
    reveal_with_fuel(Seq::filter, 1);
    if s.len() > 0 {
        lemma_filter_absent(s.drop_last(), x);
        assert(s.drop_last().push(s.last()) == s);
    }
}

proof fn lemma_filter_remove_unique(s: Seq<Id>, x: Id, i: int)
    requires
        0 <= i < s.len(),
        s[i] == x,
        forall|a: int, b: int| 0 <= a < b < s.len() ==> s[a] != s[b],
    ensures
        s.filter(|c: Id| c != x) == s.remove(i),
    decreases s.len(),
{
    reveal_with_fuel(Seq::filter, 1);
    if i == s.len() - 1 {
        lemma_filter_absent(s.drop_last(), x);
        assert(s.remove(i) == s.drop_last());
    } else {
        lemma_filter_remove_unique(s.drop_last(), x, i);
        assert(s.drop_last().remove(i).push(s.last()) == s.remove(i));
    }
}


/// Every player shows at most one emote.
pub open spec fn one_emote_each<T>(emotes: Seq<(T, Id, usize)>) -> bool {
    forall|a: int, b: int| 0 <= a < b < emotes.len() ==> emotes[a].1 != emotes[b].1
}

proof fn lemma_filter_one_each<T>(s: Seq<(T, Id, usize)>, id: Id)
    requires
        one_emote_each(s),
    ensures
        one_emote_each(s.filter(|e: (T, Id, usize)| e.1 != id)),
    decreases s.len(),
{
    reveal_with_fuel(Seq::filter, 1);
    if s.len() > 0 {
        let pred = |e: (T, Id, usize)| e.1 != id;
        let pre = s.drop_last();
        assert forall|a: int, b: int| 0 <= a < b < pre.len() implies pre[a].1 != pre[b].1 by {
            assert(pre[a] == s[a] && pre[b] == s[b]);
        }
        lemma_filter_one_each(pre, id);
        let fp = pre.filter(pred);
        let last = s.last();
        if pred(last) {
            assert(s.filter(pred) == fp.push(last));
            assert forall|a: int| 0 <= a < fp.len() implies fp[a].1 != last.1 by {
                assert(fp.contains(fp[a]));
                pre.lemma_filter_contains_rev(pred, fp[a]);
                let i = choose|i: int| 0 <= i < pre.len() && pre[i] == fp[a];
                assert(s[i] == pre[i]);
            }
        } else {
            assert(s.filter(pred) == fp);
        }
    }
}

/// Law: a client's emotes stay one per player through any batch of
/// messages.
pub proof fn lemma_batch_one_emote_each<T, U>(
    view: (Seq<(T, Id, usize)>, Seq<Id>, Seq<Id>),
    time: T,
    messages: Seq<ServerMessage<U>>,
)
    requires
        one_emote_each(view.0),
    ensures
        one_emote_each(view_after(view, time, messages).0),
    decreases messages.len(),
{
    if messages.len() > 0 {
        lemma_batch_one_emote_each(view, time, messages.drop_last());
        let before = view_after(view, time, messages.drop_last()).0;
        if let ServerMessage::Emote(id, emote) = messages.last() {
            let pred = |e: (T, Id, usize)| e.1 != id;
            lemma_filter_one_each(before, id);
            let kept = before.filter(pred);
            assert forall|a: int| 0 <= a < kept.len() implies kept[a].1 != id by {
                before.lemma_filter_pred(pred, a);
            }
            let after = kept.push((time, id, emote));
            assert forall|a: int, b: int| 0 <= a < b < after.len() implies after[a].1
                != after[b].1 by {
                assert(after[a] == kept[a]);
                if b < kept.len() {
                    assert(after[b] == kept[b]);
                }
            }
        }
    }
}

/// Law: after a batch of messages, each player's last emote in the batch
/// is shown, with the time the batch was received.
pub proof fn lemma_batch_last_emote_shown<T, U>(
    view: (Seq<(T, Id, usize)>, Seq<Id>, Seq<Id>),
    time: T,
    messages: Seq<ServerMessage<U>>,
    k: int,
    id: Id,
    emote: usize,
)
    requires
        0 <= k < messages.len(),
        messages[k] == ServerMessage::<U>::Emote(id, emote),
        forall|j: int| k < j < messages.len() ==> !(#[trigger] messages[j] matches ServerMessage::Emote(i, _) && i == id),
    ensures
        view_after(view, time, messages).0.contains((time, id, emote)),
    decreases messages.len(),
{
    let pre = messages.drop_last();
    let before = view_after(view, time, pre).0;
    if k == messages.len() - 1 {
        let kept = before.filter(|e: (T, Id, usize)| e.1 != id);
        assert(kept.push((time, id, emote))[kept.len() as int] == (time, id, emote));
    } else {
        assert forall|j: int| k < j < pre.len() implies !(#[trigger] pre[j] matches ServerMessage::Emote(i, _) && i == id) by {
            assert(pre[j] == messages[j]);
        }
        assert(pre[k] == messages[k]);
        lemma_batch_last_emote_shown(view, time, pre, k, id, emote);
        let m = messages.last();
        assert(!(messages[messages.len() - 1] matches ServerMessage::Emote(i, _) && i == id));
        if let ServerMessage::Emote(other, e2) = m {
            let pred = |e: (T, Id, usize)| e.1 != other;
            let w = choose|w: int| 0 <= w < before.len() && before[w] == (time, id, emote);
            before.lemma_filter_contains(pred, w);
            let kept = before.filter(pred);
            let after = kept.push((time, other, e2));
            let v = choose|v: int| 0 <= v < kept.len() && kept[v] == (time, id, emote);
            assert(after[v] == (time, id, emote));
        }
    }
}

/// Law: a player despawned in a batch, with no update of it later in the
/// batch, is neither in play nor recorded after the batch.
pub proof fn lemma_batch_despawn_forgets<T, U>(
    view: (Seq<(T, Id, usize)>, Seq<Id>, Seq<Id>),
    time: T,
    messages: Seq<ServerMessage<U>>,
    k: int,
    id: Id,
)
    requires
        0 <= k < messages.len(),
        messages[k] == ServerMessage::<U>::Despawn(id),
        forall|j: int| k < j < messages.len() ==> !(#[trigger] messages[j] matches ServerMessage::UpdateGuy { guy, .. } && guy == id),
    ensures
        !view_after(view, time, messages).1.contains(id),
        !view_after(view, time, messages).2.contains(id),
    decreases messages.len(),
{
    let pre = messages.drop_last();
    let before = view_after(view, time, pre);
    let after = view_after(view, time, messages);
    let m = messages.last();
    if k == messages.len() - 1 {
        let pred = |p: Id| p != id;
        if after.1.contains(id) {
            let a = choose|a: int| 0 <= a < after.1.len() && after.1[a] == id;
            before.1.lemma_filter_pred(pred, a);
        }
        if after.2.contains(id) {
            let a = choose|a: int| 0 <= a < after.2.len() && after.2[a] == id;
            before.2.lemma_filter_pred(pred, a);
        }
    } else {
        assert forall|j: int| k < j < pre.len() implies !(#[trigger] pre[j] matches ServerMessage::UpdateGuy { guy, .. } && guy == id) by {
            assert(pre[j] == messages[j]);
        }
        assert(pre[k] == messages[k]);
        lemma_batch_despawn_forgets(view, time, pre, k, id);
        assert(!(messages[messages.len() - 1] matches ServerMessage::UpdateGuy { guy, .. } && guy == id));
        match m {
            ServerMessage::Despawn(other) => {
                let pred = |p: Id| p != other;
                if after.1.contains(id) {
                    before.1.lemma_filter_contains_rev(pred, id);
                }
                if after.2.contains(id) {
                    before.2.lemma_filter_contains_rev(pred, id);
                }
            },
            ServerMessage::UpdateGuy { guy, .. } => {
                if !before.2.contains(guy) {
                    if after.2.contains(id) {
                        let a = choose|a: int| 0 <= a < after.2.len() && after.2[a] == id;
                        if a < before.2.len() {
                            assert(after.2[a] == before.2[a]);
                        }
                    }
                }
            },
            _ => {},
        }
    }
}

} // verus!
