//! A lobby: one game, the players who listen to it, and what each of them
//! is sent when a message comes in.

use vstd::prelude::*;

use crate::client::sync::{apply_events, law_client_mirrors_server};
use crate::game::events::{copy_event, same_event};
use crate::game::cursors::cursor_map;
use crate::game::{play_step, CursorPosition, Game, GameAction, GameEvent, GameInput};
use crate::grid::populate::{can_populate, lemma_can_populate, lemma_can_populate_fits, SafeZone};
use crate::grid::vec_grid::{blank_tile, filled, states_of, VecGrid};
use crate::messages::{GenericClientMessage, GenericServerMessage};
use crate::model::CreateLobbyBody;
use super::auth::User;
use crate::tile::Tile;

verus! {

/// The sending half of a channel of std.
#[verifier::external_type_specification]
#[verifier::external_body]
#[verifier::reject_recursive_types(T)]
pub struct ExSender<T>(std::sync::mpsc::Sender<T>);

/// The receiving half of a channel of std.
#[verifier::external_type_specification]
#[verifier::external_body]
#[verifier::reject_recursive_types(T)]
pub struct ExReceiver<T>(std::sync::mpsc::Receiver<T>);

/// What a lobby is told.
pub enum LobbyMessageContent {
    /// A new player listens, through `listenner`.
    Listen { listenner: std::sync::mpsc::Sender<GenericServerMessage> },
    /// A player sent a message.
    GenericClientMessage(GenericClientMessage),
}

/// A message to a lobby, with the name of the player who sent it.
pub struct LobbyMessage {
    pub author: String,
    pub content: LobbyMessageContent,
}

/// A player's end of a lobby: who the player is, where to send its
/// messages, and where the lobby's answers arrive until they are listened to.
pub struct LobbyHandle {
    pub user: User,
    pub lobby_message_sender: std::sync::mpsc::Sender<LobbyMessage>,
    pub lobby_event_receiver: Option<std::sync::mpsc::Receiver<GenericServerMessage>>,
}

impl LobbyHandle {
    /// A message to the lobby with `content`, sent by this handle's player.
    pub fn lobby_message(&self, content: LobbyMessageContent) -> (r: LobbyMessage)
        ensures
            r.author@ == self.user.name(),
            r.content == content,
    {
        LobbyMessage { author: self.user.username().clone(), content }
    }
}

/// The event `e` once for each of the listeners `0..n`, in that order.
pub open spec fn to_all(e: GameEvent, n: nat) -> Seq<(int, GameEvent)> {
    Seq::new(n, |l: int| (l, e))
}

/// The events `ev`, each sent to every listener of `0..n`: first the
/// oldest event to listener 0, 1, and so on, then the next event.
pub open spec fn deliveries_of(ev: Seq<GameEvent>, n: nat) -> Seq<(int, GameEvent)>
    decreases ev.len(),
{
    if ev.len() == 0 {
        Seq::empty()
    } else {
        deliveries_of(ev.drop_last(), n) + to_all(ev.last(), n)
    }
}

/// The events that the deliveries `d` send to listener `l`, in order.
pub open spec fn messages_for(d: Seq<(int, GameEvent)>, l: int) -> Seq<GameEvent>
    decreases d.len(),
{
    if d.len() == 0 {
        Seq::empty()
    } else if d.last().0 == l {
        messages_for(d.drop_last(), l).push(d.last().1)
    } else {
        messages_for(d.drop_last(), l)
    }
}

/// The messages `out` carry the deliveries `d`: the same listener, and a
/// copy of the same event, at each place.
pub open spec fn delivered(out: Seq<(usize, GenericServerMessage)>, d: Seq<(int, GameEvent)>) -> bool {
    &&& out.len() == d.len()
    &&& forall|i: int|
        0 <= i < out.len() ==> (#[trigger] out[i]).0 == d[i].0 && match out[i].1 {
            GenericServerMessage::GameEvent(e) => same_event(e, d[i].1),
        }
}

/// Deliveries split at any point send a listener the messages of the first
/// part, then those of the second.
pub proof fn lemma_messages_for_add(a: Seq<(int, GameEvent)>, b: Seq<(int, GameEvent)>, l: int)
    ensures
        messages_for(a + b, l) == messages_for(a, l) + messages_for(b, l),
    decreases b.len(),
{
    if b.len() == 0 {
        assert(a + b =~= a);
        assert(messages_for(a, l) + messages_for(b, l) =~= messages_for(a, l));
    } else {
        lemma_messages_for_add(a, b.drop_last(), l);
        assert((a + b).drop_last() =~= a + b.drop_last());
        assert((a + b).last() == b.last());
        if b.last().0 == l {
            assert(messages_for(a, l) + messages_for(b, l) =~= (messages_for(a, l) + messages_for(b.drop_last(), l)).push(b.last().1));
        }
    }
}

/// One event sent to the first `m` listeners reaches listener `l` once if
/// `l` is one of them, and not at all otherwise.
pub proof fn lemma_messages_for_to_all(e: GameEvent, m: nat, l: int)
    ensures
        0 <= l < m ==> messages_for(to_all(e, m), l) == seq![e],
        !(0 <= l < m) ==> messages_for(to_all(e, m), l) == Seq::<GameEvent>::empty(),
    decreases m,
{
    if m > 0 {
        let p = (m - 1) as nat;
        lemma_messages_for_to_all(e, p, l);
        assert(to_all(e, m).drop_last() =~= to_all(e, p));
        assert(to_all(e, m).last() == (p as int, e));
        if l == p {
            assert(messages_for(to_all(e, p), l) == Seq::<GameEvent>::empty());
            assert(Seq::<GameEvent>::empty().push(e) =~= seq![e]);
        }
    } else {
        assert(to_all(e, m) =~= Seq::<(int, GameEvent)>::empty());
    }
}

/// Every listener of a lobby is sent every event of a move, once each and
/// in the order in which they were told; no one else is sent anything.
pub proof fn law_each_listener_gets_every_event(ev: Seq<GameEvent>, n: nat, l: int)
    ensures
        0 <= l < n ==> messages_for(deliveries_of(ev, n), l) == ev,
        !(0 <= l < n) ==> messages_for(deliveries_of(ev, n), l) == Seq::<GameEvent>::empty(),
    decreases ev.len(),
{
    if ev.len() == 0 {
    } else {
        let d = ev.drop_last();
        law_each_listener_gets_every_event(d, n, l);
        lemma_messages_for_add(deliveries_of(d, n), to_all(ev.last(), n), l);
        lemma_messages_for_to_all(ev.last(), n, l);
        if 0 <= l < n {
            assert(d.push(ev.last()) =~= ev);
        } else {
            assert(Seq::<GameEvent>::empty() + Seq::<GameEvent>::empty() =~= Seq::<GameEvent>::empty());
        }
    }
}

/// A listener whose board shows the lobby's grid before a move, and which
/// applies the messages it is sent for the move, shows the lobby's grid
/// after it.
pub proof fn law_listener_mirrors_lobby(
    g0: Seq<Seq<Tile>>,
    p0: bool,
    c0: Map<Seq<char>, CursorPosition>,
    u: Seq<char>,
    action: GameAction,
    g1: Seq<Seq<Tile>>,
    p1: bool,
    c1: Map<Seq<char>, CursorPosition>,
    ev: Seq<GameEvent>,
    n: nat,
    l: int,
)
    requires
        play_step(g0, p0, c0, u, action, g1, p1, c1, ev),
        0 <= l < n,
    ensures
        apply_events(states_of(g0), messages_for(deliveries_of(ev, n), l)) == states_of(g1),
{
    law_each_listener_gets_every_event(ev, n, l);
    law_client_mirrors_server(g0, p0, c0, u, action, g1, p1, c1, ev);
}

/// The listeners of `ls` whose flag in `alive` is set, in order.
pub open spec fn kept<T>(ls: Seq<T>, alive: Seq<bool>) -> Seq<T>
    decreases ls.len(),
{
    if ls.len() == 0 || alive.len() == 0 {
        Seq::empty()
    } else if alive.last() {
        kept(ls.drop_last(), alive.drop_last()).push(ls.last())
    } else {
        kept(ls.drop_last(), alive.drop_last())
    }
}

/// The state of a lobby: its game and the players who listen to it, in
/// the order in which they came.
pub struct LobbyState {
    game: Game,
    listenners: Vec<std::sync::mpsc::Sender<GenericServerMessage>>,
}

impl LobbyState {
    /// The tiles of the game.
    pub closed spec fn rows(&self) -> Seq<Seq<Tile>> {
        self.game.rows()
    }

    /// The bombs of the game have been placed.
    pub closed spec fn populated(&self) -> bool {
        self.game.populated()
    }

    /// The cursor of each player.
    pub closed spec fn cursors(&self) -> Map<Seq<char>, CursorPosition> {
        self.game.cursors()
    }

    /// The listeners, in the order in which they came.
    pub closed spec fn listeners(&self) -> Seq<std::sync::mpsc::Sender<GenericServerMessage>> {
        self.listenners@
    }

    /// What every lobby keeps: a well-formed game with no event left to
    /// hand out, whose grid has room for its bombs until they are placed.
    pub closed spec fn wf(&self) -> bool {
        &&& self.game.wf()
        &&& self.game.events() == Seq::<GameEvent>::empty()
        &&& !self.game.populated() ==> can_populate(self.game.rows())
    }

    /// A lobby without listeners, on a new grid of the size asked for.
    pub fn new(body: CreateLobbyBody) -> (r: Self)
        ensures
            r.wf(),
            r.rows() == filled(body.grid_width as nat, body.grid_height as nat, blank_tile()),
            !r.populated(),
            r.cursors() == Map::<Seq<char>, CursorPosition>::empty(),
            r.listeners() == Seq::<std::sync::mpsc::Sender<GenericServerMessage>>::empty(),
    {
        let grid = VecGrid::<Tile>::new(body.grid_width, body.grid_height);
        proof {
            lemma_can_populate(grid.rows());
        }
        LobbyState { game: Game::new(grid), listenners: Vec::new() }
    }

    /// The listeners, in the order in which they came.
    pub fn listenners(&self) -> (r: &Vec<std::sync::mpsc::Sender<GenericServerMessage>>)
        ensures
            r@ == self.listeners(),
    {
        &self.listenners
    }

    /// Forgets the listeners whose end has gone away: those whose flag in
    /// `alive` is not set. The others keep their order.
    pub fn retain_listeners(&mut self, alive: &Vec<bool>)
        requires
            old(self).wf(),
            alive@.len() == old(self).listeners().len(),
        ensures
            final(self).wf(),
            final(self).listeners() == kept(old(self).listeners(), alive@),
            final(self).rows() == old(self).rows(),
            final(self).populated() == old(self).populated(),
            final(self).cursors() == old(self).cursors(),
    {
        let mut old_listeners: Vec<std::sync::mpsc::Sender<GenericServerMessage>> = Vec::new();
        std::mem::swap(&mut old_listeners, &mut self.listenners);
        let ghost ls = old_listeners@;
        let mut rest: Vec<std::sync::mpsc::Sender<GenericServerMessage>> = Vec::new();
        let mut i: usize = 0;
        let n = old_listeners.len();
        assert(ls.take(0) =~= Seq::<std::sync::mpsc::Sender<GenericServerMessage>>::empty());
        while i < n
            invariant
                n == ls.len(),
                alive@.len() == n,
                i <= n,
                old_listeners@ == ls.skip(i as int),
                rest@ == kept(ls.take(i as int), alive@.take(i as int)),
            decreases n - i,
        {
            let listener = old_listeners.remove(0);
            proof {
                assert(ls.take(i as int + 1).drop_last() =~= ls.take(i as int));
                assert(alive@.take(i as int + 1).drop_last() =~= alive@.take(i as int));
                assert(ls.skip(i as int).drop_first() =~= ls.skip(i as int + 1));
            }
            if alive[i] {
                rest.push(listener);
            }
            i = i + 1;
        }
        assert(ls.take(n as int) =~= ls);
        assert(alive@.take(n as int) =~= alive@);
        self.listenners = rest;
    }

    /// Handles one message and says what to send to whom, by the place of
    /// the listener: a new listener is sent the whole board and joins; a
    /// move is played and each of its events goes to every listener.
    pub fn handle(&mut self, message: LobbyMessage) -> (r: Vec<(usize, GenericServerMessage)>)
        requires
            old(self).wf(),
        ensures
            final(self).wf(),
            match message.content {
                LobbyMessageContent::Listen { listenner } => {
                    &&& final(self).listeners() == old(self).listeners().push(listenner)
                    &&& final(self).rows() == old(self).rows()
                    &&& final(self).populated() == old(self).populated()
                    &&& final(self).cursors() == old(self).cursors()
                    &&& r@.len() == 1
                    &&& r@[0].0 == old(self).listeners().len()
                    &&& r@[0].1 matches GenericServerMessage::GameEvent(GameEvent::GameStart { grid, cursors })
                        && grid.rows() == states_of(old(self).rows())
                        && cursor_map(cursors@) == old(self).cursors()
                },
                LobbyMessageContent::GenericClientMessage(GenericClientMessage::GameAction(action)) => {
                    &&& final(self).listeners() == old(self).listeners()
                    &&& exists|ev: Seq<GameEvent>|
                        play_step(
                            old(self).rows(),
                            old(self).populated(),
                            old(self).cursors(),
                            message.author@,
                            action,
                            final(self).rows(),
                            final(self).populated(),
                            final(self).cursors(),
                            ev,
                        ) && delivered(r@, deliveries_of(ev, old(self).listeners().len()))
                },
            },
    {
        match message.content {
            LobbyMessageContent::Listen { listenner } => {
                let index = self.listenners.len();
                let start = self.game.get_start_event();
                let mut r: Vec<(usize, GenericServerMessage)> = Vec::new();
                r.push((index, GenericServerMessage::GameEvent(start)));
                self.listenners.push(listenner);
                r
            },
            LobbyMessageContent::GenericClientMessage(GenericClientMessage::GameAction(action)) => {
                let ghost n = self.listenners@.len();
                let ghost u = message.author@;
                proof {
                    if let GameAction::Discover { x, y } = action {
                        if !self.game.populated() {
                            lemma_can_populate_fits(SafeZone::Square, self.game.rows(), x as int, y as int);
                        }
                    }
                }
                self.game.play(GameInput { username: message.author, action });
                let ghost ev = choose|ev: Seq<GameEvent>|
                    play_step(
                        old(self).rows(),
                        old(self).populated(),
                        old(self).cursors(),
                        u,
                        action,
                        self.rows(),
                        self.populated(),
                        self.cursors(),
                        ev,
                    ) && self.game.events() == Seq::<GameEvent>::empty() + ev;
                let events = self.game.buffered_events();
                assert(events@ =~= ev);
                let count = self.listenners.len();
                let mut r: Vec<(usize, GenericServerMessage)> = Vec::new();
                let mut k: usize = 0;
                while k < events.len()
                    invariant
                        k <= events@.len(),
                        count == n,
                        delivered(r@, deliveries_of(events@.take(k as int), n)),
                    decreases events@.len() - k,
                {
                    let ghost before = deliveries_of(events@.take(k as int), n);
                    let mut l: usize = 0;
                    while l < count
                        invariant
                            k < events@.len(),
                            l <= count,
                            count == n,
                            delivered(r@, before + to_all(events@[k as int], l as nat)),
                        decreases count - l,
                    {
                        let ghost r0 = r@;
                        r.push((l, GenericServerMessage::GameEvent(copy_event(&events[k]))));
                        proof {
                            let d = before + to_all(events@[k as int], (l + 1) as nat);
                            assert(d =~= (before + to_all(events@[k as int], l as nat)).push((l as int, events@[k as int])));
                            assert forall|i: int| 0 <= i < r@.len() implies (#[trigger] r@[i]).0 == d[i].0 && match r@[i].1 {
                                GenericServerMessage::GameEvent(e) => same_event(e, d[i].1),
                            } by {
                                if i < r0.len() {
                                    assert(r@[i] == r0[i]);
                                }
                            }
                        }
                        l = l + 1;
                    }
                    proof {
                        let t = events@.take(k as int + 1);
                        assert(t.drop_last() =~= events@.take(k as int));
                        assert(t.last() == events@[k as int]);
                    }
                    k = k + 1;
                }
                assert(events@.take(events@.len() as int) =~= events@);
                assert(play_step(old(self).rows(), old(self).populated(), old(self).cursors(), u, action,
                    self.rows(), self.populated(), self.cursors(), ev));
                r
            },
        }
    }
}

} // verus!
