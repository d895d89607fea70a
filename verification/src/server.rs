//! The session server: a detached process that owns a pty and outlives every terminal window that
//! attaches to it.
//!
//! The server keeps a terminal model fed with everything the pty emits. That model is the reason
//! reattach works at all; see [`crate::terminal`].

use std::collections::VecDeque;

use vstd::prelude::*;

use crate::console::Size;
use crate::protocol;
use crate::protocol::{ClientMsg, ReadError, ServerMsg};
use crate::session;
use crate::session::NameError;
use crate::terminal;
use crate::terminal::Terminal;
use crate::text;

verus! {

/// Read chunk for pty output.
pub const PTY_CHUNK: usize = 8192;

/// How many messages may be queued for a client before it is considered stuck.
///
/// A client that cannot keep up is dropped rather than allowed to stall the session. Writing
/// straight to the pipe from the pty pump would block once the pipe buffer filled, freezing output
/// for *every* client.
pub const OUTBOUND_QUEUE: usize = 1024;

/// How far a client has come.
#[derive(Debug, Clone, Copy, PartialEq, Eq, Structural)]
pub enum Stage {
    /// The screen is on its way to the client. It is registered only when the screen is out, and
    /// collects the output meanwhile.
    Joining,
    /// The client is attached.
    Open,
    /// The client is attached, but nobody writes its messages any more.
    Broken,
}

/// A client as the session sees it.
#[verifier::ext_equal]
pub struct ClientState {
    /// Tells the clients of a session apart.
    pub id: u64,
    /// The messages that wait to be written, the oldest first.
    pub queue: Seq<protocol::ServerMessage>,
    /// How far the client has come.
    pub stage: Stage,
}

/// A client.
///
/// Each client owns a bounded queue that is drained by its own writer. Blocking there only ever
/// affects the client that is not reading.
#[derive(Debug)]
struct Client {
    id: u64,
    queue: VecDeque<ServerMsg>,
    stage: Stage,
}

impl Client {
    spec fn state(self) -> ClientState {
        ClientState {
            id: self.id,
            queue: Seq::new(self.queue@.len(), |i: int| self.queue@[i]@),
            stage: self.stage,
        }
    }
}

spec fn states(clients: Seq<Client>) -> Seq<ClientState> {
    Seq::new(clients.len(), |i: int| clients[i].state())
}

/// Whether a client takes one more message.
pub open spec fn takes(client: ClientState) -> bool {
    client.stage != Stage::Broken && client.queue.len() < OUTBOUND_QUEUE
}

/// Whether a message is for a client: all are for one that is attached, and for one that is not
/// yet, the output that comes behind its screen.
pub open spec fn hears(client: ClientState, msg: protocol::ServerMessage) -> bool {
    client.stage != Stage::Joining || msg is Output
}

/// A client with one more message in its queue.
pub open spec fn queued(client: ClientState, msg: protocol::ServerMessage) -> ClientState {
    ClientState { queue: client.queue.push(msg), ..client }
}

/// The clients behind a message: those that it reaches, with the message in their queues, and
/// those that it is not for.
pub open spec fn reached(clients: Seq<ClientState>, msg: protocol::ServerMessage) -> Seq<
    ClientState,
>
    decreases clients.len(),
{
    if clients.len() == 0 {
        Seq::empty()
    } else if !hears(clients.last(), msg) {
        reached(clients.drop_last(), msg).push(clients.last())
    } else if takes(clients.last()) {
        reached(clients.drop_last(), msg).push(queued(clients.last(), msg))
    } else {
        reached(clients.drop_last(), msg)
    }
}

/// The attached clients that a message does not reach because their queue is full. What is in the
/// queue is still theirs.
pub open spec fn stuck(clients: Seq<ClientState>) -> Seq<ClientState>
    decreases clients.len(),
{
    if clients.len() == 0 {
        Seq::empty()
    } else if clients.last().stage == Stage::Open && !takes(clients.last()) {
        stuck(clients.drop_last()).push(clients.last())
    } else {
        stuck(clients.drop_last())
    }
}

/// Queues a message for every client that it is for and that takes it. A client that does not take
/// it is dropped.
fn reach(clients: &mut Vec<Client>, leaving: &mut Vec<Client>, msg: &ServerMsg)
    ensures
        states(final(clients)@) == reached(states(old(clients)@), msg@),
        states(final(leaving)@) == states(old(leaving)@) + stuck(states(old(clients)@)),
{
    let ghost all = states(clients@);
    let ghost before = states(leaving@);
    let ghost mut k: int = 0;
    let is_output: bool = matches!(msg, ServerMsg::Output(_));
    let mut i: usize = 0;
    proof {
        assert(all.take(0) == Seq::<ClientState>::empty());
        assert(all.skip(0) == all);
        assert(Seq::<ClientState>::empty() + all == all);
        assert(before + Seq::<ClientState>::empty() == before);
    }
    while i < clients.len()
        invariant
            is_output == (msg@ is Output),
            0 <= k <= all.len(),
            i == reached(all.take(k), msg@).len(),
            states(clients@) == reached(all.take(k), msg@) + all.skip(k),
            states(leaving@) == before + stuck(all.take(k)),
        decreases clients.len() - i,
    {
        proof {
            assert(states(clients@).len() == clients@.len());
            assert(k < all.len());
            assert(states(clients@)[i as int] == all[k]);
            assert(all.take(k + 1).drop_last() == all.take(k));
            assert(all.take(k + 1).last() == all[k]);
            assert(clients@[i as int].queue@.len() == all[k].queue.len());
        }
        let ghost now = states(clients@);
        let ghost kept = reached(all.take(k), msg@);
        let joining: bool = clients[i].stage == Stage::Joining;
        let broken: bool = clients[i].stage == Stage::Broken;
        if joining && !is_output {
            proof {
                assert(states(clients@) == kept.push(all[k]) + all.skip(k + 1));
            }
            i += 1;
        } else if !broken && clients[i].queue.len() < OUTBOUND_QUEUE {
            let copy: ServerMsg = msg.copy();
            clients[i].queue.push_back(copy);
            proof {
                assert(clients@[i as int].state() == queued(all[k], msg@));
                assert(states(clients@) == now.update(i as int, queued(all[k], msg@)));
                assert(states(clients@) == kept.push(queued(all[k], msg@)) + all.skip(k + 1));
            }
            i += 1;
        } else {
            let client: Client = clients.remove(i);
            let ghost gone = states(leaving@);
            proof {
                assert(states(clients@) == now.remove(i as int));
                assert(states(clients@) == kept + all.skip(k + 1));
                assert(client.state() == all[k]);
            }
            if client.stage == Stage::Open {
                leaving.push(client);
                proof {
                    assert(states(leaving@) == gone.push(all[k]));
                    assert(states(leaving@) == before + stuck(all.take(k + 1)));
                }
            }
        }
        proof {
            k = k + 1;
        }
    }
    proof {
        assert(all.skip(k).len() == 0);
        assert(all.take(k) == all);
        assert(reached(all, msg@) + all.skip(k) == reached(all, msg@));
    }
}

/// The clients other than the one with this id.
pub open spec fn others(clients: Seq<ClientState>, id: u64) -> Seq<ClientState>
    decreases clients.len(),
{
    if clients.len() == 0 {
        Seq::empty()
    } else if clients.last().id != id {
        others(clients.drop_last(), id).push(clients.last())
    } else {
        others(clients.drop_last(), id)
    }
}

/// The client with this id, if it is attached and somebody still writes its messages.
pub open spec fn parting(clients: Seq<ClientState>, id: u64) -> Seq<ClientState>
    decreases clients.len(),
{
    if clients.len() == 0 {
        Seq::empty()
    } else if clients.last().id == id && clients.last().stage == Stage::Open {
        parting(clients.drop_last(), id).push(clients.last())
    } else {
        parting(clients.drop_last(), id)
    }
}

/// Drops the client with this id. Where it was attached, what is in its queue is still its own.
fn part(clients: &mut Vec<Client>, leaving: &mut Vec<Client>, id: u64)
    ensures
        states(final(clients)@) == others(states(old(clients)@), id),
        states(final(leaving)@) == states(old(leaving)@) + parting(states(old(clients)@), id),
{
    let ghost all = states(clients@);
    let ghost before = states(leaving@);
    let ghost mut k: int = 0;
    let mut i: usize = 0;
    proof {
        assert(all.take(0) == Seq::<ClientState>::empty());
        assert(all.skip(0) == all);
        assert(Seq::<ClientState>::empty() + all == all);
        assert(before + Seq::<ClientState>::empty() == before);
    }
    while i < clients.len()
        invariant
            0 <= k <= all.len(),
            i == others(all.take(k), id).len(),
            states(clients@) == others(all.take(k), id) + all.skip(k),
            states(leaving@) == before + parting(all.take(k), id),
        decreases clients.len() - i,
    {
        proof {
            assert(states(clients@).len() == clients@.len());
            assert(k < all.len());
            assert(states(clients@)[i as int] == all[k]);
            assert(all.take(k + 1).drop_last() == all.take(k));
            assert(all.take(k + 1).last() == all[k]);
        }
        let ghost now = states(clients@);
        let ghost kept = others(all.take(k), id);
        if clients[i].id != id {
            proof {
                assert(states(clients@) == kept.push(all[k]) + all.skip(k + 1));
            }
            i += 1;
        } else {
            let client: Client = clients.remove(i);
            let ghost gone = states(leaving@);
            proof {
                assert(states(clients@) == now.remove(i as int));
                assert(states(clients@) == kept + all.skip(k + 1));
                assert(client.state() == all[k]);
            }
            if client.stage == Stage::Open {
                leaving.push(client);
                proof {
                    assert(states(leaving@) == gone.push(all[k]));
                    assert(states(leaving@) == before + parting(all.take(k + 1), id));
                }
            }
        }
        proof {
            k = k + 1;
        }
    }
    proof {
        assert(all.skip(k).len() == 0);
        assert(all.take(k) == all);
        assert(others(all, id) + all.skip(k) == others(all, id));
    }
}

/// The attached clients whose messages somebody still writes.
pub open spec fn open_ones(clients: Seq<ClientState>) -> Seq<ClientState>
    decreases clients.len(),
{
    if clients.len() == 0 {
        Seq::empty()
    } else if clients.last().stage == Stage::Open {
        open_ones(clients.drop_last()).push(clients.last())
    } else {
        open_ones(clients.drop_last())
    }
}

/// The clients that are not attached yet.
pub open spec fn joining_ones(clients: Seq<ClientState>) -> Seq<ClientState>
    decreases clients.len(),
{
    if clients.len() == 0 {
        Seq::empty()
    } else if clients.last().stage == Stage::Joining {
        joining_ones(clients.drop_last()).push(clients.last())
    } else {
        joining_ones(clients.drop_last())
    }
}

/// How many clients are attached.
pub open spec fn attached_count(clients: Seq<ClientState>) -> nat
    decreases clients.len(),
{
    if clients.len() == 0 {
        0
    } else if clients.last().stage == Stage::Joining {
        attached_count(clients.drop_last())
    } else {
        attached_count(clients.drop_last()) + 1
    }
}

/// Drops every attached client. What is in their queues is still their own.
fn part_all(clients: &mut Vec<Client>, leaving: &mut Vec<Client>)
    ensures
        states(final(clients)@) == joining_ones(states(old(clients)@)),
        states(final(leaving)@) == states(old(leaving)@) + open_ones(states(old(clients)@)),
{
    let ghost all = states(clients@);
    let ghost before = states(leaving@);
    let ghost mut k: int = 0;
    let mut i: usize = 0;
    proof {
        assert(all.take(0) == Seq::<ClientState>::empty());
        assert(all.skip(0) == all);
        assert(Seq::<ClientState>::empty() + all == all);
        assert(before + Seq::<ClientState>::empty() == before);
    }
    while i < clients.len()
        invariant
            0 <= k <= all.len(),
            i == joining_ones(all.take(k)).len(),
            states(clients@) == joining_ones(all.take(k)) + all.skip(k),
            states(leaving@) == before + open_ones(all.take(k)),
        decreases clients.len() - i,
    {
        proof {
            assert(states(clients@).len() == clients@.len());
            assert(k < all.len());
            assert(states(clients@)[i as int] == all[k]);
            assert(all.take(k + 1).drop_last() == all.take(k));
            assert(all.take(k + 1).last() == all[k]);
        }
        let ghost now = states(clients@);
        let ghost kept = joining_ones(all.take(k));
        if clients[i].stage == Stage::Joining {
            proof {
                assert(states(clients@) == kept.push(all[k]) + all.skip(k + 1));
            }
            i += 1;
        } else {
            let client: Client = clients.remove(i);
            let ghost gone = states(leaving@);
            proof {
                assert(states(clients@) == now.remove(i as int));
                assert(states(clients@) == kept + all.skip(k + 1));
                assert(client.state() == all[k]);
            }
            if client.stage == Stage::Open {
                leaving.push(client);
                proof {
                    assert(states(leaving@) == gone.push(all[k]));
                    assert(states(leaving@) == before + open_ones(all.take(k + 1)));
                }
            }
        }
        proof {
            k = k + 1;
        }
    }
    proof {
        assert(all.skip(k).len() == 0);
        assert(all.take(k) == all);
        assert(joining_ones(all) + all.skip(k) == joining_ones(all));
    }
}

/// Where the client with this id stands, counted from `i`.
pub open spec fn position(clients: Seq<ClientState>, id: u64, i: int) -> Option<int>
    decreases clients.len() - i,
{
    if i >= clients.len() {
        None
    } else if clients[i].id == id {
        Some(i)
    } else {
        position(clients, id, i + 1)
    }
}

/// Finds the client with this id.
fn find(clients: &Vec<Client>, id: u64) -> (found: Option<usize>)
    ensures
        match position(states(clients@), id, 0) {
            Some(i) => found == Some(i as usize) && 0 <= i < clients.len()
                && states(clients@)[i].id == id,
            None => found is None,
        },
{
    let ghost all = states(clients@);
    let mut i: usize = 0;
    while i < clients.len()
        invariant
            i <= clients.len(),
            all == states(clients@),
            position(all, id, 0) == position(all, id, i as int),
        decreases clients.len() - i,
    {
        assert(all[i as int].id == clients[i as int].id);
        if clients[i].id == id {
            return Some(i);
        }
        i += 1;
    }
    None
}

/// A client that has got the first message in its queue.
pub open spec fn served_once(client: ClientState) -> ClientState {
    ClientState { queue: client.queue.drop_first(), ..client }
}

impl Client {
    /// Takes the first message in the queue.
    fn take_first(&mut self) -> (msg: Option<ServerMsg>)
        ensures
            old(self).state().queue.len() == 0 ==> msg is None && final(self).state() == old(
                self,
            ).state(),
            old(self).state().queue.len() > 0 ==> (msg matches Some(m) && m@
                == old(self).state().queue[0]) && final(self).state() == served_once(
                old(self).state(),
            ),
    {
        let ghost before = self.state();
        let msg: Option<ServerMsg> = self.queue.pop_front();
        proof {
            if msg is Some {
                assert(self.state() == served_once(before));
            } else {
                assert(self.state() == before);
            }
        }
        msg
    }
}

/// A session as a whole.
#[verifier::ext_equal]
pub struct SessionState {
    /// What the terminal model was fed.
    pub history: Seq<(u16, u16, Seq<u8>)>,
    /// The clients, in the order in which they came: those that are attached, and those that the
    /// screen is on its way to.
    pub clients: Seq<ClientState>,
    /// Clients that are attached no longer but have messages to get.
    pub leaving: Seq<ClientState>,
    /// What runs in the session.
    pub command: Seq<char>,
    /// The size of the terminal.
    pub size: Size,
    /// The id of the next client.
    pub next_id: u64,
}

/// Whether all ids are smaller than `bound`.
pub open spec fn ids_below(clients: Seq<ClientState>, bound: u64) -> bool {
    forall|i: int| 0 <= i < clients.len() ==> (#[trigger] clients[i]).id < bound
}

/// Whether the ids grow, so that none occurs twice.
pub open spec fn ids_grow(clients: Seq<ClientState>) -> bool {
    forall|i: int, j: int|
        0 <= i < j < clients.len() ==> (#[trigger] clients[i]).id < (#[trigger] clients[j]).id
}

impl SessionState {
    /// What holds of every session: its terminal has the size that the session has, at least one
    /// cell each way; no two clients have the same id, and no client will get that of another.
    pub open spec fn valid(self) -> bool {
        &&& self.history.len() > 0
        &&& self.history.last().0 == self.size.rows
        &&& self.history.last().1 == self.size.cols
        &&& self.size.cols >= 1
        &&& self.size.rows >= 1
        &&& ids_grow(self.clients)
        &&& ids_below(self.clients, self.next_id)
        &&& ids_below(self.leaving, self.next_id)
    }

    /// The session after a message was queued for every client that it is for. A client whose queue
    /// is full, or whose messages nobody writes any more, is dropped.
    pub open spec fn told(self, msg: protocol::ServerMessage) -> SessionState {
        SessionState {
            clients: reached(self.clients, msg),
            leaving: self.leaving + stuck(self.clients),
            ..self
        }
    }

    /// The session after output of the pty. Where the terminal model does not take all of it, the
    /// model keeps what it took, and the clients get nothing.
    pub open spec fn with_output(self, bytes: Seq<u8>) -> SessionState {
        if terminal::takes_all(self.history, bytes) {
            SessionState { history: terminal::fed(self.history, bytes), ..self }.told(
                protocol::ServerMessage::Output(bytes),
            )
        } else {
            SessionState {
                history: terminal::fed(
                    self.history,
                    bytes.take(terminal::taken(self.history, bytes) as int),
                ),
                ..self
            }
        }
    }

    /// The session with another size.
    pub open spec fn with_size(self, size: Size) -> SessionState {
        let c = size.clamped();
        if c == self.size {
            self
        } else {
            SessionState {
                size: c,
                history: terminal::resized(self.history, c.rows, c.cols),
                ..self
            }
        }
    }

    /// The session with one more client, which is to get the screen first.
    pub open spec fn with_client(self) -> SessionState {
        SessionState {
            clients: self.clients.push(
                ClientState { id: self.next_id, queue: Seq::empty(), stage: Stage::Joining },
            ),
            next_id: (self.next_id + 1) as u64,
            ..self
        }
    }

    /// Whether the screen is on its way to the client with this id.
    pub open spec fn joining(self, id: u64) -> bool {
        position(self.clients, id, 0) matches Some(i) && self.clients[i].stage == Stage::Joining
    }

    /// The session when the client with this id has got its screen.
    pub open spec fn joined(self, id: u64) -> SessionState {
        match position(self.clients, id, 0) {
            Some(i) if self.clients[i].stage == Stage::Joining => SessionState {
                clients: self.clients.update(
                    i,
                    ClientState { stage: Stage::Open, ..self.clients[i] },
                ),
                ..self
            },
            _ => self,
        }
    }

    /// The session without the client that has this id.
    pub open spec fn without(self, id: u64) -> SessionState {
        SessionState {
            clients: others(self.clients, id),
            leaving: self.leaving + parting(self.clients, id),
            ..self
        }
    }

    /// The session without those that are attached.
    pub open spec fn alone(self) -> SessionState {
        SessionState {
            clients: joining_ones(self.clients),
            leaving: self.leaving + open_ones(self.clients),
            ..self
        }
    }
}

/// Dropping clients that are not reached keeps the ids below a bound, and growing.
proof fn lemma_reached_ids(clients: Seq<ClientState>, msg: protocol::ServerMessage, bound: u64)
    requires
        ids_below(clients, bound),
    ensures
        ids_below(reached(clients, msg), bound),
        ids_below(stuck(clients), bound),
        ids_grow(clients) ==> ids_grow(reached(clients, msg)),
    decreases clients.len(),
{
    if clients.len() > 0 {
        let front = clients.drop_last();
        assert forall|i: int| 0 <= i < front.len() implies (#[trigger] front[i]).id < bound by {
            assert(clients[i].id < bound);
        }
        lemma_reached_ids(front, msg, bound);
        assert(clients[clients.len() - 1].id < bound);
        if ids_grow(clients) {
            assert forall|i: int, j: int| 0 <= i < j < front.len() implies (#[trigger] front[i]).id
                < (#[trigger] front[j]).id by {
                assert(clients[i].id < clients[j].id);
            }
            assert forall|i: int| 0 <= i < front.len() implies (#[trigger] front[i]).id
                < clients.last().id by {
                assert(clients[i].id < clients[clients.len() - 1].id);
            }
            lemma_reached_ids(front, msg, clients.last().id);
        }
    }
}

/// Dropping one client keeps the ids below a bound, and growing.
proof fn lemma_others_ids(clients: Seq<ClientState>, id: u64, bound: u64)
    requires
        ids_below(clients, bound),
    ensures
        ids_below(others(clients, id), bound),
        ids_below(parting(clients, id), bound),
        ids_grow(clients) ==> ids_grow(others(clients, id)),
    decreases clients.len(),
{
    if clients.len() > 0 {
        let front = clients.drop_last();
        assert forall|i: int| 0 <= i < front.len() implies (#[trigger] front[i]).id < bound by {
            assert(clients[i].id < bound);
        }
        lemma_others_ids(front, id, bound);
        assert(clients[clients.len() - 1].id < bound);
        if ids_grow(clients) {
            assert forall|i: int, j: int| 0 <= i < j < front.len() implies (#[trigger] front[i]).id
                < (#[trigger] front[j]).id by {
                assert(clients[i].id < clients[j].id);
            }
            assert forall|i: int| 0 <= i < front.len() implies (#[trigger] front[i]).id
                < clients.last().id by {
                assert(clients[i].id < clients[clients.len() - 1].id);
            }
            lemma_others_ids(front, id, clients.last().id);
        }
    }
}

/// Dropping those that are attached keeps the ids below a bound, and growing.
proof fn lemma_joining_ids(clients: Seq<ClientState>, bound: u64)
    requires
        ids_below(clients, bound),
    ensures
        ids_below(open_ones(clients), bound),
        ids_below(joining_ones(clients), bound),
        ids_grow(clients) ==> ids_grow(joining_ones(clients)),
    decreases clients.len(),
{
    if clients.len() > 0 {
        let front = clients.drop_last();
        assert forall|i: int| 0 <= i < front.len() implies (#[trigger] front[i]).id < bound by {
            assert(clients[i].id < bound);
        }
        lemma_joining_ids(front, bound);
        assert(clients[clients.len() - 1].id < bound);
        if ids_grow(clients) {
            assert forall|i: int, j: int| 0 <= i < j < front.len() implies (#[trigger] front[i]).id
                < (#[trigger] front[j]).id by {
                assert(clients[i].id < clients[j].id);
            }
            assert forall|i: int| 0 <= i < front.len() implies (#[trigger] front[i]).id
                < clients.last().id by {
                assert(clients[i].id < clients[clients.len() - 1].id);
            }
            lemma_joining_ids(front, clients.last().id);
        }
    }
}

/// Two rows of ids below a bound make one.
proof fn lemma_ids_below_joined(a: Seq<ClientState>, b: Seq<ClientState>, bound: u64)
    requires
        ids_below(a, bound),
        ids_below(b, bound),
    ensures
        ids_below(a + b, bound),
{
    assert forall|i: int| 0 <= i < (a + b).len() implies (#[trigger] (a + b)[i]).id < bound by {
        if i < a.len() {
            assert(a[i].id < bound);
        } else {
            assert(b[i - a.len()].id < bound);
        }
    }
}

/// A message to all keeps a session valid.
proof fn lemma_told_valid(state: SessionState, msg: protocol::ServerMessage)
    requires
        state.valid(),
    ensures
        state.told(msg).valid(),
{
    lemma_reached_ids(state.clients, msg, state.next_id);
    lemma_ids_below_joined(state.leaving, stuck(state.clients), state.next_id);
}

/// A session: the terminal model, and the clients that look at it.
pub struct Session {
    screen: Terminal,
    clients: Vec<Client>,
    leaving: Vec<Client>,
    command: String,
    size: Size,
    next_client_id: u64,
}

impl View for Session {
    type V = SessionState;

    closed spec fn view(&self) -> SessionState {
        SessionState {
            history: self.screen.history(),
            clients: states(self.clients@),
            leaving: states(self.leaving@),
            command: self.command@,
            size: self.size,
            next_id: self.next_client_id,
        }
    }
}

impl Session {
    /// What holds of every session.
    pub closed spec fn wf(&self) -> bool {
        self.screen.wf() && self@.valid()
    }

    /// A session that is well-formed has a valid state.
    pub proof fn lemma_wf(session: Session)
        requires
            session.wf(),
        ensures
            session@.valid(),
    {
    }

    /// A session that runs `command`, without clients.
    pub fn new(command: &Vec<String>, size: Size) -> (session: Session)
        ensures
            session.wf(),
            ({
                let c = size.clamped();
                session@ == (SessionState {
                    history: seq![(c.rows, c.cols, Seq::<u8>::empty())],
                    clients: Seq::empty(),
                    leaving: Seq::empty(),
                    command: text::joined(text::texts(command@), " "@),
                    size: c,
                    next_id: 1,
                })
            }),
    {
        let size: Size = size.sanitized();
        let session: Session = Session {
            screen: Terminal::new(size.rows, size.cols),
            clients: Vec::new(),
            leaving: Vec::new(),
            command: text::join(command, " "),
            size,
            next_client_id: 1,
        };
        assert(session@.clients == Seq::<ClientState>::empty());
        assert(session@.leaving == Seq::<ClientState>::empty());
        session
    }

    /// Queues a message for every attached client.
    ///
    /// Never blocks. A client that fills its queue is dropped, because one unresponsive terminal
    /// must not be able to freeze the session.
    pub fn broadcast(&mut self, msg: &ServerMsg)
        requires
            old(self).wf(),
        ensures
            final(self).wf(),
            final(self)@ == old(self)@.told(msg@),
    {
        proof {
            lemma_told_valid(self@, msg@);
        }
        reach(&mut self.clients, &mut self.leaving, msg);
        assert(self@ == old(self)@.told(msg@));
    }

    /// Takes in output of the pty: into the model, and out to the clients.
    ///
    /// The model comes first, so that a client attaching right behind it cannot observe a screen
    /// that is behind the live stream.
    ///
    /// Returns whether the model took all of it. Where it did not, nothing goes out.
    pub fn output(&mut self, chunk: &[u8]) -> (whole: bool)
        requires
            old(self).wf(),
        ensures
            final(self).wf(),
            final(self)@ == old(self)@.with_output(chunk@),
            whole == terminal::takes_all(old(self)@.history, chunk@),
    {
        let taken: usize = self.screen.process(chunk);
        assert(chunk@.take(chunk@.len() as int) == chunk@);
        if taken < chunk.len() {
            assert(self@ == old(self)@.with_output(chunk@));
            return false;
        }
        let ghost middle = SessionState {
            history: terminal::fed(old(self)@.history, chunk@),
            ..old(self)@
        };
        assert(self@ == middle);
        self.broadcast(&ServerMsg::Output(vstd::slice::slice_to_vec(chunk)));
        true
    }

    /// Gives the session another size. Returns the size that the pty is to be given, where it
    /// changes.
    pub fn resize(&mut self, cols: u16, rows: u16) -> (changed: Option<Size>)
        requires
            old(self).wf(),
        ensures
            final(self).wf(),
            final(self)@ == old(self)@.with_size(Size { cols, rows }),
            final(self)@.size == old(self)@.size ==> changed is None,
            final(self)@.size != old(self)@.size ==> changed == Some(final(self)@.size),
    {
        let size: Size = Size { cols, rows }.sanitized();
        if size == self.size {
            return None;
        }
        self.size = size;
        self.screen.set_size(size.rows, size.cols);
        assert(self@ == old(self)@.with_size(Size { cols, rows }));
        Some(size)
    }

    /// The escape sequence blob that reproduces the current screen, where there is one.
    pub fn repaint(&self) -> (screen: Option<Vec<u8>>)
        requires
            self.wf(),
        ensures
            screen is Some <==> terminal::showable(self@.history),
            screen matches Some(bytes) ==> bytes@ == terminal::shown(self@.history),
    {
        self.screen.repaint()
    }

    /// The visible screen as plain text, for callers with no terminal.
    pub fn capture_text(&self) -> (screen: String)
        requires
            self.wf(),
        ensures
            screen@ == terminal::shown_text(self@.history),
    {
        self.screen.text()
    }

    /// Takes in a client that the current screen is on its way to. The output that comes from now
    /// on waits for it.
    pub fn attach(&mut self) -> (id: u64)
        requires
            old(self).wf(),
            old(self)@.next_id < u64::MAX,
        ensures
            final(self).wf(),
            id == old(self)@.next_id,
            final(self)@ == old(self)@.with_client(),
    {
        let id: u64 = self.next_client_id;
        let client: Client = Client { id, queue: VecDeque::new(), stage: Stage::Joining };
        let ghost before = self.clients@;
        let ghost state = client.state();
        self.clients.push(client);
        self.next_client_id = id + 1;
        proof {
            assert(state.queue == Seq::<protocol::ServerMessage>::empty());
            assert(states(self.clients@) == states(before).push(state));
            assert(self@ == old(self)@.with_client());
            lemma_with_client_valid(old(self)@);
        }
        id
    }

    /// Drops the client with this id. Where it was attached, it still gets what is in its queue.
    pub fn detach(&mut self, id: u64)
        requires
            old(self).wf(),
        ensures
            final(self).wf(),
            final(self)@ == old(self)@.without(id),
    {
        proof {
            lemma_others_ids(self@.clients, id, self@.next_id);
            lemma_ids_below_joined(self@.leaving, parting(self@.clients, id), self@.next_id);
        }
        part(&mut self.clients, &mut self.leaving, id);
        assert(self@ == old(self)@.without(id));
    }

    /// Drops every attached client. They still get what is in their queues.
    pub fn clear_clients(&mut self)
        requires
            old(self).wf(),
        ensures
            final(self).wf(),
            final(self)@ == old(self)@.alone(),
    {
        proof {
            lemma_joining_ids(self@.clients, self@.next_id);
            lemma_ids_below_joined(self@.leaving, open_ones(self@.clients), self@.next_id);
        }
        part_all(&mut self.clients, &mut self.leaving);
        assert(self@ == old(self)@.alone());
    }

    /// How many clients are attached.
    pub fn client_count(&self) -> (n: u32)
        ensures
            n == attached_count(self@.clients) as u32,
    {
        let ghost all = self@.clients;
        let mut n: usize = 0;
        let mut i: usize = 0;
        assert(all.len() == self.clients@.len());
        assert(all.take(0) == Seq::<ClientState>::empty());
        while i < self.clients.len()
            invariant
                all == states(self.clients@),
                n <= i <= self.clients.len(),
                n == attached_count(all.take(i as int)),
            decreases self.clients.len() - i,
        {
            proof {
                assert(all.take(i + 1).drop_last() == all.take(i as int));
                assert(all.take(i + 1).last() == self.clients@[i as int].state());
            }
            if self.clients[i].stage != Stage::Joining {
                n += 1;
            }
            i += 1;
        }
        assert(all.take(i as int) == all);
        n as u32
    }

    /// The size of the terminal.
    pub fn size(&self) -> (size: Size)
        ensures
            size == self@.size,
    {
        self.size
    }
}

/// What the writer of a client does next.
#[derive(Debug)]
pub enum Delivery {
    /// Write this message.
    Deliver(ServerMsg),
    /// Wait; there is nothing to write yet.
    Wait,
    /// Stop: the client is attached no longer, and has got all that was queued for it.
    Finished,
}

/// What a `Delivery` says.
#[verifier::ext_equal]
pub enum DeliveryStep {
    Deliver(protocol::ServerMessage),
    Wait,
    Finished,
}

impl View for Delivery {
    type V = DeliveryStep;

    open spec fn view(&self) -> DeliveryStep {
        match *self {
            Delivery::Deliver(msg) => DeliveryStep::Deliver(msg@),
            Delivery::Wait => DeliveryStep::Wait,
            Delivery::Finished => DeliveryStep::Finished,
        }
    }
}

impl SessionState {
    /// What the writer of a client does next, and the session behind it.
    pub open spec fn delivering(self, id: u64) -> (SessionState, DeliveryStep) {
        match position(self.clients, id, 0) {
            Some(i) => {
                let client = self.clients[i];
                if client.stage == Stage::Open && client.queue.len() > 0 {
                    (
                        SessionState {
                            clients: self.clients.update(i, served_once(client)),
                            ..self
                        },
                        DeliveryStep::Deliver(client.queue[0]),
                    )
                } else {
                    (self, DeliveryStep::Wait)
                }
            },
            None => match position(self.leaving, id, 0) {
                Some(i) => {
                    let client = self.leaving[i];
                    if client.queue.len() > 0 {
                        (
                            SessionState {
                                leaving: self.leaving.update(i, served_once(client)),
                                ..self
                            },
                            DeliveryStep::Deliver(client.queue[0]),
                        )
                    } else {
                        (
                            SessionState { leaving: self.leaving.remove(i), ..self },
                            DeliveryStep::Finished,
                        )
                    }
                },
                None => (self, DeliveryStep::Finished),
            },
        }
    }

    /// The session when the writer of a client has stopped because the pipe is broken. A client
    /// that is attached stays so until a message for it comes.
    pub open spec fn unwritten(self, id: u64) -> SessionState {
        match position(self.clients, id, 0) {
            Some(i) => SessionState {
                clients: self.clients.update(
                    i,
                    ClientState { id, queue: Seq::empty(), stage: Stage::Broken },
                ),
                ..self
            },
            None => match position(self.leaving, id, 0) {
                Some(i) => SessionState { leaving: self.leaving.remove(i), ..self },
                None => self,
            },
        }
    }
}

/// A client that is found stands in the row.
proof fn lemma_position(clients: Seq<ClientState>, id: u64, i: int)
    requires
        0 <= i,
    ensures
        position(clients, id, i) matches Some(k) ==> i <= k < clients.len() && clients[k].id == id,
    decreases clients.len() - i,
{
    if i < clients.len() && clients[i].id != id {
        lemma_position(clients, id, i + 1);
    }
}

/// Another state for the same client keeps the ids.
proof fn lemma_update_ids(clients: Seq<ClientState>, i: int, client: ClientState, bound: u64)
    requires
        0 <= i < clients.len(),
        client.id == clients[i].id,
        ids_below(clients, bound),
    ensures
        ids_below(clients.update(i, client), bound),
        ids_grow(clients) ==> ids_grow(clients.update(i, client)),
{
    let after = clients.update(i, client);
    assert forall|k: int| 0 <= k < after.len() implies (#[trigger] after[k]).id < bound by {
        assert(clients[k].id < bound);
    }
    if ids_grow(clients) {
        assert forall|j: int, k: int| 0 <= j < k < after.len() implies (#[trigger] after[j]).id < (
        #[trigger] after[k]).id by {
            assert(clients[j].id < clients[k].id);
        }
    }
}

/// One client less keeps the ids below the bound.
proof fn lemma_remove_ids(clients: Seq<ClientState>, i: int, bound: u64)
    requires
        0 <= i < clients.len(),
        ids_below(clients, bound),
    ensures
        ids_below(clients.remove(i), bound),
{
    let after = clients.remove(i);
    assert forall|k: int| 0 <= k < after.len() implies (#[trigger] after[k]).id < bound by {
        if k < i {
            assert(clients[k].id < bound);
        } else {
            assert(clients[k + 1].id < bound);
        }
    }
}

impl Session {
    /// Decides what the writer of a client does next. The messages come in the order in which they
    /// were queued.
    pub fn next_message(&mut self, id: u64) -> (delivery: Delivery)
        requires
            old(self).wf(),
        ensures
            final(self).wf(),
            (final(self)@, delivery@) == old(self)@.delivering(id),
    {
        proof {
            lemma_position(self@.clients, id, 0);
            lemma_position(self@.leaving, id, 0);
        }
        if let Some(i) = find(&self.clients, id) {
            let ghost before = states(self.clients@);
            let ghost client = self.clients@[i as int].state();
            assert(client == before[i as int]);
            if self.clients[i].stage != Stage::Open {
                return Delivery::Wait;
            }
            let msg: Option<ServerMsg> = self.clients[i].take_first();
            proof {
                if client.queue.len() > 0 {
                    assert(states(self.clients@) == before.update(i as int, served_once(client)));
                    lemma_update_ids(before, i as int, served_once(client), self@.next_id);
                } else {
                    assert(states(self.clients@) == before);
                }
                assert(self@ == old(self)@.delivering(id).0);
            }
            return match msg {
                Some(m) => Delivery::Deliver(m),
                None => Delivery::Wait,
            };
        }
        if let Some(i) = find(&self.leaving, id) {
            let ghost before = states(self.leaving@);
            let ghost client = self.leaving@[i as int].state();
            assert(client == before[i as int]);
            let msg: Option<ServerMsg> = self.leaving[i].take_first();
            return match msg {
                Some(m) => {
                    proof {
                        assert(states(self.leaving@) == before.update(
                            i as int,
                            served_once(client),
                        ));
                        lemma_update_ids(before, i as int, served_once(client), self@.next_id);
                        assert(self@ == old(self)@.delivering(id).0);
                    }
                    Delivery::Deliver(m)
                },
                None => {
                    assert(states(self.leaving@) == before);
                    self.leaving.remove(i);
                    proof {
                        assert(states(self.leaving@) == before.remove(i as int));
                        lemma_remove_ids(before, i as int, self@.next_id);
                        assert(self@ == old(self)@.delivering(id).0);
                    }
                    Delivery::Finished
                },
            };
        }
        Delivery::Finished
    }

    /// Takes in that the writer of a client has stopped because the pipe is broken.
    pub fn writer_failed(&mut self, id: u64)
        requires
            old(self).wf(),
        ensures
            final(self).wf(),
            final(self)@ == old(self)@.unwritten(id),
    {
        proof {
            lemma_position(self@.clients, id, 0);
            lemma_position(self@.leaving, id, 0);
        }
        if let Some(i) = find(&self.clients, id) {
            let ghost before = states(self.clients@);
            self.clients[i].queue = VecDeque::new();
            self.clients[i].stage = Stage::Broken;
            proof {
                let client = ClientState { id, queue: Seq::empty(), stage: Stage::Broken };
                assert(self.clients@[i as int].state() == client);
                assert(states(self.clients@) == before.update(i as int, client));
                lemma_update_ids(before, i as int, client, self@.next_id);
                assert(self@ == old(self)@.unwritten(id));
            }
        } else if let Some(i) = find(&self.leaving, id) {
            let ghost before = states(self.leaving@);
            self.leaving.remove(i);
            proof {
                assert(states(self.leaving@) == before.remove(i as int));
                lemma_remove_ids(before, i as int, self@.next_id);
                assert(self@ == old(self)@.unwritten(id));
            }
        }
    }
}

/// How long to wait between telling the clients that they are detached and dropping them, in
/// milliseconds: the notice should be out before the client list is torn down.
pub const DETACH_PAUSE: u64 = 200;

/// How long the server stays after the child has exited, in milliseconds: the last messages should
/// be out before the pipe disappears.
pub const EXIT_PAUSE: u64 = 300;

/// How long the server waits after it could not accept a client, in milliseconds.
pub const ACCEPT_PAUSE: u64 = 50;

/// One connection to the server, which may belong to an attached client.
#[derive(Debug)]
pub struct Connection {
    attached: Option<u64>,
}

impl Connection {
    /// The client that came to be attached over this connection.
    pub closed spec fn attached(&self) -> Option<u64> {
        self.attached
    }

    /// A connection over which nothing was said.
    pub fn new() -> (connection: Connection)
        ensures
            connection.attached() is None,
    {
        Connection { attached: None }
    }
}

/// What is to be done about a message of a client.
#[derive(Debug)]
pub enum Action {
    /// Nothing; read the next message.
    Next,
    /// Give the pty this size, and read the next message.
    ResizePty(Size),
    /// Give the pty a size, if there is one here; wait until the writer that was started for this
    /// connection before, if any, has stopped; and write the greeting to the connection. When it is
    /// out, report that with `greeted`, and read the next message. If that fails, hang up.
    Greet { greeting: ServerMsg, resize: Option<Size> },
    /// Give the pty a size, if there is one here, and fail: the screen cannot be serialised.
    CannotShow { resize: Option<Size> },
    /// Write these bytes to the pty, and read the next message. If that fails, hang up.
    WritePty(Vec<u8>),
    /// Write this message to the connection, and read the next one. If that fails, hang up.
    Reply(ServerMsg),
    /// Wait `DETACH_PAUSE`, drop every attached client, and read the next message.
    PauseAndClear,
    /// Kill the child, and hang up.
    Kill,
    /// Hang up.
    HangUp,
}

/// What an `Action` says.
#[verifier::ext_equal]
pub enum ActionStep {
    Next,
    ResizePty(Size),
    Greet { greeting: protocol::ServerMessage, resize: Option<Size> },
    CannotShow { resize: Option<Size> },
    WritePty(Seq<u8>),
    Reply(protocol::ServerMessage),
    PauseAndClear,
    Kill,
    HangUp,
}

impl View for Action {
    type V = ActionStep;

    open spec fn view(&self) -> ActionStep {
        match *self {
            Action::Next => ActionStep::Next,
            Action::ResizePty(size) => ActionStep::ResizePty(size),
            Action::Greet { greeting, resize } => ActionStep::Greet {
                greeting: greeting@,
                resize,
            },
            Action::CannotShow { resize } => ActionStep::CannotShow { resize },
            Action::WritePty(bytes) => ActionStep::WritePty(bytes@),
            Action::Reply(msg) => ActionStep::Reply(msg@),
            Action::PauseAndClear => ActionStep::PauseAndClear,
            Action::Kill => ActionStep::Kill,
            Action::HangUp => ActionStep::HangUp,
        }
    }
}

/// What was read of a client.
pub open spec fn read_of(read: Result<ClientMsg, ReadError>) -> Result<
    protocol::ClientMessage,
    ReadError,
> {
    match read {
        Ok(msg) => Ok(msg@),
        Err(e) => Err(e),
    }
}

impl SessionState {
    /// The size that the pty is to be given when the session gets another one.
    pub open spec fn size_change(self, size: Size) -> Option<Size> {
        if size.clamped() == self.size {
            None
        } else {
            Some(size.clamped())
        }
    }

    /// What the session says about itself.
    pub open spec fn info(self) -> protocol::ServerMessage {
        protocol::ServerMessage::InfoReply {
            cols: self.size.cols,
            rows: self.size.rows,
            clients: attached_count(self.clients) as u32,
            command: self.command,
        }
    }

    /// What is done about a message: the session behind it, the client that the connection belongs
    /// to, and what is left to do.
    pub open spec fn serving(
        self,
        attached: Option<u64>,
        read: Result<protocol::ClientMessage, ReadError>,
    ) -> (SessionState, Option<u64>, ActionStep) {
        match read {
            Ok(protocol::ClientMessage::Attach { cols, rows }) => {
                let size = Size { cols, rows };
                let resize = self.size_change(size);
                // Whoever attaches again over the same connection is the same client.
                let current = self.hung_up(attached).with_size(size);
                if terminal::showable(current.history) {
                    (
                        current.with_client(),
                        Some(current.next_id),
                        ActionStep::Greet {
                            greeting: protocol::ServerMessage::Repaint(
                                terminal::shown(current.history),
                            ),
                            resize,
                        },
                    )
                } else {
                    (current, None, ActionStep::CannotShow { resize })
                }
            },
            Ok(protocol::ClientMessage::Input(bytes)) => (
                self,
                attached,
                ActionStep::WritePty(bytes),
            ),
            Ok(protocol::ClientMessage::Resize { cols, rows }) => {
                let size = Size { cols, rows };
                (
                    self.with_size(size),
                    attached,
                    match self.size_change(size) {
                        Some(changed) => ActionStep::ResizePty(changed),
                        None => ActionStep::Next,
                    },
                )
            },
            Ok(protocol::ClientMessage::Detach) => (self, attached, ActionStep::HangUp),
            Ok(protocol::ClientMessage::Kill) => (self, attached, ActionStep::Kill),
            Ok(protocol::ClientMessage::DetachClients) => (
                self.told(protocol::ServerMessage::Detached),
                attached,
                ActionStep::PauseAndClear,
            ),
            Ok(protocol::ClientMessage::Capture) => (
                self,
                attached,
                ActionStep::Reply(
                    protocol::ServerMessage::CaptureReply(terminal::shown_text(self.history)),
                ),
            ),
            Ok(protocol::ClientMessage::Info) => (self, attached, ActionStep::Reply(self.info())),
            // The peer is gone: an implicit detach.
            Err(_) => (self, attached, ActionStep::HangUp),
        }
    }

    /// The session when a connection is closed.
    pub open spec fn hung_up(self, attached: Option<u64>) -> SessionState {
        match attached {
            Some(id) => self.without(id),
            None => self,
        }
    }

    /// The session when the greeting has been written to a connection.
    pub open spec fn greeted(self, attached: Option<u64>) -> SessionState {
        match attached {
            Some(id) => self.joined(id),
            None => self,
        }
    }
}

impl Session {
    /// Whether there is an id left for one more client.
    pub fn can_attach(&self) -> (yes: bool)
        ensures
            yes == (self@.next_id < u64::MAX),
    {
        self.next_client_id < u64::MAX
    }

    /// Decides what to do about what was read from a connection.
    ///
    /// A client that attaches gets the screen as it is, and then only what comes behind it: from
    /// the moment that the screen is taken, output waits for it. It is registered when the screen
    /// is out.
    pub fn serve_client(
        &mut self,
        connection: &mut Connection,
        read: Result<ClientMsg, ReadError>,
    ) -> (action: Action)
        requires
            old(self).wf(),
            read matches Ok(ClientMsg::Attach { .. }) ==> old(self)@.next_id < u64::MAX,
        ensures
            final(self).wf(),
            (final(self)@, final(connection).attached(), action@) == old(self)@.serving(
                old(connection).attached(),
                read_of(read),
            ),
    {
        match read {
            Ok(ClientMsg::Attach { cols, rows }) => {
                if let Some(id) = connection.attached {
                    self.detach(id);
                }
                connection.attached = None;
                let resize: Option<Size> = self.resize(cols, rows);
                match self.repaint() {
                    Some(screen) => {
                        let id: u64 = self.attach();
                        connection.attached = Some(id);
                        Action::Greet { greeting: ServerMsg::Repaint(screen), resize }
                    },
                    None => Action::CannotShow { resize },
                }
            },
            Ok(ClientMsg::Input(bytes)) => Action::WritePty(bytes),
            Ok(ClientMsg::Resize { cols, rows }) => match self.resize(cols, rows) {
                Some(size) => Action::ResizePty(size),
                None => Action::Next,
            },
            Ok(ClientMsg::Detach) => Action::HangUp,
            Ok(ClientMsg::Kill) => Action::Kill,
            Ok(ClientMsg::DetachClients) => {
                self.broadcast(&ServerMsg::Detached);
                Action::PauseAndClear
            },
            Ok(ClientMsg::Capture) => Action::Reply(ServerMsg::CaptureReply(self.capture_text())),
            Ok(ClientMsg::Info) => {
                let size: Size = self.size;
                Action::Reply(
                    ServerMsg::InfoReply {
                        cols: size.cols,
                        rows: size.rows,
                        clients: self.client_count(),
                        command: self.command.as_str().to_owned(),
                    },
                )
            },
            Err(_) => Action::HangUp,
        }
    }

    /// Takes in that the greeting has been written to a connection: its client is registered.
    /// Returns the client that a writer is to be started for, unless it has been dropped meanwhile.
    pub fn greeted(&mut self, connection: &Connection) -> (started: Option<u64>)
        requires
            old(self).wf(),
        ensures
            final(self).wf(),
            final(self)@ == old(self)@.greeted(connection.attached()),
            started == (match connection.attached() {
                Some(id) if old(self)@.joining(id) => Some(id),
                _ => None,
            }),
    {
        let id: u64 = match connection.attached {
            Some(id) => id,
            None => return None,
        };
        proof {
            lemma_position(self@.clients, id, 0);
        }
        let i: usize = match find(&self.clients, id) {
            Some(i) => i,
            None => return None,
        };
        let ghost before = states(self.clients@);
        assert(self.clients@[i as int].state() == before[i as int]);
        if self.clients[i].stage != Stage::Joining {
            return None;
        }
        self.clients[i].stage = Stage::Open;
        proof {
            let client = ClientState { stage: Stage::Open, ..before[i as int] };
            assert(self.clients@[i as int].state() == client);
            assert(states(self.clients@) == before.update(i as int, client));
            lemma_update_ids(before, i as int, client, self@.next_id);
            assert(self@ == old(self)@.joined(id));
        }
        Some(id)
    }

    /// Closes a connection: the client that it belongs to is attached no longer.
    pub fn hang_up(&mut self, connection: Connection)
        requires
            old(self).wf(),
        ensures
            final(self).wf(),
            final(self)@ == old(self)@.hung_up(connection.attached()),
    {
        if let Some(id) = connection.attached {
            self.detach(id);
        }
    }

    /// Takes in that the child has exited, and tells the clients.
    pub fn child_exited(&mut self, code: i32)
        requires
            old(self).wf(),
        ensures
            final(self).wf(),
            final(self)@ == old(self)@.told(protocol::ServerMessage::Exited(code)),
    {
        self.broadcast(&ServerMsg::Exited(code));
    }
}

/// The exit code of a session, given that of its child. Where that is not known, it is -1.
pub fn exit_code(status: Option<u32>) -> (code: i32)
    ensures
        code == (match status {
            Some(bits) => protocol::bits_code(bits as int),
            None => -1i32,
        }),
{
    match status {
        Some(bits) => {
            if bits < 0x8000_0000 {
                bits as i32
            } else {
                (bits as i64 - 0x1_0000_0000) as i32
            }
        },
        None => -1,
    }
}

/// What a server needs to start a session.
#[derive(Debug)]
pub struct Startup {
    /// The pipe to claim. If another server already owns it, that is to fail before a shell is
    /// spawned that nobody can reach.
    pub path: String,
    /// The size of the pty.
    pub size: Size,
    /// The program to run.
    pub program: String,
    /// Its arguments.
    pub args: Vec<String>,
    /// Its additional environment, names and values: programs inside the session get to know that
    /// they are, and a terminal type that implies VT support.
    pub environment: Vec<(String, String)>,
}

/// Whether this is what a server needs to run `command` in a session.
pub open spec fn starts(
    startup: Startup,
    sid: Seq<char>,
    name: Seq<char>,
    command: Seq<Seq<char>>,
    size: Size,
) -> bool {
    &&& startup.path@ == session::path_text(sid, name)
    &&& startup.size == size.clamped()
    &&& startup.program@ == command[0]
    &&& text::texts(startup.args@) == command.skip(1)
    &&& startup.environment@.len() == 2
    &&& startup.environment@[0].0@ == "WMUX_SESSION"@
    &&& startup.environment@[0].1@ == name
    &&& startup.environment@[1].0@ == "TERM"@
    &&& startup.environment@[1].1@ == "xterm-256color"@
}

/// Prepares a session server that runs `command`.
pub fn run(sid: &str, name: &str, command: &Vec<String>, cols: u16, rows: u16) -> (startup: Result<
    Startup,
    NameError,
>)
    requires
        command@.len() >= 1,
    ensures
        match session::name_error(name@) {
            Some(e) => startup == Err::<Startup, NameError>(e),
            None => startup matches Ok(st) && starts(
                st,
                sid@,
                name@,
                text::texts(command@),
                Size { cols, rows },
            ),
        },
{
    let path: String = match session::pipe_path(sid, name) {
        Ok(path) => path,
        Err(e) => return Err(e),
    };
    let ghost all = text::texts(command@);
    let mut args: Vec<String> = Vec::new();
    let mut i: usize = 1;
    while i < command.len()
        invariant
            1 <= i <= command.len(),
            all == text::texts(command@),
            text::texts(args@) == all.subrange(1, i as int),
        decreases command.len() - i,
    {
        let ghost before = args@;
        let arg: String = command[i].as_str().to_owned();
        args.push(arg);
        assert(text::texts(args@) == text::texts(before).push(all[i as int]));
        assert(all.subrange(1, i + 1) == all.subrange(1, i as int).push(all[i as int]));
        i += 1;
    }
    assert(all.subrange(1, all.len() as int) == all.skip(1));
    let mut environment: Vec<(String, String)> = Vec::new();
    environment.push((session::SESSION_ENV.to_owned(), name.to_owned()));
    environment.push(("TERM".to_owned(), "xterm-256color".to_owned()));
    Ok(
        Startup {
            path,
            size: Size { cols, rows }.sanitized(),
            program: command[0].as_str().to_owned(),
            args,
            environment,
        },
    )
}

/// What to tell the user when the pipe of a session is taken.
pub fn already_running_message(name: &str) -> (message: String)
    ensures
        message@ == "session "@ + text::quoted_text(name@) + " is already running"@,
{
    let mut message: String = "session ".to_owned();
    message.append(text::quote_text(name).as_str());
    message.append(" is already running");
    message
}

/// What to tell the user when the program of a session did not start.
pub fn failed_to_start_message(program: &str) -> (message: String)
    ensures
        message@ == "failed to start "@ + text::quoted_text(program@),
{
    let mut message: String = "failed to start ".to_owned();
    message.append(text::quote_text(program).as_str());
    message
}

/// A line of the log. A detached server has no console, so the log is the only way to see what it
/// is doing.
pub fn log(pid: u32, message: &str) -> (line: String)
    ensures
        line@ == "["@ + text::decimal_text(pid as nat) + "] "@ + message@,
{
    let mut line: String = "[".to_owned();
    line.append(text::decimal(pid as u64).as_str());
    line.append("] ");
    line.append(message);
    line
}

/// The session after one chunk of output behind the other.
pub open spec fn pumped(state: SessionState, chunks: Seq<Seq<u8>>) -> SessionState
    decreases chunks.len(),
{
    if chunks.len() == 0 {
        state
    } else {
        pumped(state, chunks.drop_last()).with_output(chunks.last())
    }
}

/// Chunks of output, put together.
pub open spec fn stream(chunks: Seq<Seq<u8>>) -> Seq<u8>
    decreases chunks.len(),
{
    if chunks.len() == 0 {
        Seq::empty()
    } else {
        stream(chunks.drop_last()) + chunks.last()
    }
}

/// Whatever clients there are, and whether any of them keeps up or not: all output of the pty goes
/// into the terminal model, as far as the model takes it, and neither the size nor the command of
/// the session changes.
pub proof fn law_the_model_gets_all_output(state: SessionState, chunks: Seq<Seq<u8>>)
    requires
        state.history.len() > 0,
        terminal::takes_all(state.history, stream(chunks)),
    ensures
        pumped(state, chunks).history == terminal::fed(state.history, stream(chunks)),
        pumped(state, chunks).size == state.size,
        pumped(state, chunks).command == state.command,
        pumped(state, chunks).next_id == state.next_id,
    decreases chunks.len(),
{
    if chunks.len() == 0 {
        terminal::lemma_fed_nothing(state.history);
    } else {
        let front = stream(chunks.drop_last());
        terminal::law_chunks_are_taken_alike(state.history, front, chunks.last());
        law_the_model_gets_all_output(state, chunks.drop_last());
        terminal::law_output_may_come_in_chunks(state.history, front, chunks.last());
    }
}

/// A client that attaches picks up exactly where the session is: it is greeted with what a terminal
/// shows that saw everything the pty has emitted, whether anybody was attached meanwhile or not.
pub proof fn law_reattaching_shows_the_current_screen(
    state: SessionState,
    chunks: Seq<Seq<u8>>,
    attached: Option<u64>,
)
    requires
        state.valid(),
        terminal::takes_all(state.history, stream(chunks)),
        terminal::showable(terminal::fed(state.history, stream(chunks))),
    ensures
        ({
            let (after, id, action) = pumped(state, chunks).serving(
                attached,
                Ok(
                    protocol::ClientMessage::Attach {
                        cols: state.size.cols,
                        rows: state.size.rows,
                    },
                ),
            );
            &&& action == ActionStep::Greet {
                greeting: protocol::ServerMessage::Repaint(
                    terminal::shown(terminal::fed(state.history, stream(chunks))),
                ),
                resize: None,
            }
            &&& after.clients.last() == (ClientState {
                id: state.next_id,
                queue: Seq::empty(),
                stage: Stage::Joining,
            })
            &&& id == Some(state.next_id)
        }),
{
    law_the_model_gets_all_output(state, chunks);
}

/// Who is attached makes no difference to what the terminal shows.
pub proof fn law_clients_do_not_change_the_screen(
    one: SessionState,
    other: SessionState,
    bytes: Seq<u8>,
    size: Size,
)
    requires
        one.history == other.history,
        one.size == other.size,
    ensures
        one.with_output(bytes).history == other.with_output(bytes).history,
        one.with_size(size).history == other.with_size(size).history,
        one.with_client().history == one.history,
{
}

/// The messages that carry chunks of output.
pub open spec fn outputs(chunks: Seq<Seq<u8>>) -> Seq<protocol::ServerMessage> {
    Seq::new(chunks.len(), |i: int| protocol::ServerMessage::Output(chunks[i]))
}

/// A client that attaches gets exactly one copy of the current screen, and then the output that
/// comes behind it: all of it, and in order, as long as it does not fall behind by more than its
/// queue holds. It makes no difference how much of the output comes before the screen is out.
pub proof fn law_one_screen_and_then_the_output(
    state: SessionState,
    attached: Option<u64>,
    size: Size,
    chunks: Seq<Seq<u8>>,
    more: Seq<Seq<u8>>,
)
    requires
        state.valid(),
        state.next_id < u64::MAX,
        chunks.len() + more.len() <= OUTBOUND_QUEUE,
        terminal::showable(state.with_size(size).history),
        terminal::takes_all(state.with_size(size).history, stream(chunks) + stream(more)),
    ensures
        ({
            let before = state.with_size(size);
            let (welcomed, id, action) = state.serving(
                attached,
                Ok(protocol::ClientMessage::Attach { cols: size.cols, rows: size.rows }),
            );
            let after = pumped(pumped(welcomed, chunks).greeted(id), more);
            &&& action == ActionStep::Greet {
                greeting: protocol::ServerMessage::Repaint(terminal::shown(before.history)),
                resize: state.size_change(size),
            }
            &&& after.clients.len() > 0
            &&& after.clients.last() == (ClientState {
                id: state.next_id,
                queue: outputs(chunks) + outputs(more),
                stage: Stage::Open,
            })
        }),
{
    let before = state.with_size(size);
    let (welcomed, id, action) = state.serving(
        attached,
        Ok(protocol::ClientMessage::Attach { cols: size.cols, rows: size.rows }),
    );
    lemma_serving_attach_valid(state, attached, size);
    terminal::law_chunks_are_taken_alike(before.history, stream(chunks), stream(more));
    lemma_queue_of_the_last(welcomed, chunks);
    let middle = pumped(welcomed, chunks);
    law_the_model_gets_all_output(welcomed, chunks);
    lemma_pumped_valid(welcomed, chunks);
    let last = middle.clients.len() - 1;
    lemma_found_in_place(middle.clients, last, 0);
    assert(Seq::<protocol::ServerMessage>::empty() + outputs(chunks) == outputs(chunks));
    assert(middle.joining(state.next_id));
    lemma_queue_of_the_last(middle.greeted(id), more);
}

/// Output keeps a session valid.
proof fn lemma_pumped_valid(state: SessionState, chunks: Seq<Seq<u8>>)
    requires
        state.valid(),
    ensures
        pumped(state, chunks).valid(),
    decreases chunks.len(),
{
    if chunks.len() > 0 {
        lemma_pumped_valid(state, chunks.drop_last());
        let before = pumped(state, chunks.drop_last());
        let fed = SessionState {
            history: terminal::fed(before.history, chunks.last()),
            ..before
        };
        lemma_told_valid(fed, protocol::ServerMessage::Output(chunks.last()));
    }
}

/// The last client collects the output that comes, as far as its queue holds it.
proof fn lemma_queue_of_the_last(state: SessionState, chunks: Seq<Seq<u8>>)
    requires
        state.history.len() > 0,
        state.clients.len() > 0,
        state.clients.last().stage != Stage::Broken,
        state.clients.last().queue.len() + chunks.len() <= OUTBOUND_QUEUE,
        terminal::takes_all(state.history, stream(chunks)),
    ensures
        pumped(state, chunks).clients.len() > 0,
        pumped(state, chunks).clients.last() == (ClientState {
            queue: state.clients.last().queue + outputs(chunks),
            ..state.clients.last()
        }),
    decreases chunks.len(),
{
    let queue = state.clients.last().queue;
    if chunks.len() == 0 {
        assert(queue + outputs(chunks) == queue);
    } else {
        let front = stream(chunks.drop_last());
        terminal::law_chunks_are_taken_alike(state.history, front, chunks.last());
        lemma_queue_of_the_last(state, chunks.drop_last());
        law_the_model_gets_all_output(state, chunks.drop_last());
        assert(queue + outputs(chunks) == (queue + outputs(chunks.drop_last())).push(
            protocol::ServerMessage::Output(chunks.last()),
        ));
    }
}

/// A client less keeps a session valid, and so does one more, as long as there is an id for it.
proof fn lemma_serving_attach_valid(state: SessionState, attached: Option<u64>, size: Size)
    requires
        state.valid(),
        state.next_id < u64::MAX,
    ensures
        state.hung_up(attached).valid(),
        state.serving(
            attached,
            Ok(protocol::ClientMessage::Attach { cols: size.cols, rows: size.rows }),
        ).0.valid(),
{
    if let Some(id) = attached {
        lemma_others_ids(state.clients, id, state.next_id);
        lemma_ids_below_joined(state.leaving, parting(state.clients, id), state.next_id);
    }
    lemma_with_client_valid(state.hung_up(attached).with_size(size));
}

/// One more client keeps a session valid, as long as there is an id for it.
proof fn lemma_with_client_valid(state: SessionState)
    requires
        state.valid(),
        state.next_id < u64::MAX,
    ensures
        state.with_client().valid(),
{
    let after = state.with_client();
    assert forall|i: int| 0 <= i < after.clients.len() implies (#[trigger] after.clients[i]).id
        < after.next_id by {
        if i < state.clients.len() {
            assert(state.clients[i].id < state.next_id);
        }
    }
    assert forall|i: int, j: int| 0 <= i < j < after.clients.len() implies (
    #[trigger] after.clients[i]).id < (#[trigger] after.clients[j]).id by {
        if j < state.clients.len() {
            assert(state.clients[i].id < state.clients[j].id);
        } else {
            assert(state.clients[i].id < state.next_id);
        }
    }
    assert forall|i: int| 0 <= i < after.leaving.len() implies (#[trigger] after.leaving[i]).id
        < after.next_id by {
        assert(state.leaving[i].id < state.next_id);
    }
}

/// What happens to the messages of a client.
pub enum ClientEvent {
    /// One is queued.
    Queue(protocol::ServerMessage),
    /// The writer takes the first in the queue.
    Take,
}

/// A client after these events, and the messages that its writer has taken.
pub open spec fn followed(client: ClientState, events: Seq<ClientEvent>) -> (
    ClientState,
    Seq<protocol::ServerMessage>,
)
    decreases events.len(),
{
    if events.len() == 0 {
        (client, Seq::empty())
    } else {
        let (before, taken) = followed(client, events.drop_last());
        match events.last() {
            ClientEvent::Queue(msg) => (queued(before, msg), taken),
            ClientEvent::Take => if before.queue.len() > 0 {
                (served_once(before), taken.push(before.queue[0]))
            } else {
                (before, taken)
            },
        }
    }
}

/// The messages that were queued.
pub open spec fn queued_messages(events: Seq<ClientEvent>) -> Seq<protocol::ServerMessage>
    decreases events.len(),
{
    if events.len() == 0 {
        Seq::empty()
    } else {
        match events.last() {
            ClientEvent::Queue(msg) => queued_messages(events.drop_last()).push(msg),
            ClientEvent::Take => queued_messages(events.drop_last()),
        }
    }
}

/// However queueing and writing alternate, a client gets its messages in order, none twice, and
/// none is lost: what its writer has taken and what is still queued are what was queued before and
/// what came behind it.
pub proof fn law_messages_are_delivered_in_order(client: ClientState, events: Seq<ClientEvent>)
    ensures
        followed(client, events).1 + followed(client, events).0.queue == client.queue
            + queued_messages(events),
    decreases events.len(),
{
    if events.len() == 0 {
        assert(Seq::<protocol::ServerMessage>::empty() + client.queue == client.queue + Seq::<
            protocol::ServerMessage,
        >::empty());
    } else {
        law_messages_are_delivered_in_order(client, events.drop_last());
        let (before, taken) = followed(client, events.drop_last());
        let earlier = queued_messages(events.drop_last());
        match events.last() {
            ClientEvent::Queue(msg) => {
                assert(taken + before.queue.push(msg) == (taken + before.queue).push(msg));
                assert(client.queue + earlier.push(msg) == (client.queue + earlier).push(msg));
            },
            ClientEvent::Take => {
                if before.queue.len() > 0 {
                    assert(taken.push(before.queue[0]) + before.queue.drop_first() == taken
                        + before.queue);
                }
            },
        }
    }
}

/// A client that takes a message is among those that it reaches, and one that the message is not
/// for stays.
proof fn lemma_reached_contains(
    clients: Seq<ClientState>,
    i: int,
    msg: protocol::ServerMessage,
)
    requires
        0 <= i < clients.len(),
        hears(clients[i], msg) ==> takes(clients[i]),
    ensures
        reached(clients, msg).contains(
            (if hears(clients[i], msg) {
                queued(clients[i], msg)
            } else {
                clients[i]
            }),
        ),
    decreases clients.len(),
{
    let q = if hears(clients[i], msg) {
        queued(clients[i], msg)
    } else {
        clients[i]
    };
    let front = reached(clients.drop_last(), msg);
    if i == clients.len() - 1 {
        assert(reached(clients, msg) == front.push(q));
        assert(front.push(q)[front.len() as int] == q);
    } else {
        lemma_reached_contains(clients.drop_last(), i, msg);
        let k = choose|k: int| 0 <= k < front.len() && front[k] == q;
        assert(reached(clients, msg)[k] == q);
    }
}

/// Where ids grow, a client is found where it stands.
proof fn lemma_found_in_place(clients: Seq<ClientState>, i: int, from: int)
    requires
        ids_grow(clients),
        0 <= from <= i < clients.len(),
    ensures
        position(clients, clients[i].id, from) == Some(i),
    decreases i - from,
{
    if from < i {
        assert(clients[from].id < clients[i].id);
        lemma_found_in_place(clients, i, from + 1);
    }
}

/// What a session does to one of its clients is to queue and to take: a message to all comes last
/// in the queue of every client that it is for and that takes it, and a writer is given the first
/// message in the queue, with nothing changed but that. Nothing is written to a client that the
/// screen is still on its way to.
pub proof fn law_clients_are_served_from_their_queues(
    state: SessionState,
    i: int,
    msg: protocol::ServerMessage,
)
    requires
        state.valid(),
        0 <= i < state.clients.len(),
    ensures
        ({
            let client = state.clients[i];
            let open = client.stage == Stage::Open;
            &&& hears(client, msg) && takes(client) ==> state.told(msg).clients.contains(
                queued(client, msg),
            )
            &&& !hears(client, msg) ==> state.told(msg).clients.contains(client)
            &&& open && client.queue.len() > 0 ==> state.delivering(client.id) == (
                SessionState {
                    clients: state.clients.update(i, served_once(client)),
                    ..state
                },
                DeliveryStep::Deliver(client.queue[0]),
            )
            &&& !open || client.queue.len() == 0 ==> state.delivering(client.id) == (
                state,
                DeliveryStep::Wait,
            )
        }),
{
    let client = state.clients[i];
    if hears(client, msg) ==> takes(client) {
        lemma_reached_contains(state.clients, i, msg);
    }
    lemma_found_in_place(state.clients, i, 0);
}

/// The messages that a session sends all by itself fit in a frame: chunks of output as they are
/// read, the exit code, and the notice of a detach.
pub proof fn law_live_messages_fit(chunk: Seq<u8>, code: i32)
    requires
        chunk.len() <= PTY_CHUNK,
    ensures
        protocol::ServerMessage::Output(chunk).fits(),
        protocol::ServerMessage::Exited(code).fits(),
        protocol::ServerMessage::Detached.fits(),
{
}

/// Two rows of clients are reached like one.
proof fn lemma_reached_joined(
    a: Seq<ClientState>,
    b: Seq<ClientState>,
    msg: protocol::ServerMessage,
)
    ensures
        reached(a + b, msg) == reached(a, msg) + reached(b, msg),
        stuck(a + b) == stuck(a) + stuck(b),
    decreases b.len(),
{
    if b.len() == 0 {
        assert(a + b == a);
        assert(reached(a, msg) + Seq::<ClientState>::empty() == reached(a, msg));
        assert(stuck(a) + Seq::<ClientState>::empty() == stuck(a));
    } else {
        lemma_reached_joined(a, b.drop_last(), msg);
        assert((a + b).drop_last() == a + b.drop_last());
        assert((a + b).last() == b.last());
        let q = if hears(b.last(), msg) {
            queued(b.last(), msg)
        } else {
            b.last()
        };
        assert((reached(a, msg) + reached(b.drop_last(), msg)).push(q) == reached(a, msg)
            + reached(b.drop_last(), msg).push(q));
        if b.last().stage == Stage::Open && !takes(b.last()) {
            assert((stuck(a) + stuck(b.drop_last())).push(b.last()) == stuck(a) + stuck(
                b.drop_last(),
            ).push(b.last()));
        }
    }
}

/// One unresponsive client cannot hold up another: a client that does not take a message for it is
/// dropped alone, and the clients around it get what they would get without it.
pub proof fn law_a_stuck_client_is_dropped_alone(
    before: Seq<ClientState>,
    client: ClientState,
    behind: Seq<ClientState>,
    msg: protocol::ServerMessage,
)
    requires
        hears(client, msg),
        !takes(client),
    ensures
        reached(before + seq![client] + behind, msg) == reached(before + behind, msg),
        client.stage == Stage::Open ==> stuck(before + seq![client] + behind) == stuck(before) + seq![client]
            + stuck(behind),
{
    lemma_reached_joined(before + seq![client], behind, msg);
    lemma_reached_joined(before, seq![client], msg);
    lemma_reached_joined(before, behind, msg);
    assert(seq![client].drop_last() == Seq::<ClientState>::empty());
    reveal_with_fuel(reached, 2);
    reveal_with_fuel(stuck, 2);
    assert(reached(before, msg) + Seq::<ClientState>::empty() == reached(before, msg));
    if client.stage == Stage::Open {
        assert(stuck(seq![client]) == seq![client]);
    }
}

/// Asking a session about itself, looking at its screen and typing into it changes nothing in it,
/// and registers nobody: a session that a script drives stays detached.
pub proof fn law_scripts_do_not_attach(
    state: SessionState,
    attached: Option<u64>,
    bytes: Seq<u8>,
)
    ensures
        state.serving(attached, Ok(protocol::ClientMessage::Info)).0 == state,
        state.serving(attached, Ok(protocol::ClientMessage::Info)).1 == attached,
        state.serving(attached, Ok(protocol::ClientMessage::Capture)).0 == state,
        state.serving(attached, Ok(protocol::ClientMessage::Capture)).1 == attached,
        state.serving(attached, Ok(protocol::ClientMessage::Input(bytes))).0 == state,
        state.serving(attached, Ok(protocol::ClientMessage::Input(bytes))).1 == attached,
        state.hung_up(None) == state,
{
}

/// The clients other than one are all the rest, in order.
proof fn lemma_others_is_remove(clients: Seq<ClientState>, i: int)
    requires
        ids_grow(clients),
        0 <= i < clients.len(),
    ensures
        others(clients, clients[i].id) == clients.remove(i),
        parting(clients, clients[i].id) == (if clients[i].stage == Stage::Open {
            seq![clients[i]]
        } else {
            Seq::empty()
        }),
    decreases clients.len(),
{
    let id = clients[i].id;
    let front = clients.drop_last();
    assert forall|j: int, k: int| 0 <= j < k < front.len() implies (#[trigger] front[j]).id < (
    #[trigger] front[k]).id by {
        assert(clients[j].id < clients[k].id);
    }
    if i == clients.len() - 1 {
        assert forall|j: int| 0 <= j < front.len() implies (#[trigger] front[j]).id != id by {
            assert(clients[j].id < clients[i].id);
        }
        lemma_others_is_all(front, id);
        assert(clients.remove(i) == front);
        assert(Seq::<ClientState>::empty().push(clients[i]) == seq![clients[i]]);
    } else {
        lemma_others_is_remove(front, i);
        assert(front[i] == clients[i]);
        assert(clients[i].id < clients[clients.len() - 1].id);
        assert(clients.remove(i) == front.remove(i).push(clients.last()));
    }
}

proof fn lemma_others_is_all(clients: Seq<ClientState>, id: u64)
    requires
        forall|j: int| 0 <= j < clients.len() ==> (#[trigger] clients[j]).id != id,
    ensures
        others(clients, id) == clients,
        parting(clients, id) == Seq::<ClientState>::empty(),
    decreases clients.len(),
{
    if clients.len() > 0 {
        let front = clients.drop_last();
        assert forall|j: int| 0 <= j < front.len() implies (#[trigger] front[j]).id != id by {
            assert(clients[j].id != id);
        }
        lemma_others_is_all(front, id);
        assert(clients[clients.len() - 1].id != id);
        assert(front.push(clients.last()) == clients);
    }
}

/// A client that detaches, or whose connection drops, leaves the session and the other clients as
/// they are. If it was attached, it still gets what was queued for it.
pub proof fn law_detaching_leaves_the_session_running(state: SessionState, i: int)
    requires
        state.valid(),
        0 <= i < state.clients.len(),
    ensures
        ({
            let after = state.hung_up(Some(state.clients[i].id));
            &&& after.clients == state.clients.remove(i)
            &&& after.leaving == (if state.clients[i].stage == Stage::Open {
                state.leaving.push(state.clients[i])
            } else {
                state.leaving
            })
            &&& after.history == state.history
            &&& after.size == state.size
            &&& after.command == state.command
        }),
{
    lemma_others_is_remove(state.clients, i);
    assert(state.leaving + Seq::<ClientState>::empty() == state.leaving);
    assert(state.leaving + seq![state.clients[i]] == state.leaving.push(state.clients[i]));
}

/// One connection stands for one client, however often it attaches: the session after the `Attach`
/// messages of one connection with these sizes, each with its screen written, and the client that
/// the connection then belongs to.
pub open spec fn attached_with(state: SessionState, sizes: Seq<Size>) -> (
    SessionState,
    Option<u64>,
)
    decreases sizes.len(),
{
    if sizes.len() == 0 {
        (state, None)
    } else {
        let (before, attached) = attached_with(state, sizes.drop_last());
        let size = sizes.last();
        let (welcomed, id, _) = before.serving(
            attached,
            Ok(protocol::ClientMessage::Attach { cols: size.cols, rows: size.rows }),
        );
        (welcomed.greeted(id), id)
    }
}

/// What `attached_with` does to the clients: there is at most one more.
proof fn lemma_one_client_per_connection(state: SessionState, sizes: Seq<Size>)
    requires
        state.valid(),
        state.next_id + sizes.len() <= u64::MAX,
    ensures
        ({
            let (after, attached) = attached_with(state, sizes);
            &&& after.valid()
            &&& state.next_id <= after.next_id <= state.next_id + sizes.len()
            &&& after.command == state.command
            &&& match attached {
                None => after.clients == state.clients,
                Some(id) => after.clients.len() > 0 && after.clients.last().id == id
                    && after.clients.drop_last() == state.clients,
            }
        }),
    decreases sizes.len(),
{
    if sizes.len() > 0 {
        lemma_one_client_per_connection(state, sizes.drop_last());
        let (before, attached) = attached_with(state, sizes.drop_last());
        let size = sizes.last();
        lemma_serving_attach_valid(before, attached, size);
        lemma_hung_up_last(before, attached, state.clients);
        let (welcomed, id, _) = before.serving(
            attached,
            Ok(protocol::ClientMessage::Attach { cols: size.cols, rows: size.rows }),
        );
        if let Some(new) = id {
            let last = welcomed.clients.len() - 1;
            assert(welcomed.clients.drop_last() == state.clients);
            lemma_found_in_place(welcomed.clients, last, 0);
            let client = ClientState { stage: Stage::Open, ..welcomed.clients[last] };
            lemma_update_ids(welcomed.clients, last, client, welcomed.next_id);
            assert(welcomed.greeted(id).clients == welcomed.clients.update(last, client));
            assert(welcomed.clients.update(last, client).drop_last() == state.clients);
        }
    }
}

/// When a connection is closed whose client is the last of all, the clients before it are left.
proof fn lemma_hung_up_last(
    state: SessionState,
    attached: Option<u64>,
    clients: Seq<ClientState>,
)
    requires
        state.valid(),
        match attached {
            None => state.clients == clients,
            Some(id) => state.clients.len() > 0 && state.clients.last().id == id
                && state.clients.drop_last() == clients,
        },
    ensures
        state.hung_up(attached).clients == clients,
{
    if attached is Some {
        let last = state.clients.len() - 1;
        lemma_others_is_remove(state.clients, last);
        assert(state.clients.remove(last) == clients);
    }
}

/// However often a client attaches over one connection, it can detach: behind `Detach` the clients
/// are those that were there before, so that as many are counted and no later message is queued for
/// this one. The child is not killed.
pub proof fn law_detaching_undoes_attaching(
    state: SessionState,
    sizes: Seq<Size>,
    msg: protocol::ServerMessage,
)
    requires
        state.valid(),
        state.next_id + sizes.len() <= u64::MAX,
    ensures
        ({
            let (during, attached) = attached_with(state, sizes);
            let (same, still, action) = during.serving(
                attached,
                Ok(protocol::ClientMessage::Detach),
            );
            let after = same.hung_up(still);
            &&& action == ActionStep::HangUp
            &&& after.clients == state.clients
            &&& attached_count(after.clients) == attached_count(state.clients)
            &&& after.told(msg).clients == state.told(msg).clients
            &&& after.command == state.command
        }),
{
    lemma_one_client_per_connection(state, sizes);
    let (during, attached) = attached_with(state, sizes);
    lemma_hung_up_last(during, attached, state.clients);
}

/// Nobody is attached before the screen is out: until then the client is not counted, and where
/// the screen cannot be written, the clients are those that were there before, and nothing waits
/// to be written.
pub proof fn law_a_client_is_registered_behind_its_screen(state: SessionState, size: Size)
    requires
        state.valid(),
        state.next_id < u64::MAX,
    ensures
        ({
            let (welcomed, id, _) = state.serving(
                None,
                Ok(protocol::ClientMessage::Attach { cols: size.cols, rows: size.rows }),
            );
            &&& attached_count(welcomed.clients) == attached_count(state.clients)
            &&& welcomed.hung_up(id).clients == state.clients
            &&& welcomed.hung_up(id).leaving == state.leaving
            &&& id is Some ==> attached_count(welcomed.greeted(id).clients) == attached_count(
                state.clients,
            ) + 1
        }),
{
    let (welcomed, id, _) = state.serving(
        None,
        Ok(protocol::ClientMessage::Attach { cols: size.cols, rows: size.rows }),
    );
    lemma_serving_attach_valid(state, None, size);
    if id is Some {
        let last = welcomed.clients.len() - 1;
        assert(welcomed.clients.drop_last() == state.clients);
        lemma_hung_up_last(welcomed, id, state.clients);
        lemma_others_is_remove(welcomed.clients, last);
        assert(state.leaving + Seq::<ClientState>::empty() == state.leaving);
        lemma_found_in_place(welcomed.clients, last, 0);
        assert(welcomed.greeted(id).clients.drop_last() == state.clients);
    }
}

/// Clients that all take a message and are told that they are detached: those that are attached
/// have it in their queues, and the others stay as they are.
proof fn lemma_all_detached(clients: Seq<ClientState>)
    requires
        forall|i: int| 0 <= i < clients.len() ==> takes(#[trigger] clients[i]),
    ensures
        ({
            let told = reached(clients, protocol::ServerMessage::Detached);
            &&& stuck(clients) == Seq::<ClientState>::empty()
            &&& open_ones(told) == Seq::new(
                open_ones(clients).len(),
                |i: int| queued(open_ones(clients)[i], protocol::ServerMessage::Detached),
            )
            &&& joining_ones(told) == joining_ones(clients)
        }),
    decreases clients.len(),
{
    if clients.len() > 0 {
        let front = clients.drop_last();
        assert forall|i: int| 0 <= i < front.len() implies takes(#[trigger] front[i]) by {
            assert(takes(clients[i]));
        }
        lemma_all_detached(front);
        assert(takes(clients[clients.len() - 1]));
        let told = reached(front, protocol::ServerMessage::Detached);
        let last = clients.last();
        let q = if last.stage == Stage::Joining {
            last
        } else {
            queued(last, protocol::ServerMessage::Detached)
        };
        assert(told.push(q).drop_last() == told);
        assert(told.push(q).last() == q);
    }
}

/// None of those that are not attached yet is counted.
proof fn lemma_joining_not_counted(clients: Seq<ClientState>)
    ensures
        attached_count(joining_ones(clients)) == 0,
    decreases clients.len(),
{
    if clients.len() > 0 {
        let front = joining_ones(clients.drop_last());
        lemma_joining_not_counted(clients.drop_last());
        assert(front.push(clients.last()).drop_last() == front);
    }
}

/// Detaching the clients from outside: every attached client that keeps up gets the notice as the
/// last of its messages, none is attached any more, and the session goes on.
pub proof fn law_clients_can_be_detached_from_outside(state: SessionState, attached: Option<u64>)
    requires
        forall|i: int| 0 <= i < state.clients.len() ==> takes(#[trigger] state.clients[i]),
    ensures
        ({
            let (told, still, action) = state.serving(
                attached,
                Ok(protocol::ClientMessage::DetachClients),
            );
            let after = told.alone();
            let open = open_ones(state.clients);
            &&& action == ActionStep::PauseAndClear
            &&& still == attached
            &&& attached_count(after.clients) == 0
            &&& after.clients == joining_ones(state.clients)
            &&& after.leaving == state.leaving + Seq::new(
                open.len(),
                |i: int| queued(open[i], protocol::ServerMessage::Detached),
            )
            &&& after.history == state.history
            &&& after.size == state.size
            &&& after.command == state.command
        }),
{
    lemma_all_detached(state.clients);
    lemma_joining_not_counted(state.clients);
    assert(state.leaving + Seq::<ClientState>::empty() == state.leaving);
}

/// The last size that a client asks for is the size of the session, without zero dimensions; to ask
/// for it again changes nothing.
pub proof fn law_the_last_size_counts(state: SessionState, size: Size)
    requires
        state.valid(),
    ensures
        state.with_size(size).valid(),
        state.with_size(size).size == size.clamped(),
        state.with_size(size).with_size(size) == state.with_size(size),
        state.with_size(size).size_change(size) is None,
{
}

/// What is typed over a connection goes to the pty, byte for byte, whatever the state of the
/// session is and whether the connection attached or not; and nothing else comes of it.
pub proof fn law_input_is_typed_into_the_session(
    state: SessionState,
    attached: Option<u64>,
    bytes: Seq<u8>,
)
    ensures
        state.serving(attached, Ok(protocol::ClientMessage::Input(bytes))) == (
            state,
            attached,
            ActionStep::WritePty(bytes),
        ),
{
}

/// The same of the call, over a connection that never attached: the bytes come out as they came in.
pub proof fn law_a_message_of_input_is_answered_by_typing_it(
    before: Session,
    after: Session,
    attached: Option<u64>,
    bytes: Vec<u8>,
    action: Action,
)
    requires
        (after@, attached, action@) == before@.serving(
            attached,
            read_of(Ok::<ClientMsg, ReadError>(ClientMsg::Input(bytes))),
        ),
    ensures
        action matches Action::WritePty(typed) && typed@ == bytes@,
        after@ == before@,
{
}

/// What is answered to each question, whoever asks: the screen as it is now to a capture; and to an
/// info the size, how many are attached and the command. Neither changes the session.
pub proof fn law_questions_are_answered(state: SessionState, attached: Option<u64>)
    ensures
        state.serving(attached, Ok(protocol::ClientMessage::Capture)) == (
            state,
            attached,
            ActionStep::Reply(
                protocol::ServerMessage::CaptureReply(terminal::shown_text(state.history)),
            ),
        ),
        state.serving(attached, Ok(protocol::ClientMessage::Info)) == (
            state,
            attached,
            ActionStep::Reply(
                protocol::ServerMessage::InfoReply {
                    cols: state.size.cols,
                    rows: state.size.rows,
                    clients: attached_count(state.clients) as u32,
                    command: state.command,
                },
            ),
        ),
{
}

/// The end of a connection: a detach and a connection that drops hang up and kill nothing, a kill
/// kills, and none of them touches the session before the connection is closed.
pub proof fn law_only_a_kill_kills(
    state: SessionState,
    attached: Option<u64>,
    read: Result<protocol::ClientMessage, ReadError>,
)
    ensures
        state.serving(attached, read).2 == ActionStep::Kill <==> read == Ok::<
            protocol::ClientMessage,
            ReadError,
        >(protocol::ClientMessage::Kill),
        state.serving(attached, read).2 == ActionStep::HangUp <==> read is Err || read == Ok::<
            protocol::ClientMessage,
            ReadError,
        >(protocol::ClientMessage::Detach),
        read is Err || read == Ok::<protocol::ClientMessage, ReadError>(
            protocol::ClientMessage::Detach,
        ) || read == Ok::<protocol::ClientMessage, ReadError>(protocol::ClientMessage::Kill)
            ==> state.serving(attached, read).0 == state && state.serving(attached, read).1
            == attached,
        state.serving(attached, read).2 == ActionStep::PauseAndClear <==> read == Ok::<
            protocol::ClientMessage,
            ReadError,
        >(protocol::ClientMessage::DetachClients),
{
}

/// A window that changes changes the session: its size is the one that was asked for, with at least
/// one cell each way, the model has it, and the pty is given it exactly where it is another one.
/// Nobody is attached or detached by it.
pub proof fn law_a_resize_reaches_the_pty(
    state: SessionState,
    attached: Option<u64>,
    cols: u16,
    rows: u16,
)
    requires
        state.valid(),
    ensures
        ({
            let (after, still, action) = state.serving(
                attached,
                Ok(protocol::ClientMessage::Resize { cols, rows }),
            );
            &&& after.size.cols == (if cols == 0 {
                1
            } else {
                cols
            })
            &&& after.size.rows == (if rows == 0 {
                1
            } else {
                rows
            })
            &&& after.history.last().0 == after.size.rows
            &&& after.history.last().1 == after.size.cols
            &&& after.size != state.size ==> action == ActionStep::ResizePty(after.size)
            &&& after.size == state.size ==> action == ActionStep::Next && after == state
            &&& after.size != state.size ==> after.history.drop_last() == state.history
                && after.history.last().2.len() == 0
            &&& still == attached
            &&& after.clients == state.clients
            &&& after.leaving == state.leaving
            &&& after.command == state.command
        }),
{
    let size = Size { cols, rows };
    if state.with_size(size).size != state.size {
        assert(state.with_size(size).history.drop_last() == state.history);
    }
}

/// A message to all goes to every client that is attached and has fewer than 1024 messages in its
/// queue: behind what is there, and to each exactly once. Nobody is dropped.
pub proof fn law_every_client_gets_a_message(state: SessionState, msg: protocol::ServerMessage)
    requires
        forall|i: int|
            0 <= i < state.clients.len() ==> (#[trigger] state.clients[i]).stage == Stage::Open
                && state.clients[i].queue.len() < 1024,
    ensures
        state.told(msg).clients.len() == state.clients.len(),
        forall|i: int|
            0 <= i < state.clients.len() ==> (#[trigger] state.told(msg).clients[i]) == (
            ClientState {
                id: state.clients[i].id,
                queue: state.clients[i].queue.push(msg),
                stage: Stage::Open,
            }),
        state.told(msg).leaving == state.leaving,
        state.told(msg).history == state.history,
        state.told(msg).size == state.size,
        state.told(msg).command == state.command,
        state.told(msg).next_id == state.next_id,
{
    lemma_all_told(state.clients, msg);
    assert(state.leaving + Seq::<ClientState>::empty() == state.leaving);
}

proof fn lemma_all_told(clients: Seq<ClientState>, msg: protocol::ServerMessage)
    requires
        forall|i: int|
            0 <= i < clients.len() ==> (#[trigger] clients[i]).stage == Stage::Open
                && clients[i].queue.len() < 1024,
    ensures
        reached(clients, msg).len() == clients.len(),
        forall|i: int|
            0 <= i < clients.len() ==> #[trigger] reached(clients, msg)[i] == (ClientState {
                id: clients[i].id,
                queue: clients[i].queue.push(msg),
                stage: Stage::Open,
            }),
        stuck(clients) == Seq::<ClientState>::empty(),
    decreases clients.len(),
{
    if clients.len() > 0 {
        let front = clients.drop_last();
        assert forall|i: int| 0 <= i < front.len() implies (#[trigger] front[i]).stage
            == Stage::Open && front[i].queue.len() < 1024 by {
            assert(clients[i].stage == Stage::Open);
        }
        lemma_all_told(front, msg);
        assert(clients[clients.len() - 1].stage == Stage::Open);
        assert forall|i: int| 0 <= i < clients.len() implies #[trigger] reached(clients, msg)[i]
            == (ClientState {
            id: clients[i].id,
            queue: clients[i].queue.push(msg),
            stage: Stage::Open,
        }) by {
            if i < front.len() {
                assert(reached(clients, msg)[i] == reached(front, msg)[i]);
            }
        }
    }
}

/// Output of the pty, where the terminal model takes it: all of it goes into the model, behind what
/// was there, and every attached client with room gets exactly those bytes, as output.
pub proof fn law_output_goes_to_the_model_and_to_every_client(state: SessionState, bytes: Seq<u8>)
    requires
        state.history.len() > 0,
        terminal::takes_all(state.history, bytes),
        forall|i: int|
            0 <= i < state.clients.len() ==> (#[trigger] state.clients[i]).stage == Stage::Open
                && state.clients[i].queue.len() < 1024,
    ensures
        ({
            let after = state.with_output(bytes);
            &&& after.history.len() == state.history.len()
            &&& after.history.drop_last() == state.history.drop_last()
            &&& after.history.last() == (
                state.history.last().0,
                state.history.last().1,
                state.history.last().2 + bytes,
            )
            &&& after.clients.len() == state.clients.len()
            &&& forall|i: int|
                0 <= i < state.clients.len() ==> (#[trigger] after.clients[i]) == (ClientState {
                    id: state.clients[i].id,
                    queue: state.clients[i].queue.push(protocol::ServerMessage::Output(bytes)),
                    stage: Stage::Open,
                })
            &&& after.leaving == state.leaving
            &&& after.size == state.size
        }),
{
    let fed = SessionState { history: terminal::fed(state.history, bytes), ..state };
    law_every_client_gets_a_message(fed, protocol::ServerMessage::Output(bytes));
    assert(fed.history.drop_last() == state.history.drop_last());
}

/// In an ordinary window nothing of the output is lost, whatever byte comes and whatever sequence it
/// belongs to: of at least two rows and three columns, with the cursor on the screen and no wide
/// character cut in two, the model takes the byte, and every attached client with room gets it.
pub proof fn law_no_byte_is_lost_in_an_ordinary_window(
    state: SessionState,
    byte: u8,
    row: u16,
    col: u16,
)
    requires
        state.valid(),
        2 <= state.size.rows,
        3 <= state.size.cols < 65528,
        terminal::screen_cursor(terminal::SCROLLBACK_LINES as nat, state.history) == (row, col),
        row < state.size.rows,
        col <= state.size.cols,
        forall|r: u16, c: u16|
            r < state.size.rows && c < state.size.cols && #[trigger] terminal::wide_cell(
                terminal::SCROLLBACK_LINES as nat,
                state.history,
                r,
                c,
            ) ==> c + 1 < state.size.cols && terminal::continued_cell(
                terminal::SCROLLBACK_LINES as nat,
                state.history,
                r,
                (c + 1) as u16,
            ) && !terminal::wide_cell(
                terminal::SCROLLBACK_LINES as nat,
                state.history,
                r,
                (c + 1) as u16,
            ),
        forall|r: u16, c: u16|
            r < state.size.rows && c < state.size.cols && #[trigger] terminal::continued_cell(
                terminal::SCROLLBACK_LINES as nat,
                state.history,
                r,
                c,
            ) ==> c > 0 && terminal::wide_cell(
                terminal::SCROLLBACK_LINES as nat,
                state.history,
                r,
                (c - 1) as u16,
            ),
        forall|i: int|
            0 <= i < state.clients.len() ==> (#[trigger] state.clients[i]).stage == Stage::Open
                && state.clients[i].queue.len() < 1024,
    ensures
        state.with_output(seq![byte]).history.last().2 == state.history.last().2.push(byte),
        forall|i: int|
            0 <= i < state.clients.len() ==> (#[trigger] state.with_output(
                seq![byte],
            ).clients[i]).queue == state.clients[i].queue.push(
                protocol::ServerMessage::Output(seq![byte]),
            ),
{
    terminal::law_an_ordinary_window_takes_every_byte(state.history, byte);
    law_output_goes_to_the_model_and_to_every_client(state, seq![byte]);
    assert(state.history.last().2 + seq![byte] == state.history.last().2.push(byte));
}

/// How many are counted: everybody who is attached, each once, and nobody else.
pub proof fn law_everybody_attached_is_counted(clients: Seq<ClientState>, client: ClientState)
    ensures
        attached_count(Seq::empty()) == 0,
        client.stage == Stage::Joining ==> attached_count(clients.push(client)) == attached_count(
            clients,
        ),
        client.stage != Stage::Joining ==> attached_count(clients.push(client)) == attached_count(
            clients,
        ) + 1,
{
    assert(clients.push(client).drop_last() == clients);
}

/// A client that is attached no longer still gets what was queued for it, message by message, and
/// then its writer stops; behind that nothing is left of it.
pub proof fn law_a_leaving_client_gets_its_queue(state: SessionState, i: int)
    requires
        0 <= i < state.leaving.len(),
        forall|k: int| 0 <= k < i ==> (#[trigger] state.leaving[k]).id != state.leaving[i].id,
        forall|k: int|
            0 <= k < state.clients.len() ==> (#[trigger] state.clients[k]).id
                != state.leaving[i].id,
    ensures
        ({
            let client = state.leaving[i];
            let (after, step) = state.delivering(client.id);
            &&& client.queue.len() > 0 ==> step == DeliveryStep::Deliver(client.queue[0])
                && after.leaving == state.leaving.update(
                i,
                ClientState { queue: client.queue.drop_first(), ..client },
            )
            &&& client.queue.len() == 0 ==> step == DeliveryStep::Finished && after.leaving
                == state.leaving.remove(i)
            &&& after.clients == state.clients
            &&& after.history == state.history
        }),
{
    lemma_not_found(state.clients, state.leaving[i].id, 0);
    lemma_found_first(state.leaving, i, 0);
}

proof fn lemma_not_found(clients: Seq<ClientState>, id: u64, from: int)
    requires
        0 <= from,
        forall|k: int| 0 <= k < clients.len() ==> (#[trigger] clients[k]).id != id,
    ensures
        position(clients, id, from) is None,
    decreases clients.len() - from,
{
    if from < clients.len() {
        assert(clients[from].id != id);
        lemma_not_found(clients, id, from + 1);
    }
}

proof fn lemma_found_first(clients: Seq<ClientState>, i: int, from: int)
    requires
        0 <= from <= i < clients.len(),
        forall|k: int| 0 <= k < i ==> (#[trigger] clients[k]).id != clients[i].id,
    ensures
        position(clients, clients[i].id, from) == Some(i),
    decreases i - from,
{
    if from < i {
        assert(clients[from].id != clients[i].id);
        lemma_found_first(clients, i, from + 1);
    }
}

/// A client whose pipe is broken is written to no more, and goes with the next message; the others
/// stay as they are.
pub proof fn law_a_broken_client_goes_with_the_next_message(
    state: SessionState,
    i: int,
    msg: protocol::ServerMessage,
)
    requires
        state.valid(),
        0 <= i < state.clients.len(),
    ensures
        ({
            let id = state.clients[i].id;
            let broken = state.unwritten(id);
            &&& broken.clients.len() == state.clients.len()
            &&& forall|k: int|
                0 <= k < state.clients.len() && k != i ==> (#[trigger] broken.clients[k])
                    == state.clients[k]
            &&& broken.delivering(id) == (broken, DeliveryStep::Wait)
            &&& broken.leaving == state.leaving
            &&& forall|k: int|
                0 <= k < broken.told(msg).clients.len() ==> (#[trigger] broken.told(
                    msg,
                ).clients[k]).id != id
        }),
{
    let id = state.clients[i].id;
    let broken = state.unwritten(id);
    lemma_found_in_place(state.clients, i, 0);
    let client = ClientState { id, queue: Seq::empty(), stage: Stage::Broken };
    lemma_update_ids(state.clients, i, client, state.next_id);
    assert(broken.clients == state.clients.update(i, client));
    lemma_found_in_place(broken.clients, i, 0);
    lemma_only_takers_are_reached(broken.clients, msg, id);
}

proof fn lemma_only_takers_are_reached(
    clients: Seq<ClientState>,
    msg: protocol::ServerMessage,
    id: u64,
)
    requires
        forall|k: int|
            0 <= k < clients.len() && (#[trigger] clients[k]).id == id ==> clients[k].stage
                == Stage::Broken,
    ensures
        forall|k: int|
            0 <= k < reached(clients, msg).len() ==> (#[trigger] reached(clients, msg)[k]).id != id,
    decreases clients.len(),
{
    if clients.len() > 0 {
        let front = clients.drop_last();
        assert forall|k: int|
            0 <= k < front.len() && (#[trigger] front[k]).id == id implies front[k].stage
            == Stage::Broken by {
            assert(clients[k].id == id);
        }
        lemma_only_takers_are_reached(front, msg, id);
        assert(clients[clients.len() - 1] == clients.last());
        assert forall|k: int| 0 <= k < reached(clients, msg).len() implies (#[trigger] reached(
            clients,
            msg,
        )[k]).id != id by {
            if k < reached(front, msg).len() {
                assert(reached(clients, msg)[k] == reached(front, msg)[k]);
            }
        }
    }
}

/// What a message does to a client depends on that client alone, whoever else there is. One that is
/// attached gets it, last in its queue; with 1024 messages there it is dropped, and keeps the ones
/// that it has. One that the screen is on its way to gets the output, and no other message. One
/// whose pipe is broken is dropped.
pub proof fn law_a_message_meets_each_client_alone(
    state: SessionState,
    client: ClientState,
    msg: protocol::ServerMessage,
)
    ensures
        ({
            let all = SessionState { clients: state.clients.push(client), ..state }.told(msg);
            let rest = state.told(msg);
            let full = client.queue.len() >= 1024;
            let with = ClientState {
                id: client.id,
                queue: client.queue.push(msg),
                stage: client.stage,
            };
            &&& client.stage == Stage::Open && !full ==> all.clients == rest.clients.push(with)
                && all.leaving == rest.leaving
            &&& client.stage == Stage::Open && full ==> all.clients == rest.clients && all.leaving
                == rest.leaving.push(client)
            &&& client.stage == Stage::Joining && msg is Output && !full ==> all.clients
                == rest.clients.push(with) && all.leaving == rest.leaving
            &&& client.stage == Stage::Joining && msg is Output && full ==> all.clients
                == rest.clients && all.leaving == rest.leaving
            &&& client.stage == Stage::Joining && !(msg is Output) ==> all.clients
                == rest.clients.push(client) && all.leaving == rest.leaving
            &&& client.stage == Stage::Broken ==> all.clients == rest.clients && all.leaving
                == rest.leaving
        }),
        (SessionState { clients: Seq::empty(), ..state }).told(msg).clients == Seq::<
            ClientState,
        >::empty(),
        (SessionState { clients: Seq::empty(), ..state }).told(msg).leaving == state.leaving,
{
    let all = state.clients.push(client);
    assert(all.drop_last() == state.clients);
    assert((state.leaving + stuck(state.clients)).push(client) == state.leaving + stuck(
        state.clients,
    ).push(client));
    assert(state.leaving + Seq::<ClientState>::empty() == state.leaving);
}

/// The same of one client that is dropped, and of all of them: the client with the id goes, and no
/// other; those that are attached go, and those that the screen is on its way to do not. Whoever
/// was attached and has a writer still gets what was queued.
pub proof fn law_leaving_meets_each_client_alone(
    state: SessionState,
    client: ClientState,
    id: u64,
)
    ensures
        ({
            let all = SessionState { clients: state.clients.push(client), ..state };
            let goes = if client.stage == Stage::Open {
                seq![client]
            } else {
                Seq::empty()
            };
            &&& client.id != id ==> all.without(id).clients == state.without(id).clients.push(
                client,
            ) && all.without(id).leaving == state.without(id).leaving
            &&& client.id == id ==> all.without(id).clients == state.without(id).clients
                && all.without(id).leaving == state.without(id).leaving + goes
            &&& client.stage == Stage::Joining ==> all.alone().clients
                == state.alone().clients.push(client) && all.alone().leaving
                == state.alone().leaving
            &&& client.stage != Stage::Joining ==> all.alone().clients == state.alone().clients
                && all.alone().leaving == state.alone().leaving + goes
        }),
        (SessionState { clients: Seq::empty(), ..state }).without(id).clients.len() == 0,
        (SessionState { clients: Seq::empty(), ..state }).alone().clients.len() == 0,
        (SessionState { clients: Seq::empty(), ..state }).without(id).leaving == state.leaving,
        (SessionState { clients: Seq::empty(), ..state }).alone().leaving == state.leaving,
        state.hung_up(Some(id)) == state.without(id),
        state.hung_up(None) == state,
{
    let all = state.clients.push(client);
    assert(all.drop_last() == state.clients);
    assert(state.leaving + Seq::<ClientState>::empty() == state.leaving);
    let parted = parting(state.clients, id);
    let opened = open_ones(state.clients);
    assert(state.leaving + parted.push(client) == state.leaving + parted + seq![client]);
    assert(state.leaving + opened.push(client) == state.leaving + opened + seq![client]);
    assert(state.leaving + parted + Seq::<ClientState>::empty() == state.leaving + parted);
    assert(state.leaving + opened + Seq::<ClientState>::empty() == state.leaving + opened);
}

/// Output that the model does not take to its end: the model keeps what came before the byte that it
/// refused, and nothing goes out to anybody.
pub proof fn law_output_stops_at_a_byte_that_is_refused(
    state: SessionState,
    front: Seq<u8>,
    byte: u8,
    back: Seq<u8>,
)
    requires
        state.history.len() > 0,
        terminal::takes_all(state.history, front),
        !terminal::takes_byte(
            terminal::SCROLLBACK_LINES as nat,
            terminal::fed(state.history, front),
            byte,
        ),
    ensures
        ({
            let after = state.with_output(front + seq![byte] + back);
            &&& after.history.drop_last() == state.history.drop_last()
            &&& after.history.last() == (
                state.history.last().0,
                state.history.last().1,
                state.history.last().2 + front,
            )
            &&& after.clients == state.clients
            &&& after.leaving == state.leaving
            &&& after.size == state.size
        }),
{
    terminal::lemma_taken_up_to(state.history, front, byte, back);
    let bytes = front + seq![byte] + back;
    assert(bytes.take(front.len() as int) == front);
    let fed = terminal::fed(state.history, front);
    assert(fed.drop_last() == state.history.drop_last());
}

/// A writer whose client is not there stops, and nothing changes; one that fails on a client that is
/// leaving takes what is left of it along.
pub proof fn law_writers_of_nobody_stop(state: SessionState, id: u64, i: int)
    requires
        forall|k: int| 0 <= k < state.clients.len() ==> (#[trigger] state.clients[k]).id != id,
    ensures
        (forall|k: int| 0 <= k < state.leaving.len() ==> (#[trigger] state.leaving[k]).id != id)
            ==> state.delivering(id) == (state, DeliveryStep::Finished) && state.unwritten(id)
            == state,
        0 <= i < state.leaving.len() && state.leaving[i].id == id && (forall|k: int|
            0 <= k < i ==> (#[trigger] state.leaving[k]).id != id) ==> state.unwritten(id).leaving
            == state.leaving.remove(i) && state.unwritten(id).clients == state.clients,
{
    lemma_not_found(state.clients, id, 0);
    if forall|k: int| 0 <= k < state.leaving.len() ==> (#[trigger] state.leaving[k]).id != id {
        lemma_not_found(state.leaving, id, 0);
    }
    if 0 <= i < state.leaving.len() && state.leaving[i].id == id && (forall|k: int|
        0 <= k < i ==> (#[trigger] state.leaving[k]).id != id) {
        lemma_found_first(state.leaving, i, 0);
    }
}

/// What a session shows and says of itself when it is asked directly.
pub proof fn law_a_session_is_what_it_shows(
    session: &Session,
    text: String,
    screen: Option<Vec<u8>>,
    size: Size,
    n: u32,
    room: bool,
)
    requires
        session.wf(),
        call_ensures(Session::capture_text, (session,), text),
        call_ensures(Session::repaint, (session,), screen),
        call_ensures(Session::size, (session,), size),
        call_ensures(Session::client_count, (session,), n),
        call_ensures(Session::can_attach, (session,), room),
    ensures
        text@ == terminal::plain_screen(10_000, session@.history),
        screen matches Some(bytes) ==> bytes@ == terminal::formatted_screen(
            10_000,
            session@.history,
        ),
        screen is Some <==> terminal::showable(session@.history),
        size == session@.size,
        session@.history.last().0 == size.rows && session@.history.last().1 == size.cols,
        (forall|i: int|
            0 <= i < session@.clients.len() ==> (#[trigger] session@.clients[i]).stage
                != Stage::Joining) && session@.clients.len() <= u32::MAX ==> n
            == session@.clients.len(),
        room <==> session@.next_id < 0xffff_ffff_ffff_ffff,
{
    Session::lemma_wf(*session);
    if forall|i: int|
        0 <= i < session@.clients.len() ==> (#[trigger] session@.clients[i]).stage
            != Stage::Joining {
        lemma_all_counted(session@.clients);
    }
}

proof fn lemma_all_counted(clients: Seq<ClientState>)
    requires
        forall|i: int| 0 <= i < clients.len() ==> (#[trigger] clients[i]).stage != Stage::Joining,
    ensures
        attached_count(clients) == clients.len(),
    decreases clients.len(),
{
    if clients.len() > 0 {
        let front = clients.drop_last();
        assert forall|i: int| 0 <= i < front.len() implies (#[trigger] front[i]).stage
            != Stage::Joining by {
            assert(clients[i].stage != Stage::Joining);
        }
        lemma_all_counted(front);
        assert(clients[clients.len() - 1].stage != Stage::Joining);
    }
}

/// What is read of a client is what is acted on, and what is to be done is what is said.
pub proof fn law_nothing_is_lost_between_reading_and_acting(
    msg: ClientMsg,
    error: ReadError,
    reply: ServerMsg,
    typed: Vec<u8>,
    size: Size,
    resize: Option<Size>,
)
    ensures
        read_of(Ok::<ClientMsg, ReadError>(msg)) == Ok::<protocol::ClientMessage, ReadError>(msg@),
        read_of(Err::<ClientMsg, ReadError>(error)) == Err::<protocol::ClientMessage, ReadError>(
            error,
        ),
        Action::Next@ == ActionStep::Next,
        Action::ResizePty(size)@ == ActionStep::ResizePty(size),
        (Action::Greet { greeting: reply, resize })@ == (ActionStep::Greet {
            greeting: reply@,
            resize,
        }),
        (Action::CannotShow { resize })@ == (ActionStep::CannotShow { resize }),
        Action::WritePty(typed)@ == ActionStep::WritePty(typed@),
        Action::Reply(reply)@ == ActionStep::Reply(reply@),
        Action::PauseAndClear@ == ActionStep::PauseAndClear,
        Action::Kill@ == ActionStep::Kill,
        Action::HangUp@ == ActionStep::HangUp,
        Delivery::Deliver(reply)@ == DeliveryStep::Deliver(reply@),
        Delivery::Wait@ == DeliveryStep::Wait,
        Delivery::Finished@ == DeliveryStep::Finished,
{
}

/// How much is read at once, how long a queue may be, and how long the pauses are.
pub proof fn law_limits_of_a_session()
    ensures
        PTY_CHUNK == 8192,
        OUTBOUND_QUEUE == 1024,
        DETACH_PAUSE == 200,
        EXIT_PAUSE == 300,
        ACCEPT_PAUSE == 50,
{
}

/// What is said of a session that does not start, and what the log says of it.
pub proof fn law_sessions_that_do_not_start_are_named(
    name: &str,
    program: &str,
    pid: u32,
    running: String,
    failed: String,
    line: String,
)
    requires
        call_ensures(already_running_message, (name,), running),
        call_ensures(failed_to_start_message, (program,), failed),
        call_ensures(log, (pid, program), line),
    ensures
        running@ == "session "@ + text::quoted_text(name@) + " is already running"@,
        failed@ == "failed to start "@ + text::quoted_text(program@),
        line@ == "["@ + text::decimal_text(pid as nat) + "] "@ + program@,
{
}

/// A server runs what it was told, in the session that it was told: the pipe carries the user and
/// the name, the program is the first word, its arguments are the others, in order, the pty has at
/// least one cell each way, and the program can see the name of the session.
pub proof fn law_a_server_starts_what_it_was_told(
    sid: &str,
    name: &str,
    command: &Vec<String>,
    cols: u16,
    rows: u16,
    startup: Result<Startup, NameError>,
)
    requires
        command@.len() >= 1,
        call_ensures(run, (sid, name, command, cols, rows), startup),
    ensures
        startup is Ok <==> session::valid_name(name@),
        startup matches Err(e) ==> session::name_error(name@) == Some(e),
        startup matches Ok(st) ==> {
            &&& st.path@ == "\\\\.\\pipe\\wmux."@ + sid@ + "."@ + name@
            &&& st.program@ == command@[0]@
            &&& st.args@.len() == command@.len() - 1
            &&& forall|i: int| 0 <= i < st.args@.len() ==> (#[trigger] st.args@[i])@ == command@[i
                + 1]@
            &&& st.size.cols == (if cols == 0 {
                1
            } else {
                cols
            })
            &&& st.size.rows == (if rows == 0 {
                1
            } else {
                rows
            })
            &&& st.environment@.len() == 2
            &&& st.environment@[0].0@ == "WMUX_SESSION"@ && st.environment@[0].1@ == name@
            &&& st.environment@[1].0@ == "TERM"@ && st.environment@[1].1@ == "xterm-256color"@
        },
{
    session::law_the_path_of_a_session(sid@, name@);
    if let Ok(st) = startup {
        let all = text::texts(command@);
        assert(text::texts(st.args@).len() == all.skip(1).len());
        assert forall|i: int| 0 <= i < st.args@.len() implies (#[trigger] st.args@[i])@ == command@[i
            + 1]@ by {
            assert(text::texts(st.args@)[i] == all.skip(1)[i]);
        }
    }
}

/// The exit code of a session is that of its child, bit for bit: different codes stay different,
/// those that are not negative are themselves, and one that is not known is -1.
pub proof fn law_the_exit_code_is_that_of_the_child(status: u32, code: i32, unknown: i32)
    requires
        call_ensures(exit_code, (Some(status),), code),
        call_ensures(exit_code, (None,), unknown),
    ensures
        status <= 0x7fff_ffff ==> code == status,
        status > 0x7fff_ffff ==> code == status - 0x1_0000_0000,
        unknown == -1,
{
}

/// A session starts with an empty screen of at least one cell each way, without clients, and with
/// the words of the command, a space between them.
pub proof fn law_a_session_starts_empty(command: &Vec<String>, size: Size, session: Session)
    requires
        call_ensures(Session::new, (command, size), session),
    ensures
        session@.clients.len() == 0,
        session@.leaving.len() == 0,
        session@.history.len() == 1,
        session@.history[0].2.len() == 0,
        session@.history[0].0 == session@.size.rows,
        session@.history[0].1 == session@.size.cols,
        session@.size.cols == (if size.cols == 0 {
            1
        } else {
            size.cols
        }),
        session@.size.rows == (if size.rows == 0 {
            1
        } else {
            size.rows
        }),
        session@.command == text::joined(text::texts(command@), " "@),
{
}

/// Who attaches is greeted with the screen of the session at the size of the new terminal, and the
/// pty gets that size where it is another one. The client is the newest, with nothing in its queue.
pub proof fn law_attaching_hands_out_the_screen(
    state: SessionState,
    cols: u16,
    rows: u16,
)
    requires
        state.valid(),
        state.next_id < u64::MAX,
    ensures
        ({
            let (after, id, action) = state.serving(
                None,
                Ok(protocol::ClientMessage::Attach { cols, rows }),
            );
            let wanted = Size {
                cols: if cols == 0 {
                    1
                } else {
                    cols
                },
                rows: if rows == 0 {
                    1
                } else {
                    rows
                },
            };
            let resize = if wanted == state.size {
                None
            } else {
                Some(wanted)
            };
            &&& after.size == wanted
            &&& after.leaving == state.leaving
            &&& action is Greet ==> after.next_id == state.next_id + 1
            &&& after.history.last().0 == wanted.rows && after.history.last().1 == wanted.cols
            &&& terminal::showable(after.history) ==> action == ActionStep::Greet {
                greeting: protocol::ServerMessage::Repaint(terminal::shown(after.history)),
                resize,
            } && id == Some(state.next_id) && after.clients == state.clients.push(
                ClientState { id: state.next_id, queue: Seq::empty(), stage: Stage::Joining },
            )
            &&& !terminal::showable(after.history) ==> action == ActionStep::CannotShow { resize }
                && id is None && after.clients == state.clients
        }),
{
}

/// How the call serves a connection, attached or not: input is typed, questions are answered, a kill
/// kills, and a detach and a connection that drops hang up; none of them changes the session or whom
/// the connection belongs to.
pub proof fn law_a_connection_is_served(
    session: &mut Session,
    connection: &mut Connection,
    read: Result<ClientMsg, ReadError>,
    action: Action,
)
    requires
        call_ensures(Session::serve_client, (session, connection, read), action),
    ensures
        read matches Ok(ClientMsg::Input(bytes)) ==> (action matches Action::WritePty(typed) && typed@
            == bytes@),
        read matches Ok(ClientMsg::Detach) ==> action is HangUp,
        read matches Ok(ClientMsg::Kill) ==> action is Kill,
        read is Err ==> action is HangUp,
        read matches Ok(ClientMsg::Capture) ==> (action matches Action::Reply(reply) && reply@
            == protocol::ServerMessage::CaptureReply(
            terminal::plain_screen(10_000, old(session)@.history),
        )),
        read matches Ok(ClientMsg::Info) ==> (action matches Action::Reply(
            ServerMsg::InfoReply { cols, rows, clients, command },
        ) && cols == old(session)@.size.cols && rows == old(session)@.size.rows && clients
            == attached_count(old(session)@.clients) as u32 && command@ == old(session)@.command),
        read matches Ok(ClientMsg::DetachClients) ==> action is PauseAndClear && final(session)@
            == old(session)@.told(protocol::ServerMessage::Detached),
        !(read matches Ok(ClientMsg::Attach { .. })) ==> final(connection).attached() == old(
            connection,
        ).attached(),
        !(read matches Ok(ClientMsg::Attach { .. })) && !(read matches Ok(
            ClientMsg::Resize { .. },
        )) && !(read matches Ok(ClientMsg::DetachClients)) ==> final(session)@ == old(session)@,
{
    if let Ok(ClientMsg::Info) = read {
        assert(action@ == ActionStep::Reply(old(session)@.info()));
    }
}

/// An attach over a connection answers with the screen, and makes the connection that of the new
/// client; a resize gives the pty its size where it is another one.
pub proof fn law_attaching_and_resizing_over_a_connection(
    session: &mut Session,
    connection: &mut Connection,
    cols: u16,
    rows: u16,
    attached: Action,
)
    requires
        old(session).wf(),
        old(session)@.next_id < u64::MAX,
        old(connection).attached() is None,
        call_ensures(
            Session::serve_client,
            (session, connection, Ok(ClientMsg::Attach { cols, rows })),
            attached,
        ),
    ensures
        attached is Greet || attached is CannotShow,
        attached matches Action::Greet { greeting, resize } ==> greeting@
            == protocol::ServerMessage::Repaint(
            terminal::formatted_screen(10_000, final(session)@.history),
        ) && final(connection).attached() == Some(old(session)@.next_id)
            && final(session)@.clients.len() == old(session)@.clients.len() + 1
            && final(session)@.clients.last().id == old(session)@.next_id,
        final(session)@.size.cols == (if cols == 0 {
            1
        } else {
            cols
        }),
        final(session)@.size.rows == (if rows == 0 {
            1
        } else {
            rows
        }),
{
    Session::lemma_wf(*old(session));
    law_attaching_hands_out_the_screen(old(session)@, cols, rows);
}

/// The exit code of the child reaches every client that is attached, last in its queue, and as it
/// is.
pub proof fn law_an_exit_reaches_every_client(session: &mut Session, code: i32, i: int)
    requires
        call_ensures(Session::child_exited, (session, code), ()),
        forall|k: int|
            0 <= k < old(session)@.clients.len() ==> (#[trigger] old(session)@.clients[k]).stage
                == Stage::Open && old(session)@.clients[k].queue.len() < 1024,
        0 <= i < old(session)@.clients.len(),
    ensures
        final(session)@.clients.len() == old(session)@.clients.len(),
        final(session)@.clients[i].queue == old(session)@.clients[i].queue.push(
            protocol::ServerMessage::Exited(code),
        ),
        final(session)@.history == old(session)@.history,
{
    law_every_client_gets_a_message(old(session)@, protocol::ServerMessage::Exited(code));
}

/// Output goes into the model and to every client, whole, and that is said, exactly where the model
/// takes it; a message to all is queued for all.
pub proof fn law_output_is_taken_in(session: &mut Session, chunk: &[u8], whole: bool, i: int)
    requires
        old(session).wf(),
        call_ensures(Session::output, (session, chunk), whole),
        terminal::takes_all(old(session)@.history, chunk@),
        forall|k: int|
            0 <= k < old(session)@.clients.len() ==> (#[trigger] old(session)@.clients[k]).stage
                == Stage::Open && old(session)@.clients[k].queue.len() < 1024,
        0 <= i < old(session)@.clients.len(),
    ensures
        whole,
        final(session)@.history.last().2 == old(session)@.history.last().2 + chunk@,
        final(session)@.clients[i].queue == old(session)@.clients[i].queue.push(
            protocol::ServerMessage::Output(chunk@),
        ),
{
    Session::lemma_wf(*old(session));
    law_output_goes_to_the_model_and_to_every_client(old(session)@, chunk@);
}

/// Output that is not taken is said not to be.
pub proof fn law_refused_output_is_told(session: &mut Session, chunk: &[u8], whole: bool)
    requires
        call_ensures(Session::output, (session, chunk), whole),
    ensures
        whole <==> terminal::takes_all(old(session)@.history, chunk@),
        final(session)@ == old(session)@.with_output(chunk@),
{
}

/// A message goes to every client that is attached, as it is.
pub proof fn law_a_broadcast_reaches_every_client(session: &mut Session, msg: &ServerMsg, i: int)
    requires
        call_ensures(Session::broadcast, (session, msg), ()),
        forall|k: int|
            0 <= k < old(session)@.clients.len() ==> (#[trigger] old(session)@.clients[k]).stage
                == Stage::Open && old(session)@.clients[k].queue.len() < 1024,
        0 <= i < old(session)@.clients.len(),
    ensures
        final(session)@.clients.len() == old(session)@.clients.len(),
        final(session)@.clients[i].queue == old(session)@.clients[i].queue.push(msg@),
{
    law_every_client_gets_a_message(old(session)@, msg@);
}

/// A session that is given a size has it, with a cell each way at least, and says so exactly where
/// it is another one.
pub proof fn law_a_session_takes_its_size(
    session: &mut Session,
    cols: u16,
    rows: u16,
    changed: Option<Size>,
)
    requires
        call_ensures(Session::resize, (session, cols, rows), changed),
    ensures
        final(session)@.size.cols == (if cols == 0 {
            1
        } else {
            cols
        }),
        final(session)@.size.rows == (if rows == 0 {
            1
        } else {
            rows
        }),
        changed is Some <==> final(session)@.size != old(session)@.size,
        changed matches Some(size) ==> size == final(session)@.size && final(session)@.history
            == old(session)@.history.push((size.rows, size.cols, Seq::<u8>::empty())),
        changed is None ==> final(session)@ == old(session)@,
        final(session)@.clients == old(session)@.clients,
{
}

/// A client that comes is the last, with an id that nobody has, and gets its screen first.
pub proof fn law_a_client_comes_last(session: &mut Session, id: u64, i: int)
    requires
        old(session).wf(),
        old(session)@.next_id < u64::MAX,
        call_ensures(Session::attach, (session,), id),
    ensures
        final(session)@.clients == old(session)@.clients.push(
            ClientState { id, queue: Seq::empty(), stage: Stage::Joining },
        ),
        0 <= i < old(session)@.clients.len() ==> old(session)@.clients[i].id != id,
        0 <= i < old(session)@.leaving.len() ==> old(session)@.leaving[i].id != id,
        final(session)@.next_id > id,
        final(session)@.history == old(session)@.history,
{
    Session::lemma_wf(*old(session));
}

/// A client that goes leaves the others where they are, and the session running; hanging up is the
/// same for the client that the connection belongs to, and nothing where there is none.
pub proof fn law_a_client_goes_alone(
    session: &mut Session,
    connection: Connection,
    i: int,
)
    requires
        old(session).wf(),
        0 <= i < old(session)@.clients.len(),
        call_ensures(Session::hang_up, (session, connection), ()),
    ensures
        connection.attached() == Some(old(session)@.clients[i].id) ==> final(session)@.clients
            == old(session)@.clients.remove(i),
        connection.attached() is None ==> final(session)@ == old(session)@,
        final(session)@.history == old(session)@.history,
        final(session)@.size == old(session)@.size,
        final(session)@.command == old(session)@.command,
{
    Session::lemma_wf(*old(session));
    law_detaching_leaves_the_session_running(old(session)@, i);
}

/// The same of a client that is dropped by its id.
pub proof fn law_a_client_is_dropped_alone(session: &mut Session, i: int)
    requires
        old(session).wf(),
        0 <= i < old(session)@.clients.len(),
        call_ensures(Session::detach, (session, old(session)@.clients[i].id), ()),
    ensures
        final(session)@.clients == old(session)@.clients.remove(i),
        old(session)@.clients[i].stage == Stage::Open ==> final(session)@.leaving == old(
            session,
        )@.leaving.push(old(session)@.clients[i]),
        old(session)@.clients[i].stage != Stage::Open ==> final(session)@.leaving == old(
            session,
        )@.leaving,
{
    Session::lemma_wf(*old(session));
    law_detaching_leaves_the_session_running(old(session)@, i);
}

/// When the clients are cleared, nobody stays that was attached, and everybody that was not does.
pub proof fn law_clearing_drops_those_attached(session: &mut Session)
    requires
        call_ensures(Session::clear_clients, (session,), ()),
    ensures
        final(session)@ == old(session)@.alone(),
        attached_count(final(session)@.clients) == 0,
        final(session)@.history == old(session)@.history,
{
    lemma_nobody_attached(old(session)@.clients);
}

proof fn lemma_nobody_attached(clients: Seq<ClientState>)
    ensures
        attached_count(joining_ones(clients)) == 0,
    decreases clients.len(),
{
    if clients.len() > 0 {
        lemma_nobody_attached(clients.drop_last());
        let front = joining_ones(clients.drop_last());
        assert(front.push(clients.last()).drop_last() == front);
    }
}

/// A writer gets the first message of its client, if there is one, and only that leaves the queue.
pub proof fn law_a_writer_gets_the_first_message(session: &mut Session, i: int, delivery: Delivery)
    requires
        old(session).wf(),
        0 <= i < old(session)@.clients.len(),
        call_ensures(
            Session::next_message,
            (session, old(session)@.clients[i].id),
            delivery,
        ),
    ensures
        ({
            let client = old(session)@.clients[i];
            &&& client.stage == Stage::Open && client.queue.len() > 0 ==> (
            delivery matches Delivery::Deliver(msg) && msg@ == client.queue[0])
                && final(session)@.clients[i].queue == client.queue.skip(1)
            &&& client.stage != Stage::Open || client.queue.len() == 0 ==> delivery is Wait
                && final(session)@ == old(session)@
            &&& final(session)@.clients.len() == old(session)@.clients.len()
        }),
{
    Session::lemma_wf(*old(session));
    lemma_found_in_place(old(session)@.clients, i, 0);
    let client = old(session)@.clients[i];
    if client.queue.len() > 0 {
        assert(client.queue.drop_first() == client.queue.skip(1));
    }
}

/// A client whose writer failed gets nothing more.
pub proof fn law_a_failed_writer_breaks_its_client(session: &mut Session, i: int)
    requires
        old(session).wf(),
        0 <= i < old(session)@.clients.len(),
        call_ensures(Session::writer_failed, (session, old(session)@.clients[i].id), ()),
    ensures
        final(session)@.clients[i].stage == Stage::Broken,
        final(session)@.clients[i].queue.len() == 0,
        final(session)@.clients[i].id == old(session)@.clients[i].id,
        final(session)@.clients.len() == old(session)@.clients.len(),
        final(session)@.leaving == old(session)@.leaving,
{
    Session::lemma_wf(*old(session));
    lemma_found_in_place(old(session)@.clients, i, 0);
}

/// A client is registered when its screen is out, once, and then gets a writer.
pub proof fn law_a_greeted_client_is_attached(
    session: &mut Session,
    connection: &Connection,
    i: int,
    started: Option<u64>,
)
    requires
        old(session).wf(),
        0 <= i < old(session)@.clients.len(),
        connection.attached() == Some(old(session)@.clients[i].id),
        call_ensures(Session::greeted, (session, connection), started),
    ensures
        ({
            let client = old(session)@.clients[i];
            &&& client.stage == Stage::Joining ==> started == Some(client.id)
                && final(session)@.clients == old(session)@.clients.update(
                i,
                ClientState { id: client.id, queue: client.queue, stage: Stage::Open },
            )
            &&& client.stage != Stage::Joining ==> started is None && final(session)@ == old(
                session,
            )@
            &&& final(session)@.history == old(session)@.history
        }),
{
    Session::lemma_wf(*old(session));
    lemma_found_in_place(old(session)@.clients, i, 0);
}

/// A connection over which nothing was said belongs to nobody.
pub proof fn law_a_new_connection_belongs_to_nobody(connection: Connection)
    requires
        call_ensures(Connection::new, (), connection),
    ensures
        connection.attached() is None,
{
}

} // verus!
