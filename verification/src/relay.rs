//! The relay: its registry of open rooms and the decisions it takes for each
//! connection.
//!
//! A connection first sends one message. `Send` opens a room under the
//! announced code and keeps the connection as that room's sender. `Get` looks
//! the code up: an unknown code is answered with an error; a known one with an
//! approval request. Any other first message ends the connection. On approval
//! the room's sender is told `Ready`, as many chunks as the file's size gives
//! are moved from the sender to the receiver, and the room is closed. The sockets stay outside this module: rooms refer
//! to their sender's connection by a number.

use vstd::prelude::*;
use vstd::string::*;
use crate::messages::{Message, MessageView};
use crate::utils::{calc_chunks, chunk_count};

verus! {

/// The relay server.
pub struct Relay {}

impl Relay {
    pub fn new() -> (r: Relay) {
        Relay {}
    }
}

/// How long a room stays open before the clean-up closes it: one hour, in
/// nanoseconds of the relay's clock.
pub const ROOM_LIFETIME_NANOS: u64 = 3_600_000_000_000;

/// An open room.
pub struct RoomInfo {
    /// The number by which the relay knows the sender's connection.
    pub sender: u64,
    /// The sender's network address, as text.
    pub sender_addr: String,
    pub filename: String,
    pub size: u64,
    /// When the room was opened, in nanoseconds of the relay's clock.
    pub opened: u64,
}

/// The mathematical value of a room.
pub struct RoomView {
    pub sender: u64,
    pub sender_addr: Seq<char>,
    pub filename: Seq<char>,
    pub size: u64,
    pub opened: u64,
}

impl View for RoomInfo {
    type V = RoomView;

    open spec fn view(&self) -> RoomView {
        RoomView {
            sender: self.sender,
            sender_addr: self.sender_addr@,
            filename: self.filename@,
            size: self.size,
            opened: self.opened,
        }
    }
}

/// Whether a room opened at `opened` is still young at `now`: less than an
/// hour has passed (no time has passed when `now` comes before `opened`).
pub open spec fn is_fresh(opened: u64, now: u64) -> bool {
    now < opened || now - opened < ROOM_LIFETIME_NANOS
}

/// The rooms of `rooms` that are still young at `now`.
pub open spec fn fresh_rooms(rooms: Map<Seq<char>, RoomView>, now: u64) -> Map<Seq<char>, RoomView> {
    Map::new(|k: Seq<char>| rooms.contains_key(k) && is_fresh(rooms[k].opened, now), |k: Seq<char>| rooms[k])
}

/// The open rooms, by code.
pub struct Rooms {
    codes: Vec<String>,
    infos: Vec<RoomInfo>,
}

impl Rooms {
    /// The codes, as character sequences.
    pub closed spec fn code_seq(&self) -> Seq<Seq<char>> {
        self.codes@.map_values(|c: String| c@)
    }

    /// The registry is well formed: one room per code.
    pub closed spec fn wf(&self) -> bool {
        &&& self.codes@.len() == self.infos@.len()
        &&& self.code_seq().no_duplicates()
    }

    /// The position of `code`.
    closed spec fn position(&self, code: Seq<char>) -> int {
        choose|i: int| 0 <= i < self.codes@.len() && self.codes@[i]@ == code
    }

    closed spec fn has(&self, code: Seq<char>) -> bool {
        exists|i: int| 0 <= i < self.codes@.len() && self.codes@[i]@ == code
    }
}

impl View for Rooms {
    type V = Map<Seq<char>, RoomView>;

    closed spec fn view(&self) -> Map<Seq<char>, RoomView> {
        Map::new(|k: Seq<char>| self.has(k), |k: Seq<char>| self.infos@[self.position(k)]@)
    }
}

impl Rooms {
    proof fn lemma_at(&self, i: int)
        requires
            self.wf(),
            0 <= i < self.codes@.len(),
        ensures
            self@.contains_key(self.codes@[i]@),
            self@[self.codes@[i]@] == self.infos@[i]@,
            self.position(self.codes@[i]@) == i,
    {
        let k = self.codes@[i]@;
        assert(self.has(k));
        let j = self.position(k);
        assert(self.code_seq()[i] == k);
        assert(self.code_seq()[j] == k);
    }

    proof fn lemma_removed(old_rooms: &Rooms, new_rooms: &Rooms, i: int)
        requires
            old_rooms.wf(),
            0 <= i < old_rooms.codes@.len(),
            new_rooms.codes@ == old_rooms.codes@.remove(i),
            new_rooms.infos@ == old_rooms.infos@.remove(i),
        ensures
            new_rooms.wf(),
            new_rooms@ == old_rooms@.remove(old_rooms.codes@[i]@),
    {
        let c = old_rooms.codes@[i]@;
        let n = old_rooms.codes@.len() as int;
        assert forall|j: int| 0 <= j < n - 1 implies #[trigger] new_rooms.codes@[j] == old_rooms.codes@[
            if j < i { j } else { j + 1 }] && new_rooms.infos@[j] == old_rooms.infos@[if j < i { j } else { j + 1 }] by {}
        assert forall|a: int, b: int|
            0 <= a < new_rooms.code_seq().len() && 0 <= b < new_rooms.code_seq().len() && a != b
            implies new_rooms.code_seq()[a] != new_rooms.code_seq()[b] by {
            let a2 = if a < i { a } else { a + 1 };
            let b2 = if b < i { b } else { b + 1 };
            assert(new_rooms.codes@[a] == old_rooms.codes@[a2]);
            assert(new_rooms.codes@[b] == old_rooms.codes@[b2]);
            assert(old_rooms.code_seq()[a2] != old_rooms.code_seq()[b2]);
        }
        assert forall|k: Seq<char>| #[trigger] new_rooms@.contains_key(k) <==> old_rooms@.remove(c).contains_key(k) by {
            if new_rooms.has(k) {
                let j = choose|j: int| 0 <= j < new_rooms.codes@.len() && new_rooms.codes@[j]@ == k;
                let j2 = if j < i { j } else { j + 1 };
                assert(new_rooms.codes@[j] == old_rooms.codes@[j2]);
                old_rooms.lemma_at(j2);
                assert(old_rooms.code_seq()[j2] != old_rooms.code_seq()[i]);
            }
            if old_rooms.has(k) && k != c {
                let j2 = choose|j: int| 0 <= j < old_rooms.codes@.len() && old_rooms.codes@[j]@ == k;
                assert(j2 != i);
                let j = if j2 < i { j2 } else { j2 - 1 };
                assert(new_rooms.codes@[j] == old_rooms.codes@[j2]);
            }
        }
        assert forall|k: Seq<char>| #[trigger] new_rooms@.contains_key(k) implies new_rooms@[k] == old_rooms@.remove(c)[k] by {
            let j = choose|j: int| 0 <= j < new_rooms.codes@.len() && new_rooms.codes@[j]@ == k;
            let j2 = if j < i { j } else { j + 1 };
            new_rooms.lemma_at(j);
            old_rooms.lemma_at(j2);
        }
        assert(new_rooms@ =~= old_rooms@.remove(c));
    }

    /// An empty registry.
    pub fn new() -> (rooms: Rooms)
        ensures
            rooms.wf(),
            rooms@ == Map::<Seq<char>, RoomView>::empty(),
    {
        let rooms = Rooms { codes: Vec::new(), infos: Vec::new() };
        assert(rooms@ =~= Map::<Seq<char>, RoomView>::empty());
        rooms
    }

    /// Where `code` stands, if it has a room.
    fn find(&self, code: &String) -> (i: Option<usize>)
        requires
            self.wf(),
        ensures
            match i {
                Some(i) => i < self.codes@.len() && self.codes@[i as int]@ == code@,
                None => !self@.contains_key(code@),
            },
    {
        let mut i: usize = 0;
        while i < self.codes.len()
            invariant
                self.wf(),
                i <= self.codes@.len(),
                forall|j: int| 0 <= j < i ==> self.codes@[j]@ != code@,
            decreases self.codes@.len() - i,
        {
            if self.codes[i] == *code {
                return Some(i);
            }
            i = i + 1;
        }
        None
    }

    /// The room with `code`, if there is one.
    pub fn get(&self, code: &String) -> (room: Option<&RoomInfo>)
        requires
            self.wf(),
        ensures
            match room {
                Some(r) => self@.contains_key(code@) && self@[code@] == r@,
                None => !self@.contains_key(code@),
            },
    {
        match self.find(code) {
            Some(i) => {
                proof {
                    self.lemma_at(i as int);
                }
                Some(&self.infos[i])
            },
            None => None,
        }
    }

    /// Whether connection `sender` is the sender of the room with `code`;
    /// a kept sender's connection is of use only while this holds.
    pub fn is_sender(&self, code: &String, sender: u64) -> (b: bool)
        requires
            self.wf(),
        ensures
            b == (self@.contains_key(code@) && self@[code@].sender == sender),
    {
        match self.get(code) {
            Some(r) => r.sender == sender,
            None => false,
        }
    }

    /// Opens a room under `code`; a room that had the code is replaced.
    pub fn create_room(&mut self, code: String, room: RoomInfo)
        requires
            old(self).wf(),
        ensures
            final(self).wf(),
            final(self)@ == old(self)@.insert(code@, room@),
    {
        let ghost old_self = *self;
        match self.find(&code) {
            Some(i) => {
                self.infos.set(i, room);
                proof {
                    assert(self.codes@ == old_self.codes@);
                    assert(self.code_seq() =~= old_self.code_seq());
                    assert forall|k: Seq<char>| #[trigger] self@.contains_key(k) <==> old_self@.insert(code@, room@).contains_key(k) by {
                        assert(self.has(k) == old_self.has(k));
                        if k == code@ {
                            old_self.lemma_at(i as int);
                        }
                    }
                    assert forall|k: Seq<char>| #[trigger] self@.contains_key(k) implies self@[k] == old_self@.insert(code@, room@)[k] by {
                        let j = choose|j: int| 0 <= j < self.codes@.len() && self.codes@[j]@ == k;
                        self.lemma_at(j);
                        old_self.lemma_at(j);
                        if j != i {
                            assert(old_self.code_seq()[j] == old_self.codes@[j]@);
                            assert(old_self.code_seq()[i as int] == old_self.codes@[i as int]@);
                            assert(k != code@);
                            assert(self.infos@[j] == old_self.infos@[j]);
                        } else {
                            assert(self.infos@[j] == room);
                        }
                    }
                    assert(self@ =~= old_self@.insert(code@, room@));
                }
            },
            None => {
                let ghost c = code@;
                self.codes.push(code);
                self.infos.push(room);
                proof {
                    assert(self.code_seq() =~= old_self.code_seq().push(c));
                    assert forall|a: int, b: int|
                        0 <= a < self.code_seq().len() && 0 <= b < self.code_seq().len() && a != b
                        implies self.code_seq()[a] != self.code_seq()[b] by {
                        let n = old_self.codes@.len() as int;
                        if a == n && b < n {
                            old_self.lemma_at(b);
                        } else if b == n && a < n {
                            old_self.lemma_at(a);
                        }
                    }
                    let n = old_self.codes@.len() as int;
                    assert forall|k: Seq<char>| #[trigger] self@.contains_key(k) <==> old_self@.insert(c, room@).contains_key(k) by {
                        if k == c {
                            assert(self.codes@[n]@ == c);
                        } else if old_self.has(k) {
                            let j = choose|j: int| 0 <= j < old_self.codes@.len() && old_self.codes@[j]@ == k;
                            assert(self.codes@[j] == old_self.codes@[j]);
                        } else if self.has(k) {
                            let j = choose|j: int| 0 <= j < self.codes@.len() && self.codes@[j]@ == k;
                            assert(j != n);
                            assert(self.codes@[j] == old_self.codes@[j]);
                        }
                    }
                    assert forall|k: Seq<char>| #[trigger] self@.contains_key(k) implies self@[k] == old_self@.insert(c, room@)[k] by {
                        let j = choose|j: int| 0 <= j < self.codes@.len() && self.codes@[j]@ == k;
                        self.lemma_at(j);
                        if j < n {
                            assert(self.codes@[j] == old_self.codes@[j]);
                            assert(self.infos@[j] == old_self.infos@[j]);
                            old_self.lemma_at(j);
                        }
                    }
                    assert(self@ =~= old_self@.insert(c, room@));
                }
            },
        }
    }
}

impl Rooms {
    /// Closes the room with `code` and gives it back, if there was one.
    pub fn remove(&mut self, code: &String) -> (room: Option<RoomInfo>)
        requires
            old(self).wf(),
        ensures
            final(self).wf(),
            final(self)@ == old(self)@.remove(code@),
            match room {
                Some(r) => old(self)@.contains_key(code@) && old(self)@[code@] == r@,
                None => !old(self)@.contains_key(code@),
            },
    {
        let ghost old_self = *self;
        match self.find(code) {
            Some(i) => {
                proof {
                    old_self.lemma_at(i as int);
                }
                self.codes.remove(i);
                let room = self.infos.remove(i);
                proof {
                    Rooms::lemma_removed(&old_self, self, i as int);
                }
                Some(room)
            },
            None => {
                assert(self@ =~= old_self@.remove(code@));
                None
            },
        }
    }

    /// Closes the rooms that have been open for an hour or more at `now`.
    pub fn cleanup(&mut self, now: u64)
        requires
            old(self).wf(),
        ensures
            final(self).wf(),
            final(self)@ == fresh_rooms(old(self)@, now),
    {
        let ghost old_view = self@;
        let mut i: usize = 0;
        while i < self.codes.len()
            invariant
                self.wf(),
                i <= self.codes@.len(),
                forall|j: int| 0 <= j < i ==> is_fresh(#[trigger] self.infos@[j].opened, now),
                forall|k: Seq<char>| #[trigger] self@.contains_key(k) ==> old_view.contains_key(k)
                    && self@[k] == old_view[k],
                forall|k: Seq<char>| old_view.contains_key(k) && is_fresh(old_view[k].opened, now)
                    ==> #[trigger] self@.contains_key(k),
            decreases self.codes@.len() - i,
        {
            let opened = self.infos[i].opened;
            let fresh = now < opened || now - opened < ROOM_LIFETIME_NANOS;
            if fresh {
                i = i + 1;
            } else {
                let ghost before = *self;
                proof {
                    before.lemma_at(i as int);
                }
                self.codes.remove(i);
                self.infos.remove(i);
                proof {
                    Rooms::lemma_removed(&before, self, i as int);
                    assert forall|j: int| 0 <= j < i implies is_fresh(#[trigger] self.infos@[j].opened, now) by {
                        assert(self.infos@[j] == before.infos@[j]);
                    }
                }
            }
        }
        proof {
            assert forall|k: Seq<char>| #[trigger] self@.contains_key(k) implies is_fresh(self@[k].opened, now) by {
                let j = choose|j: int| 0 <= j < self.codes@.len() && self.codes@[j]@ == k;
                self.lemma_at(j);
            }
            assert(self@ =~= fresh_rooms(old_view, now));
        }
    }
}

/// Where a relay connection stands.
pub enum RelaySession {
    /// The connection's first message has not arrived yet.
    AwaitingRequest,
    /// The client asked for the room `code`, whose sender's connection is
    /// `sender` and whose file has `size` bytes, and was sent the approval
    /// request.
    AwaitingApproval { code: String, sender: u64, size: u64 },
    /// The transfer from room `code` is under way; `remaining` chunks are
    /// still to be moved from connection `sender`.
    Forwarding { code: String, sender: u64, remaining: u64 },
    /// Nothing more happens on this connection.
    Closed,
}

/// What happened on a relay connection.
pub enum RelayEvent {
    /// The client sent this message.
    Received(Message),
    /// The action asked for last has been carried out.
    Performed,
}

/// What the relay does next on a connection.
pub enum RelayAction {
    /// The room `code` is open: keep this connection as its sender.
    KeepAsSender { code: String },
    /// Send the message to the client, then report the client's answer.
    Reply(Message),
    /// Send the message to the client, then end.
    ReplyAndClose(Message),
    /// Send the message to the sender's connection `sender`, then report.
    Notify { sender: u64, message: Message },
    /// Move one chunk from the sender's connection `sender` to the client,
    /// then report.
    Forward { sender: u64 },
    /// End the connection.
    Close,
}

pub enum SessionView {
    AwaitingRequest,
    AwaitingApproval { code: Seq<char>, sender: u64, size: u64 },
    Forwarding { code: Seq<char>, sender: u64, remaining: u64 },
    Closed,
}

pub enum EventView {
    Received(MessageView),
    Performed,
}

pub enum ActionView {
    KeepAsSender { code: Seq<char> },
    Reply(MessageView),
    ReplyAndClose(MessageView),
    Notify { sender: u64, message: MessageView },
    Forward { sender: u64 },
    Close,
}

impl View for RelaySession {
    type V = SessionView;

    open spec fn view(&self) -> SessionView {
        match self {
            RelaySession::AwaitingRequest => SessionView::AwaitingRequest,
            RelaySession::AwaitingApproval { code, sender, size } => SessionView::AwaitingApproval {
                code: code@,
                sender: *sender,
                size: *size,
            },
            RelaySession::Forwarding { code, sender, remaining } => SessionView::Forwarding {
                code: code@,
                sender: *sender,
                remaining: *remaining,
            },
            RelaySession::Closed => SessionView::Closed,
        }
    }
}

impl View for RelayEvent {
    type V = EventView;

    open spec fn view(&self) -> EventView {
        match self {
            RelayEvent::Received(m) => EventView::Received(m@),
            RelayEvent::Performed => EventView::Performed,
        }
    }
}

impl View for RelayAction {
    type V = ActionView;

    open spec fn view(&self) -> ActionView {
        match self {
            RelayAction::KeepAsSender { code } => ActionView::KeepAsSender { code: code@ },
            RelayAction::Reply(m) => ActionView::Reply(m@),
            RelayAction::ReplyAndClose(m) => ActionView::ReplyAndClose(m@),
            RelayAction::Notify { sender, message } => ActionView::Notify { sender: *sender, message: message@ },
            RelayAction::Forward { sender } => ActionView::Forward { sender: *sender },
            RelayAction::Close => ActionView::Close,
        }
    }
}

/// The text with which the relay answers a request for an unknown room.
pub open spec fn unknown_room_text() -> Seq<char> {
    "Room code does not exist"@
}

/// Whether the protocol lets `ev` happen to a connection in state `s` with
/// these rooms: it starts with a message (one other than `Send` or `Get` just
/// ends it); the answer to an
/// approval request is `ApproveRes`; during a transfer only reports of actions
/// done arrive, and the room is still open when the last chunk has been moved.
pub open spec fn event_allowed(s: SessionView, rooms: Map<Seq<char>, RoomView>, ev: EventView) -> bool {
    match s {
        SessionView::AwaitingRequest => ev is Received,
        SessionView::AwaitingApproval { .. } => ev matches EventView::Received(m) && m is ApproveRes,
        SessionView::Forwarding { code, remaining, .. } => ev is Performed && (remaining == 0 ==> rooms.contains_key(code)),
        SessionView::Closed => true,
    }
}

/// One step of a relay connection: from the session's state, the rooms, the
/// client's connection number and address, the time and what happened, the
/// next state, the rooms after it and what to do.
pub open spec fn relay_next(
    s: SessionView,
    rooms: Map<Seq<char>, RoomView>,
    client: u64,
    client_addr: Seq<char>,
    now: u64,
    ev: EventView,
) -> (SessionView, Map<Seq<char>, RoomView>, ActionView) {
    match s {
        SessionView::AwaitingRequest => match ev {
            EventView::Received(MessageView::Send { filename, size, code }) => (
                SessionView::Closed,
                rooms.insert(
                    code,
                    RoomView { sender: client, sender_addr: client_addr, filename, size, opened: now },
                ),
                ActionView::KeepAsSender { code },
            ),
            EventView::Received(MessageView::Get { code }) => if rooms.contains_key(code) {
                let r = rooms[code];
                (
                    SessionView::AwaitingApproval { code, sender: r.sender, size: r.size },
                    rooms,
                    ActionView::Reply(
                        MessageView::ApproveReq { filename: r.filename, size: r.size, addr: r.sender_addr },
                    ),
                )
            } else {
                (
                    SessionView::Closed,
                    rooms,
                    ActionView::ReplyAndClose(MessageView::Error { text: unknown_room_text() }),
                )
            },
            _ => (SessionView::Closed, rooms, ActionView::Close),
        },
        SessionView::AwaitingApproval { code, sender, size } => match ev {
            EventView::Received(MessageView::ApproveRes { approved }) => if approved {
                (
                    SessionView::Forwarding { code, sender, remaining: chunk_count(size as int) as u64 },
                    rooms,
                    ActionView::Notify { sender, message: MessageView::Ready { addr: client_addr } },
                )
            } else {
                (SessionView::Closed, rooms, ActionView::Close)
            },
            _ => (SessionView::Closed, rooms, ActionView::Close),
        },
        SessionView::Forwarding { code, sender, remaining } => match ev {
            EventView::Performed => if remaining > 0 {
                (
                    SessionView::Forwarding { code, sender, remaining: (remaining - 1) as u64 },
                    rooms,
                    ActionView::Forward { sender },
                )
            } else if rooms.contains_key(code) {
                (SessionView::Closed, rooms.remove(code), ActionView::Close)
            } else {
                (SessionView::Closed, rooms, ActionView::Close)
            },
            _ => (SessionView::Closed, rooms, ActionView::Close),
        },
        SessionView::Closed => (SessionView::Closed, rooms, ActionView::Close),
    }
}

impl RelaySession {
    /// A fresh connection, waiting for its first message.
    pub fn new() -> (s: RelaySession)
        ensures
            s@ == SessionView::AwaitingRequest,
    {
        RelaySession::AwaitingRequest
    }

    /// Whether the protocol lets `event` happen now (`event_allowed`).
    pub fn accepts(&self, rooms: &Rooms, event: &RelayEvent) -> (ok: bool)
        requires
            rooms.wf(),
        ensures
            ok == event_allowed(self@, rooms@, event@),
            self@ is AwaitingRequest ==> (ok <==> event@ is Received),
            self@ is AwaitingApproval ==> (event@ matches EventView::Received(MessageView::ApproveRes { .. }) ==> ok),
            self@ is Closed ==> ok,
    {
        match self {
            RelaySession::AwaitingRequest => match event {
                RelayEvent::Received(_) => true,
                RelayEvent::Performed => false,
            },
            RelaySession::AwaitingApproval { .. } => match event {
                RelayEvent::Received(Message::ApproveRes(_)) => true,
                _ => false,
            },
            RelaySession::Forwarding { code, remaining, .. } => match event {
                RelayEvent::Performed => *remaining > 0 || rooms.get(code).is_some(),
                _ => false,
            },
            RelaySession::Closed => true,
        }
    }

    /// Takes one step of the connection with client connection number
    /// `client`, at address `client_addr`, at time `now`.
    pub fn step(
        self,
        rooms: &mut Rooms,
        client: u64,
        client_addr: &String,
        now: u64,
        event: RelayEvent,
    ) -> (next: (RelaySession, RelayAction))
        requires
            old(rooms).wf(),
            event_allowed(self@, old(rooms)@, event@),
        ensures
            final(rooms).wf(),
            (next.0@, final(rooms)@, next.1@) == relay_next(self@, old(rooms)@, client, client_addr@, now, event@),
            self@ is AwaitingRequest ==> (event@ matches EventView::Received(MessageView::Send { filename, size, code })
                ==> final(rooms)@ == old(rooms)@.insert(
                code,
                RoomView { sender: client, sender_addr: client_addr@, filename, size, opened: now },
            )),
            self@ is AwaitingRequest ==> (event@ matches EventView::Received(MessageView::Get { .. }) ==> final(rooms)@
                == old(rooms)@),
    {
        match self {
            RelaySession::AwaitingRequest => match event {
                RelayEvent::Received(Message::Send(m)) => {
                    let room = RoomInfo {
                        sender: client,
                        sender_addr: client_addr.clone(),
                        filename: m.filename,
                        size: m.size,
                        opened: now,
                    };
                    let code = m.code.clone();
                    rooms.create_room(m.code, room);
                    (RelaySession::Closed, RelayAction::KeepAsSender { code })
                },
                RelayEvent::Received(Message::Get(m)) => {
                    match rooms.get(&m.code) {
                        Some(r) => {
                            let reply = Message::new_approve_req(r.filename.clone(), r.size, r.sender_addr.clone());
                            let sender = r.sender;
                            let size = r.size;
                            (
                                RelaySession::AwaitingApproval { code: m.code, sender, size },
                                RelayAction::Reply(reply),
                            )
                        },
                        None => {
                            let text = String::from_str("Room code does not exist");
                            (RelaySession::Closed, RelayAction::ReplyAndClose(Message::new_error(text)))
                        },
                    }
                },
                _ => (RelaySession::Closed, RelayAction::Close),
            },
            RelaySession::AwaitingApproval { code, sender, size } => match event {
                RelayEvent::Received(Message::ApproveRes(res)) => {
                    if res.approved {
                        let ready = Message::new_ready(client_addr.clone());
                        let remaining = calc_chunks(size);
                        (
                            RelaySession::Forwarding { code, sender, remaining },
                            RelayAction::Notify { sender, message: ready },
                        )
                    } else {
                        (RelaySession::Closed, RelayAction::Close)
                    }
                },
                _ => (RelaySession::Closed, RelayAction::Close),
            },
            RelaySession::Forwarding { code, sender, remaining } => match event {
                RelayEvent::Performed => {
                    if remaining > 0 {
                        (
                            RelaySession::Forwarding { code, sender, remaining: remaining - 1 },
                            RelayAction::Forward { sender },
                        )
                    } else {
                        match rooms.remove(&code) {
                            Some(_) => (RelaySession::Closed, RelayAction::Close),
                            None => (RelaySession::Closed, RelayAction::Close),
                        }
                    }
                },
                _ => (RelaySession::Closed, RelayAction::Close),
            },
            RelaySession::Closed => (RelaySession::Closed, RelayAction::Close),
        }
    }
}

/// What the registry gives back of a room opened under a code is that room
/// until the code is removed, and opening it leaves the other codes as they
/// were: the views that `create_room`, `get` and `remove` are stated over.
pub proof fn lemma_registry_read_after_write(
    rooms: Map<Seq<char>, RoomView>,
    code: Seq<char>,
    room: RoomView,
    other: Seq<char>,
)
    ensures
        rooms.insert(code, room).contains_key(code),
        rooms.insert(code, room)[code] == room,
        !rooms.insert(code, room).remove(code).contains_key(code),
        other != code ==> (rooms.insert(code, room).contains_key(other) == rooms.contains_key(other)),
        other != code && rooms.contains_key(other) ==> rooms.insert(code, room)[other] == rooms[other],
{
}

/// Announcing a file opens its room and touches no other: after a `Send`
/// with code `code`, the rooms hold the announced room under `code`, and every
/// other code has a room exactly when it had one before, the same room.
pub proof fn lemma_send_opens_only_its_room(
    rooms: Map<Seq<char>, RoomView>,
    client: u64,
    client_addr: Seq<char>,
    now: u64,
    filename: Seq<char>,
    size: u64,
    code: Seq<char>,
    other: Seq<char>,
)
    ensures
        ({
            let after = relay_next(
                SessionView::AwaitingRequest,
                rooms,
                client,
                client_addr,
                now,
                EventView::Received(MessageView::Send { filename, size, code }),
            ).1;
            &&& after.contains_key(code)
            &&& after[code] == (RoomView { sender: client, sender_addr: client_addr, filename, size, opened: now })
            &&& other != code ==> (after.contains_key(other) <==> rooms.contains_key(other))
            &&& other != code && rooms.contains_key(other) ==> after[other] == rooms[other]
        }),
{
}

/// A receiver may answer an approval request either way: both an approval
/// and a refusal are allowed in the state that awaits the answer, whatever the
/// room and the rooms.
pub proof fn lemma_any_answer_to_approval_is_allowed(
    code: Seq<char>,
    sender: u64,
    size: u64,
    rooms: Map<Seq<char>, RoomView>,
    approved: bool,
)
    ensures
        event_allowed(
            SessionView::AwaitingApproval { code, sender, size },
            rooms,
            EventView::Received(MessageView::ApproveRes { approved }),
        ),
{
}

/// A connection may start with any message, and a transfer under way may
/// always go on while chunks remain.
pub proof fn lemma_allowed_events(
    rooms: Map<Seq<char>, RoomView>,
    m: MessageView,
    code: Seq<char>,
    sender: u64,
    remaining: u64,
)
    ensures
        event_allowed(SessionView::AwaitingRequest, rooms, EventView::Received(m)),
        remaining > 0 ==> event_allowed(
            SessionView::Forwarding { code, sender, remaining },
            rooms,
            EventView::Performed,
        ),
{
}

/// The steps of a connection over a sequence of events: the last state, the
/// rooms after them and the actions taken, in order.
pub open spec fn relay_run(
    s: SessionView,
    rooms: Map<Seq<char>, RoomView>,
    client: u64,
    client_addr: Seq<char>,
    now: u64,
    events: Seq<EventView>,
) -> (SessionView, Map<Seq<char>, RoomView>, Seq<ActionView>)
    decreases events.len(),
{
    if events.len() == 0 {
        (s, rooms, Seq::empty())
    } else {
        let (s1, rooms1, a1) = relay_next(s, rooms, client, client_addr, now, events[0]);
        let (s2, rooms2, actions) = relay_run(s1, rooms1, client, client_addr, now, events.drop_first());
        (s2, rooms2, seq![a1] + actions)
    }
}

/// `n` reports that the last action was carried out.
pub open spec fn performed(n: int) -> Seq<EventView> {
    Seq::new(n as nat, |i: int| EventView::Performed)
}

/// `n` times the action of moving a chunk from connection `sender`.
pub open spec fn forwards(sender: u64, n: nat) -> Seq<ActionView> {
    Seq::new(n, |i: int| ActionView::Forward { sender })
}

/// Once a transfer is under way with `k` chunks to go, reporting each action
/// done moves exactly `k` chunks from the room's sender and then closes the
/// room.
pub proof fn lemma_forwarding_finishes(
    code: Seq<char>,
    sender: u64,
    k: u64,
    rooms: Map<Seq<char>, RoomView>,
    client: u64,
    client_addr: Seq<char>,
    now: u64,
)
    requires
        rooms.contains_key(code),
    ensures
        relay_run(
            SessionView::Forwarding { code, sender, remaining: k },
            rooms,
            client,
            client_addr,
            now,
            performed(k + 1),
        ) == (SessionView::Closed, rooms.remove(code), forwards(sender, k as nat).push(ActionView::Close)),
    decreases k,
{
    let s = SessionView::Forwarding { code, sender, remaining: k };
    let evs = performed(k + 1);
    assert(evs[0] == EventView::Performed);
    let (s1, rooms1, a1) = relay_next(s, rooms, client, client_addr, now, evs[0]);
    let rest = relay_run(s1, rooms1, client, client_addr, now, evs.drop_first());
    assert(relay_run(s, rooms, client, client_addr, now, evs) == (rest.0, rest.1, seq![a1] + rest.2));
    if k == 0 {
        assert(evs.drop_first() =~= Seq::<EventView>::empty());
        assert(rest == (s1, rooms1, Seq::<ActionView>::empty()));
        assert(seq![ActionView::Close] + Seq::<ActionView>::empty() =~= forwards(sender, 0).push(ActionView::Close));
    } else {
        let k1 = (k - 1) as u64;
        lemma_forwarding_finishes(code, sender, k1, rooms, client, client_addr, now);
        assert(evs.drop_first() =~= performed(k1 + 1));
        assert(seq![ActionView::Forward { sender }] + forwards(sender, k1 as nat).push(ActionView::Close)
            =~= forwards(sender, k as nat).push(ActionView::Close));
    }
}

/// What a receiver is told of a room is what its sender announced: after a
/// `Send` on one connection, a `Get` for the same code on another is answered
/// with an approval request that carries the announced file name and size and
/// the sender's address, and ties the session to the sender's connection.
pub proof fn lemma_get_finds_sent_room(
    rooms: Map<Seq<char>, RoomView>,
    sender: u64,
    sender_addr: Seq<char>,
    receiver: u64,
    receiver_addr: Seq<char>,
    opened: u64,
    now: u64,
    filename: Seq<char>,
    size: u64,
    code: Seq<char>,
)
    ensures
        ({
            let (s1, rooms1, a1) = relay_next(
                SessionView::AwaitingRequest,
                rooms,
                sender,
                sender_addr,
                opened,
                EventView::Received(MessageView::Send { filename, size, code }),
            );
            let (s2, rooms2, a2) = relay_next(
                SessionView::AwaitingRequest,
                rooms1,
                receiver,
                receiver_addr,
                now,
                EventView::Received(MessageView::Get { code }),
            );
            &&& a1 == ActionView::KeepAsSender { code }
            &&& s2 == SessionView::AwaitingApproval { code, sender, size }
            &&& rooms2 == rooms1
            &&& a2 == ActionView::Reply(MessageView::ApproveReq { filename, size, addr: sender_addr })
        }),
{
}

/// An approved request moves `calc_chunks` of the room's size chunks from the
/// room's sender to the receiver and then closes the room: the relay asks for
/// approval, tells the sender that the receiver is ready, forwards the chunks
/// one by one and ends.
pub proof fn lemma_approved_transfer(
    rooms: Map<Seq<char>, RoomView>,
    client: u64,
    client_addr: Seq<char>,
    now: u64,
    code: Seq<char>,
)
    requires
        rooms.contains_key(code),
    ensures
        ({
            let r = rooms[code];
            let n = chunk_count(r.size as int) as u64;
            let events = seq![
                EventView::Received(MessageView::Get { code }),
                EventView::Received(MessageView::ApproveRes { approved: true }),
            ] + performed(n + 1);
            relay_run(SessionView::AwaitingRequest, rooms, client, client_addr, now, events) == (
                SessionView::Closed,
                rooms.remove(code),
                seq![
                    ActionView::Reply(MessageView::ApproveReq { filename: r.filename, size: r.size, addr: r.sender_addr }),
                    ActionView::Notify { sender: r.sender, message: MessageView::Ready { addr: client_addr } },
                ] + forwards(r.sender, n as nat).push(ActionView::Close),
            )
        }),
{
    let r = rooms[code];
    let n = chunk_count(r.size as int) as u64;
    let tail = performed(n + 1);
    let events = seq![
        EventView::Received(MessageView::Get { code }),
        EventView::Received(MessageView::ApproveRes { approved: true }),
    ] + tail;
    let s0 = SessionView::AwaitingRequest;
    let (s1, rooms1, a0) = relay_next(s0, rooms, client, client_addr, now, events[0]);
    let ev1 = events.drop_first();
    let (s2, rooms2, a1) = relay_next(s1, rooms1, client, client_addr, now, ev1[0]);
    assert(events[0] == EventView::Received(MessageView::Get { code }));
    assert(ev1[0] == EventView::Received(MessageView::ApproveRes { approved: true }));
    assert(ev1.drop_first() =~= tail);
    lemma_forwarding_finishes(code, r.sender, n, rooms, client, client_addr, now);
    let run2 = relay_run(s2, rooms2, client, client_addr, now, ev1.drop_first());
    let run1 = relay_run(s1, rooms1, client, client_addr, now, ev1);
    assert(run1 == (run2.0, run2.1, seq![a1] + run2.2));
    assert(relay_run(s0, rooms, client, client_addr, now, events) == (run1.0, run1.1, seq![a0] + run1.2));
    let acts = forwards(r.sender, n as nat).push(ActionView::Close);
    assert(seq![a0] + (seq![a1] + acts) =~= seq![a0, a1] + acts);
}

/// A declined request leaves the rooms as they were: the relay asks for
/// approval and, on refusal, ends without telling the sender anything.
pub proof fn lemma_declined_transfer(
    rooms: Map<Seq<char>, RoomView>,
    client: u64,
    client_addr: Seq<char>,
    now: u64,
    code: Seq<char>,
)
    requires
        rooms.contains_key(code),
    ensures
        ({
            let r = rooms[code];
            let events = seq![
                EventView::Received(MessageView::Get { code }),
                EventView::Received(MessageView::ApproveRes { approved: false }),
            ];
            relay_run(SessionView::AwaitingRequest, rooms, client, client_addr, now, events) == (
                SessionView::Closed,
                rooms,
                seq![
                    ActionView::Reply(MessageView::ApproveReq { filename: r.filename, size: r.size, addr: r.sender_addr }),
                    ActionView::Close,
                ],
            )
        }),
{
    let r = rooms[code];
    let events = seq![
        EventView::Received(MessageView::Get { code }),
        EventView::Received(MessageView::ApproveRes { approved: false }),
    ];
    let s0 = SessionView::AwaitingRequest;
    let (s1, rooms1, a0) = relay_next(s0, rooms, client, client_addr, now, events[0]);
    let ev1 = events.drop_first();
    let (s2, rooms2, a1) = relay_next(s1, rooms1, client, client_addr, now, ev1[0]);
    assert(ev1[0] == EventView::Received(MessageView::ApproveRes { approved: false }));
    assert(ev1.drop_first() =~= Seq::<EventView>::empty());
    let run2 = relay_run(s2, rooms2, client, client_addr, now, ev1.drop_first());
    assert(run2 == (s2, rooms2, Seq::<ActionView>::empty()));
    let run1 = relay_run(s1, rooms1, client, client_addr, now, ev1);
    assert(run1 == (run2.0, run2.1, seq![a1] + run2.2));
    assert(relay_run(s0, rooms, client, client_addr, now, events) == (run1.0, run1.1, seq![a0] + run1.2));
    assert(seq![a0] + (seq![a1] + Seq::<ActionView>::empty()) =~= seq![a0, a1]);
}

/// A closed connection stays closed and changes no room, whatever happens.
pub proof fn lemma_closed_is_final(
    rooms: Map<Seq<char>, RoomView>,
    client: u64,
    client_addr: Seq<char>,
    now: u64,
    events: Seq<EventView>,
)
    ensures
        relay_run(SessionView::Closed, rooms, client, client_addr, now, events).0 == SessionView::Closed,
        relay_run(SessionView::Closed, rooms, client, client_addr, now, events).1 == rooms,
    decreases events.len(),
{
    if events.len() > 0 {
        lemma_closed_is_final(rooms, client, client_addr, now, events.drop_first());
    }
}

} // verus!
