//! The UDP relay: in-band authentication of endpoints, and forwarding of data packets
//! between the two sides of a session.
//!
//! The relay is a state machine. The program that owns the socket hands it every datagram
//! with its source and the time, and does what it answers: reply, verify a bearer,
//! forward, or drop.

use vstd::prelude::*;
use crate::packet::HEADER_SIZE;
use crate::wire::{get_be_u16, get_be_u32, spec_be_u16, spec_from_be_u16, spec_from_be_u32};

verus! {

broadcast use vstd::slice::group_slice_axioms;

/// First byte of an authentication frame.
pub const AUTH_MARKER: u8 = 0x00;

/// Most bytes of a bearer in an authentication frame.
pub const MAX_JWT_SIZE: usize = 8192;

/// Most bytes of a datagram the relay takes.
pub const MAX_PACKET_SIZE: usize = 2048;

/// Milliseconds without a packet after which a session is forgotten.
pub const SESSION_TIMEOUT_MS: u64 = 60_000;

/// Milliseconds without a packet after which a client must authenticate again.
pub const CLIENT_TIMEOUT_MS: u64 = 120_000;

/// Seconds an endpoint waits for the relay's answer to its bearer.
pub const HANDSHAKE_TIMEOUT_SECS: u64 = 5;

/// Milliseconds between two sweeps for stale sessions and clients.
pub const CLEANUP_INTERVAL_MS: u64 = 30_000;

/// The relay's answer to a bearer it accepts.
pub const AUTH_ACCEPT: [u8; 2] = [0x00, 0x01];

/// The relay's answer to a bearer it refuses.
pub const AUTH_REJECT: [u8; 2] = [0x00, 0x00];

/// A network address: the IP address as a number (IPv4 mapped into IPv6), and the port.
#[derive(Debug, Clone, Copy, PartialEq, Eq, Structural)]
pub struct Address {
    pub ip: u128,
    pub port: u16,
}

/// What a verified bearer says of its holder.
#[derive(Debug, Clone)]
pub struct Claims {
    /// The user's identifier.
    pub sub: u128,
    /// The user's display name.
    pub username: String,
    /// When the bearer expires, in seconds since the epoch.
    pub exp: u64,
}

/// An endpoint that has authenticated.
pub struct RelayClient {
    pub addr: Address,
    pub user_id: u128,
    pub username: String,
    pub last_seen: u64,
}

/// One side of a session: a user, and the address its last packet came from.
#[derive(Debug, Clone, Copy, PartialEq, Eq, Structural)]
pub struct RelayPeer {
    pub user_id: u128,
    pub addr: Address,
}

/// Two endpoints exchanging packets under one session identifier.
#[derive(Debug, Clone, Copy, PartialEq, Eq, Structural)]
pub struct RelaySession {
    pub session_id: u32,
    /// The first user to send a packet of the session.
    pub side_a: RelayPeer,
    /// The second user, once it has sent one.
    pub side_b: Option<RelayPeer>,
    pub last_activity: u64,
}

/// Why a datagram goes nowhere.
#[derive(Debug, Clone, Copy, PartialEq, Eq, Structural)]
pub enum DropReason {
    /// The datagram is empty.
    Empty,
    /// Neither an authentication frame nor a data packet.
    UnknownPacket,
    /// A data packet from an address that has not authenticated.
    Unauthenticated,
    /// The other side of the session has not sent anything yet.
    OtherSideAbsent,
    /// The sender is neither side of the session, and the session has both.
    SessionFull,
}

/// What the owner of the socket does with a datagram.
#[derive(Debug, Clone, Copy, PartialEq, Eq, Structural)]
pub enum RelayAction {
    /// Answer the source with the refusal, `0x00 0x00`.
    Reject,
    /// Verify the bearer, which is the `len` bytes from the datagram's fourth on, then tell
    /// the relay the outcome with `complete_auth`.
    VerifyBearer { len: usize },
    /// Send the datagram, unchanged, to this address.
    Forward { dest: Address },
    /// Do nothing.
    Drop { reason: DropReason },
}

/// The bearer inside an authentication frame `0x00 ‖ len ‖ bearer`, if `data` is one that
/// the relay takes: the length is not zero, not above 8192, and the bytes are all there.
pub open spec fn spec_auth_bearer(data: Seq<u8>) -> Option<Seq<u8>> {
    if data.len() < 3 {
        None
    } else {
        let len = spec_from_be_u16(data.subrange(1, 3)) as int;
        if len == 0 || len > MAX_JWT_SIZE || data.len() < 3 + len {
            None
        } else {
            Some(data.subrange(3, 3 + len))
        }
    }
}

/// The authentication frame that carries `bearer`.
pub open spec fn spec_auth_frame(bearer: Seq<u8>) -> Seq<u8>
    recommends
        bearer.len() <= u16::MAX,
{
    seq![AUTH_MARKER] + spec_be_u16(bearer.len() as u16) + bearer
}

/// Whether a datagram is a data packet: at least a header long, starting with `HT`.
pub open spec fn spec_is_data_packet(data: Seq<u8>) -> bool {
    data.len() >= HEADER_SIZE && data[0] == 0x48 && data[1] == 0x54
}

/// The session a data packet belongs to: the number in its bytes 2 to 6.
pub open spec fn spec_packet_session(data: Seq<u8>) -> u32
    recommends
        spec_is_data_packet(data),
{
    spec_from_be_u32(data.subrange(2, 6))
}

/// What a data packet from `user` at `src` does to its session, and where it goes.
///
/// The first side keeps being the first side, the second the second; each side's address
/// follows its packets. A user that is neither side becomes the second side if there is
/// none, and is turned away if there is one.
pub open spec fn spec_route(session: RelaySession, user: u128, src: Address, now: u64) -> (
    RelaySession,
    RelayAction,
) {
    let touched = RelaySession { last_activity: now, ..session };
    if session.side_a.user_id == user {
        (
            RelaySession { side_a: RelayPeer { user_id: user, addr: src }, ..touched },
            match session.side_b {
                Some(b) => RelayAction::Forward { dest: b.addr },
                None => RelayAction::Drop { reason: DropReason::OtherSideAbsent },
            },
        )
    } else {
        match session.side_b {
            Some(b) => if b.user_id == user {
                (
                    RelaySession { side_b: Some(RelayPeer { user_id: user, addr: src }), ..touched },
                    RelayAction::Forward { dest: session.side_a.addr },
                )
            } else {
                (touched, RelayAction::Drop { reason: DropReason::SessionFull })
            },
            None => (
                RelaySession { side_b: Some(RelayPeer { user_id: user, addr: src }), ..touched },
                RelayAction::Forward { dest: session.side_a.addr },
            ),
        }
    }
}

/// A packet is forwarded only from one registered side of its session to the other: the
/// sender is then a side of the session as the relay leaves it, the destination is the
/// address on record for the other side, and a third user changes neither side.
pub proof fn lemma_relay_isolation(session: RelaySession, user: u128, src: Address, now: u64)
    ensures
        ({
            let (after, action) = spec_route(session, user, src, now);
            &&& after.session_id == session.session_id
            &&& action matches RelayAction::Forward { dest } ==> {
                ||| {
                    &&& after.side_a == RelayPeer { user_id: user, addr: src }
                    &&& after.side_b is Some
                    &&& after.side_b->0.addr == dest
                    &&& after.side_b == session.side_b
                }
                ||| {
                    &&& after.side_b == Some(RelayPeer { user_id: user, addr: src })
                    &&& after.side_a.user_id != user
                    &&& after.side_a.addr == dest
                    &&& after.side_a == session.side_a
                }
            }
            &&& (session.side_a.user_id != user && session.side_b is Some
                && session.side_b->0.user_id != user) ==> {
                &&& action == RelayAction::Drop { reason: DropReason::SessionFull }
                &&& after.side_a == session.side_a
                &&& after.side_b == session.side_b
            }
        }),
{
}

/// The clients and sessions a relay knows.
pub struct UdpRelayState {
    clients: Vec<RelayClient>,
    sessions: Vec<RelaySession>,
    rejected: u64,
}

/// Position of the client at `addr` in `clients`, if there is one.
pub open spec fn spec_client_at(clients: Seq<RelayClient>, addr: Address) -> Option<int> {
    if exists|i: int| 0 <= i < clients.len() && clients[i].addr == addr {
        Some(choose|i: int| 0 <= i < clients.len() && clients[i].addr == addr)
    } else {
        None
    }
}

/// Position of the session `id` in `sessions`, if there is one.
pub open spec fn spec_session_at(sessions: Seq<RelaySession>, id: u32) -> Option<int> {
    if exists|i: int| 0 <= i < sessions.len() && sessions[i].session_id == id {
        Some(choose|i: int| 0 <= i < sessions.len() && sessions[i].session_id == id)
    } else {
        None
    }
}

impl UdpRelayState {
    /// The authenticated clients, in the order they first authenticated.
    pub closed spec fn spec_clients(&self) -> Seq<RelayClient> {
        self.clients@
    }

    /// The sessions, in the order they were opened.
    pub closed spec fn spec_sessions(&self) -> Seq<RelaySession> {
        self.sessions@
    }

    /// Packets turned away because their session had two other sides.
    pub closed spec fn spec_rejected(&self) -> u64 {
        self.rejected
    }

    /// No address is registered twice, and no session identifier.
    pub closed spec fn wf(&self) -> bool {
        &&& forall|i: int, j: int|
            0 <= i < j < self.clients@.len() ==> self.clients@[i].addr != self.clients@[j].addr
        &&& forall|i: int, j: int|
            0 <= i < j < self.sessions@.len() ==> self.sessions@[i].session_id
                != self.sessions@[j].session_id
    }

    /// A relay that knows nobody.
    pub fn new() -> (r: Self)
        ensures
            r.wf(),
            r.spec_clients() == Seq::<RelayClient>::empty(),
            r.spec_sessions() == Seq::<RelaySession>::empty(),
            r.spec_rejected() == 0,
    {
        UdpRelayState { clients: Vec::new(), sessions: Vec::new(), rejected: 0 }
    }

    /// Number of authenticated clients.
    pub fn client_count(&self) -> (n: usize)
        ensures
            n == self.spec_clients().len(),
    {
        self.clients.len()
    }

    /// Number of sessions.
    pub fn session_count(&self) -> (n: usize)
        ensures
            n == self.spec_sessions().len(),
    {
        self.sessions.len()
    }

    /// The session `id`, if the relay has it.
    pub fn session(&self, id: u32) -> (r: Option<RelaySession>)
        requires
            self.wf(),
        ensures
            match r {
                Some(s) => spec_session_at(self.spec_sessions(), id) matches Some(i)
                    && self.spec_sessions()[i] == s && s.session_id == id,
                None => spec_session_at(self.spec_sessions(), id) is None,
            },
    {
        match self.find_session(id) {
            Some(i) => Some(self.sessions[i]),
            None => None,
        }
    }

    /// The user authenticated at `addr`, if one is.
    pub fn client_user(&self, addr: Address) -> (r: Option<u128>)
        requires
            self.wf(),
        ensures
            match r {
                Some(user) => spec_client_at(self.spec_clients(), addr) matches Some(i)
                    && self.spec_clients()[i].user_id == user,
                None => spec_client_at(self.spec_clients(), addr) is None,
            },
    {
        match self.find_client(addr) {
            Some(i) => Some(self.clients[i].user_id),
            None => None,
        }
    }

    /// Packets turned away because their session had two other sides.
    pub fn rejected(&self) -> (n: u64)
        ensures
            n == self.spec_rejected(),
    {
        self.rejected
    }

    fn find_client(&self, addr: Address) -> (r: Option<usize>)
        requires
            self.wf(),
        ensures
            match r {
                Some(i) => i < self.clients@.len() && self.clients@[i as int].addr == addr,
                None => forall|i: int| 0 <= i < self.clients@.len() ==> self.clients@[i].addr != addr,
            },
            (r matches Some(i) ==> spec_client_at(self.clients@, addr) == Some(i as int)),
            r is None ==> spec_client_at(self.clients@, addr) is None,
    {
        let mut i: usize = 0;
        while i < self.clients.len()
            invariant
                self.wf(),
                i <= self.clients@.len(),
                forall|j: int| 0 <= j < i ==> self.clients@[j].addr != addr,
            decreases self.clients@.len() - i,
        {
            if self.clients[i].addr == addr {
                proof {
                    let w = choose|w: int|
                        0 <= w < self.clients@.len() && self.clients@[w].addr == addr;
                    assert(w == i);
                }
                return Some(i);
            }
            i = i + 1;
        }
        None
    }

    fn find_session(&self, id: u32) -> (r: Option<usize>)
        requires
            self.wf(),
        ensures
            match r {
                Some(i) => i < self.sessions@.len() && self.sessions@[i as int].session_id == id,
                None => forall|i: int|
                    0 <= i < self.sessions@.len() ==> self.sessions@[i].session_id != id,
            },
            (r matches Some(i) ==> spec_session_at(self.sessions@, id) == Some(i as int)),
            r is None ==> spec_session_at(self.sessions@, id) is None,
    {
        let mut i: usize = 0;
        while i < self.sessions.len()
            invariant
                self.wf(),
                i <= self.sessions@.len(),
                forall|j: int| 0 <= j < i ==> self.sessions@[j].session_id != id,
            decreases self.sessions@.len() - i,
        {
            if self.sessions[i].session_id == id {
                proof {
                    let w = choose|w: int|
                        0 <= w < self.sessions@.len() && self.sessions@[w].session_id == id;
                    assert(w == i);
                }
                return Some(i);
            }
            i = i + 1;
        }
        None
    }
}

/// What a data packet of session `sid` from `src` does to the relay, and what becomes of
/// it.
///
/// A packet from an address that has not authenticated changes nothing and goes nowhere.
/// Otherwise the client is seen, its session is opened if it is new, and the packet is
/// routed within the session.
pub open spec fn spec_handle_data(
    clients: Seq<RelayClient>,
    sessions: Seq<RelaySession>,
    sid: u32,
    src: Address,
    now: u64,
) -> (Seq<RelayClient>, Seq<RelaySession>, RelayAction) {
    match spec_client_at(clients, src) {
        None => (clients, sessions, RelayAction::Drop { reason: DropReason::Unauthenticated }),
        Some(c) => {
            let seen = clients.update(c, RelayClient { last_seen: now, ..clients[c] });
            let user = clients[c].user_id;
            match spec_session_at(sessions, sid) {
                None => (
                    seen,
                    sessions.push(
                        RelaySession {
                            session_id: sid,
                            side_a: RelayPeer { user_id: user, addr: src },
                            side_b: None,
                            last_activity: now,
                        },
                    ),
                    RelayAction::Drop { reason: DropReason::OtherSideAbsent },
                ),
                Some(s) => {
                    let routed = spec_route(sessions[s], user, src, now);
                    (seen, sessions.update(s, routed.0), routed.1)
                },
            }
        },
    }
}

/// The relay forwards a data packet only for an authenticated sender, only within the
/// session the packet names, and only to the address on record for the other side of
/// that session.
pub proof fn lemma_forward_stays_in_session(
    clients: Seq<RelayClient>,
    sessions: Seq<RelaySession>,
    sid: u32,
    src: Address,
    now: u64,
)
    ensures
        ({
            let (clients2, sessions2, action) = spec_handle_data(clients, sessions, sid, src, now);
            action matches RelayAction::Forward { dest } ==> {
                &&& spec_client_at(clients, src) matches Some(c)
                &&& spec_session_at(sessions, sid) matches Some(s)
                &&& sessions2.len() == sessions.len()
                &&& sessions2[s].session_id == sid
                &&& forall|i: int| 0 <= i < sessions.len() && i != s ==> sessions2[i] == sessions[i]
                &&& {
                    let user = clients[c].user_id;
                    let me = RelayPeer { user_id: user, addr: src };
                    ||| (sessions2[s].side_a == me && sessions2[s].side_b is Some
                        && sessions2[s].side_b->0.addr == dest)
                    ||| (sessions2[s].side_b == Some(me) && sessions2[s].side_a.user_id != user
                        && sessions2[s].side_a.addr == dest)
                }
            }
        }),
{
    match spec_client_at(clients, src) {
        Some(c) => {
            match spec_session_at(sessions, sid) {
                Some(s) => {
                    lemma_relay_isolation(sessions[s], clients[c].user_id, src, now);
                },
                None => {},
            }
        },
        None => {},
    }
}

/// What a datagram does to the relay, and what becomes of it.
pub open spec fn spec_handle_packet(
    clients: Seq<RelayClient>,
    sessions: Seq<RelaySession>,
    data: Seq<u8>,
    src: Address,
    now: u64,
) -> (Seq<RelayClient>, Seq<RelaySession>, RelayAction) {
    if data.len() == 0 {
        (clients, sessions, RelayAction::Drop { reason: DropReason::Empty })
    } else if data[0] == AUTH_MARKER {
        (clients, sessions, spec_auth_action(data))
    } else if spec_is_data_packet(data) {
        spec_handle_data(clients, sessions, spec_packet_session(data), src, now)
    } else {
        (clients, sessions, RelayAction::Drop { reason: DropReason::UnknownPacket })
    }
}

/// What an authentication frame calls for: the bearer is to be verified if the frame
/// holds one, else the frame is refused at once.
pub open spec fn spec_auth_action(data: Seq<u8>) -> RelayAction {
    match spec_auth_bearer(data) {
        None => RelayAction::Reject,
        Some(bearer) => RelayAction::VerifyBearer { len: bearer.len() as usize },
    }
}

/// Whether a client was seen within the time that keeps it registered.
pub open spec fn spec_client_alive(client: RelayClient, now: u64) -> bool {
    now - client.last_seen < CLIENT_TIMEOUT_MS
}

/// Whether a session was used within the time that keeps it open.
pub open spec fn spec_session_alive(session: RelaySession, now: u64) -> bool {
    now - session.last_activity < SESSION_TIMEOUT_MS
}

/// Reads the bearer out of an authentication frame.
pub fn parse_auth_frame(data: &[u8]) -> (r: Option<&[u8]>)
    ensures
        match r {
            Some(bearer) => spec_auth_bearer(data@) == Some(bearer@),
            None => spec_auth_bearer(data@) is None,
        },
{
    if data.len() < 3 {
        return None;
    }
    let len: usize = get_be_u16(data, 1) as usize;
    if len == 0 || len > MAX_JWT_SIZE || data.len() < 3 + len {
        return None;
    }
    Some(vstd::slice::slice_subrange(data, 3, 3 + len))
}

/// Builds the authentication frame for `bearer`; `None` where the bearer is too long for
/// the frame's 16-bit length.
pub fn build_auth_frame(bearer: &[u8]) -> (r: Option<Vec<u8>>)
    ensures
        match r {
            Some(frame) => bearer@.len() <= u16::MAX && frame@ == spec_auth_frame(bearer@),
            None => bearer@.len() > u16::MAX,
        },
{
    if bearer.len() > u16::MAX as usize {
        return None;
    }
    let len: u16 = bearer.len() as u16;
    let mut frame: Vec<u8> = Vec::new();
    frame.push(AUTH_MARKER);
    frame.push((len / 0x100) as u8);
    frame.push((len % 0x100) as u8);
    frame.extend_from_slice(bearer);
    assert(frame@ =~= spec_auth_frame(bearer@));
    Some(frame)
}

/// Whether the relay's answer to an authentication frame is its acceptance.
pub fn auth_accepted(response: &[u8]) -> (ok: bool)
    ensures
        ok == (response@.len() >= 2 && response@[0] == 0x00 && response@[1] == 0x01),
{
    response.len() >= 2 && response[0] == 0x00 && response[1] == 0x01
}

/// An authentication frame that is not too long for the relay is read back as the bearer
/// it was built from.
pub proof fn lemma_auth_frame_roundtrip(bearer: Seq<u8>)
    requires
        0 < bearer.len() <= MAX_JWT_SIZE,
    ensures
        spec_auth_bearer(spec_auth_frame(bearer)) == Some(bearer),
{
    let frame = spec_auth_frame(bearer);
    crate::wire::lemma_be_roundtrip(bearer.len() as u16, 0, 0);
    assert(frame.subrange(1, 3) =~= spec_be_u16(bearer.len() as u16));
    assert(frame.subrange(3, 3 + bearer.len() as int) =~= bearer);
}

impl UdpRelayState {
    /// Takes one datagram and says what to do with it.
    pub fn handle_packet(&mut self, data: &[u8], src: Address, now: u64) -> (action: RelayAction)
        requires
            old(self).wf(),
        ensures
            final(self).wf(),
            ({
                let expected = spec_handle_packet(
                    old(self).spec_clients(),
                    old(self).spec_sessions(),
                    data@,
                    src,
                    now,
                );
                &&& final(self).spec_clients() == expected.0
                &&& final(self).spec_sessions() == expected.1
                &&& action == expected.2
            }),
            final(self).spec_rejected() == if action == (RelayAction::Drop {
                reason: DropReason::SessionFull,
            }) && old(self).spec_rejected() < u64::MAX {
                (old(self).spec_rejected() + 1) as u64
            } else {
                old(self).spec_rejected()
            },
    {
        if data.len() == 0 {
            return RelayAction::Drop { reason: DropReason::Empty };
        }
        if data[0] == AUTH_MARKER {
            return match parse_auth_frame(data) {
                Some(bearer) => RelayAction::VerifyBearer { len: bearer.len() },
                None => RelayAction::Reject,
            };
        }
        if data.len() >= HEADER_SIZE && data[0] == 0x48 && data[1] == 0x54 {
            let sid: u32 = get_be_u32(data, 2);
            return self.handle_data(sid, src, now);
        }
        RelayAction::Drop { reason: DropReason::UnknownPacket }
    }

    /// Routes one data packet of session `sid` that came from `src`.
    pub fn handle_data(&mut self, sid: u32, src: Address, now: u64) -> (action: RelayAction)
        requires
            old(self).wf(),
        ensures
            final(self).wf(),
            ({
                let expected = spec_handle_data(
                    old(self).spec_clients(),
                    old(self).spec_sessions(),
                    sid,
                    src,
                    now,
                );
                &&& final(self).spec_clients() == expected.0
                &&& final(self).spec_sessions() == expected.1
                &&& action == expected.2
            }),
            final(self).spec_rejected() == if action == (RelayAction::Drop {
                reason: DropReason::SessionFull,
            }) && old(self).spec_rejected() < u64::MAX {
                (old(self).spec_rejected() + 1) as u64
            } else {
                old(self).spec_rejected()
            },
    {
        let c = match self.find_client(src) {
            Some(c) => c,
            None => {
                return RelayAction::Drop { reason: DropReason::Unauthenticated };
            },
        };
        let user: u128 = self.clients[c].user_id;
        self.clients[c].last_seen = now;
        proof {
            assert(self.clients@ =~= old(self).clients@.update(
                c as int,
                RelayClient { last_seen: now, ..old(self).clients@[c as int] },
            ));
        }
        match self.find_session(sid) {
            None => {
                self.sessions.push(
                    RelaySession {
                        session_id: sid,
                        side_a: RelayPeer { user_id: user, addr: src },
                        side_b: None,
                        last_activity: now,
                    },
                );
                RelayAction::Drop { reason: DropReason::OtherSideAbsent }
            },
            Some(s) => {
                let session = self.sessions[s];
                let (after, action) = route(session, user, src, now);
                self.sessions[s] = after;
                if let RelayAction::Drop { reason: DropReason::SessionFull } = action {
                    if self.rejected < u64::MAX {
                        self.rejected = self.rejected + 1;
                    }
                }
                action
            },
        }
    }

    /// Forgets the sessions idle for 60 seconds or more and the clients idle for 120
    /// seconds or more. Returns how many of each were forgotten.
    pub fn cleanup_stale(&mut self, now: u64) -> (removed: (usize, usize))
        requires
            old(self).wf(),
        ensures
            final(self).wf(),
            final(self).spec_sessions() == old(self).spec_sessions().filter(
                |s: RelaySession| spec_session_alive(s, now),
            ),
            final(self).spec_clients() == old(self).spec_clients().filter(
                |c: RelayClient| spec_client_alive(c, now),
            ),
            final(self).spec_rejected() == old(self).spec_rejected(),
            removed.0 == old(self).spec_sessions().len() - final(self).spec_sessions().len(),
            removed.1 == old(self).spec_clients().len() - final(self).spec_clients().len(),
    {
        let sessions_before: usize = self.sessions.len();
        let clients_before: usize = self.clients.len();
        let ghost alive_s = |s: RelaySession| spec_session_alive(s, now);
        let ghost alive_c = |c: RelayClient| spec_client_alive(c, now);
        let ghost all_s = self.sessions@;
        let ghost all_c = self.clients@;
        let ghost mut removed_sessions: int = 0;
        let mut i: usize = 0;
        proof {
            reveal(Seq::filter);
            assert(all_s.subrange(0, 0) =~= Seq::<RelaySession>::empty());
            assert(all_s.subrange(0, all_s.len() as int) =~= all_s);
        }
        while i < self.sessions.len()
            invariant
                self.wf(),
                self.clients@ == all_c,
                self.rejected == old(self).rejected,
                alive_s == |s: RelaySession| spec_session_alive(s, now),
                i <= self.sessions@.len(),
                0 <= removed_sessions,
                i + removed_sessions <= all_s.len(),
                self.sessions@.len() + removed_sessions == all_s.len(),
                self.sessions@.subrange(0, i as int) == all_s.subrange(
                    0,
                    i + removed_sessions,
                ).filter(alive_s),
                self.sessions@.subrange(i as int, self.sessions@.len() as int) == all_s.subrange(
                    i + removed_sessions,
                    all_s.len() as int,
                ),
            decreases self.sessions@.len() - i,
        {
            let ghost cur = self.sessions@;
            let ghost k = i + removed_sessions;
            let ghost at = i as int;
            proof {
                assert forall|p: int| at <= p < cur.len() implies #[trigger] cur[p] == all_s[p
                    + removed_sessions] by {
                    assert(cur.subrange(at, cur.len() as int)[p - at] == all_s.subrange(
                        k,
                        all_s.len() as int,
                    )[p - at]);
                }
            }
            let session = self.sessions[i];
            proof {
                reveal(Seq::filter);
                assert(cur[i as int] == cur.subrange(i as int, cur.len() as int)[0]);
                assert(session == all_s[k]);
                let next = all_s.subrange(0, k + 1);
                assert(next.drop_last() =~= all_s.subrange(0, k));
                assert(next.last() == session);
            }
            if now.saturating_sub(session.last_activity) < SESSION_TIMEOUT_MS || now
                < session.last_activity {
                i = i + 1;
                proof {
                    assert(cur.subrange(0, i as int) =~= cur.subrange(0, i - 1).push(session));
                    assert(cur.subrange(i as int, cur.len() as int) =~= all_s.subrange(
                        k + 1,
                        all_s.len() as int,
                    ));
                }
            } else {
                self.sessions.remove(i);
                proof {
                    removed_sessions = removed_sessions + 1;
                    assert(self.sessions@.subrange(0, i as int) =~= cur.subrange(0, i as int));
                    assert(self.sessions@.subrange(i as int, self.sessions@.len() as int)
                        =~= all_s.subrange(k + 1, all_s.len() as int));
                }
            }
        }
        proof {
            assert(self.sessions@.subrange(0, i as int) =~= self.sessions@);
            assert(all_s.subrange(0, all_s.len() as int) =~= all_s);
        }
        let ghost mut removed_clients: int = 0;
        let mut j: usize = 0;
        let ghost kept_s = self.sessions@;
        proof {
            assert(all_c.subrange(0, 0) =~= Seq::<RelayClient>::empty());
        }
        while j < self.clients.len()
            invariant
                self.wf(),
                self.sessions@ == kept_s,
                self.rejected == old(self).rejected,
                alive_c == |c: RelayClient| spec_client_alive(c, now),
                j <= self.clients@.len(),
                0 <= removed_clients,
                j + removed_clients <= all_c.len(),
                self.clients@.len() + removed_clients == all_c.len(),
                self.clients@.subrange(0, j as int) == all_c.subrange(
                    0,
                    j + removed_clients,
                ).filter(alive_c),
                self.clients@.subrange(j as int, self.clients@.len() as int) == all_c.subrange(
                    j + removed_clients,
                    all_c.len() as int,
                ),
            decreases self.clients@.len() - j,
        {
            let ghost cur = self.clients@;
            let ghost k = j + removed_clients;
            let ghost at = j as int;
            proof {
                assert forall|p: int| at <= p < cur.len() implies #[trigger] cur[p] == all_c[p
                    + removed_clients] by {
                    assert(cur.subrange(at, cur.len() as int)[p - at] == all_c.subrange(
                        k,
                        all_c.len() as int,
                    )[p - at]);
                }
            }
            let last_seen: u64 = self.clients[j].last_seen;
            proof {
                reveal(Seq::filter);
                assert(cur[j as int] == cur.subrange(j as int, cur.len() as int)[0]);
                assert(cur[j as int] == all_c[k]);
                let next = all_c.subrange(0, k + 1);
                assert(next.drop_last() =~= all_c.subrange(0, k));
                assert(next.last() == cur[j as int]);
            }
            if now.saturating_sub(last_seen) < CLIENT_TIMEOUT_MS || now < last_seen {
                j = j + 1;
                proof {
                    assert(cur.subrange(0, j as int) =~= cur.subrange(0, j - 1).push(
                        cur[j - 1],
                    ));
                    assert(cur.subrange(j as int, cur.len() as int) =~= all_c.subrange(
                        k + 1,
                        all_c.len() as int,
                    ));
                }
            } else {
                self.clients.remove(j);
                proof {
                    removed_clients = removed_clients + 1;
                    assert(self.clients@.subrange(0, j as int) =~= cur.subrange(0, j as int));
                    assert(self.clients@.subrange(j as int, self.clients@.len() as int)
                        =~= all_c.subrange(k + 1, all_c.len() as int));
                }
            }
        }
        proof {
            assert(self.clients@.subrange(0, j as int) =~= self.clients@);
            assert(all_c.subrange(0, all_c.len() as int) =~= all_c);
        }
        (sessions_before - self.sessions.len(), clients_before - self.clients.len())
    }

    /// Ends an authentication: registers the source under the user its bearer names, or
    /// refuses it. Returns the two bytes to answer with.
    ///
    /// A refused source leaves no trace in the relay.
    pub fn complete_auth(&mut self, src: Address, claims: Option<Claims>, now: u64) -> (reply: [
        u8;
        2
    ])
        requires
            old(self).wf(),
        ensures
            final(self).wf(),
            final(self).spec_sessions() == old(self).spec_sessions(),
            final(self).spec_rejected() == old(self).spec_rejected(),
            match claims {
                None => reply == AUTH_REJECT && final(self).spec_clients() == old(
                    self,
                ).spec_clients(),
                Some(c) => {
                    let entry = RelayClient {
                        addr: src,
                        user_id: c.sub,
                        username: c.username,
                        last_seen: now,
                    };
                    &&& reply == AUTH_ACCEPT
                    &&& final(self).spec_clients() == match spec_client_at(
                        old(self).spec_clients(),
                        src,
                    ) {
                        Some(i) => old(self).spec_clients().update(i, entry),
                        None => old(self).spec_clients().push(entry),
                    }
                },
            },
    {
        match claims {
            None => AUTH_REJECT,
            Some(c) => {
                let entry = RelayClient {
                    addr: src,
                    user_id: c.sub,
                    username: c.username,
                    last_seen: now,
                };
                match self.find_client(src) {
                    Some(i) => {
                        self.clients[i] = entry;
                    },
                    None => {
                        self.clients.push(entry);
                    },
                }
                AUTH_ACCEPT
            },
        }
    }
}

/// Routes a packet within its session.
pub fn route(session: RelaySession, user: u128, src: Address, now: u64) -> (r: (
    RelaySession,
    RelayAction,
))
    ensures
        r == spec_route(session, user, src, now),
{
    let me = RelayPeer { user_id: user, addr: src };
    if session.side_a.user_id == user {
        (
            RelaySession {
                session_id: session.session_id,
                side_a: me,
                side_b: session.side_b,
                last_activity: now,
            },
            match session.side_b {
                Some(b) => RelayAction::Forward { dest: b.addr },
                None => RelayAction::Drop { reason: DropReason::OtherSideAbsent },
            },
        )
    } else {
        match session.side_b {
            Some(b) => {
                if b.user_id == user {
                    (
                        RelaySession {
                            session_id: session.session_id,
                            side_a: session.side_a,
                            side_b: Some(me),
                            last_activity: now,
                        },
                        RelayAction::Forward { dest: session.side_a.addr },
                    )
                } else {
                    (
                        RelaySession {
                            session_id: session.session_id,
                            side_a: session.side_a,
                            side_b: session.side_b,
                            last_activity: now,
                        },
                        RelayAction::Drop { reason: DropReason::SessionFull },
                    )
                }
            },
            None => (
                RelaySession {
                    session_id: session.session_id,
                    side_a: session.side_a,
                    side_b: Some(me),
                    last_activity: now,
                },
                RelayAction::Forward { dest: session.side_a.addr },
            ),
        }
    }
}

} // verus!
