//! The point-to-point mode: a file goes as sealed packets of at most 1428 plaintext
//! bytes, numbered from zero, and the receiver asks again for the numbers it lacks.

use vstd::prelude::*;
use std::collections::HashSet;
use crate::crypto::{
    DecryptError, TransferCrypto, AEAD_MAX_INPUT, spec_sealed_packet,
};
use crate::packet::{
    DataPacket, PacketHeader, FLAG_END, FLAG_RETRANSMIT, FLAG_START, HEADER_SIZE,
    MAX_PLAINTEXT_PER_PACKET, spec_packet_bytes, spec_packet_header_bytes, spec_parse_header,
};

verus! {

broadcast use {
    vstd::slice::group_slice_axioms,
    vstd::array::group_array_axioms,
    vstd::std_specs::hash::group_hash_axioms,
};

/// The sequence number of the packet a receiver greets the relay with. No data packet
/// carries it.
pub const HELLO_SEQUENCE: u64 = u64::MAX;

/// Most sequence numbers in one request for retransmission.
pub const MAX_NACK_SIZE: usize = 500;

/// How far beyond the highest packet received the receiver looks for gaps.
pub const NACK_LOOKAHEAD: u64 = 100;

/// Milliseconds between two requests for retransmission.
pub const NACK_INTERVAL_MS: u64 = 100;

/// Packets between two reports of progress.
pub const PROGRESS_EVERY: u64 = 100;

/// What the control channel tells a sender.
#[derive(Debug, Clone)]
pub enum SenderCommand {
    /// The receiver lacks these packets: send them again.
    Nack(Vec<u64>),
    /// A round trip on the control channel took this many microseconds.
    RttSample(u64),
    /// The receiver has every packet below this number.
    AckUpTo(u64),
    /// Call the transfer off.
    Cancel,
}

/// What a receiver tells the control channel.
#[derive(Debug, Clone)]
pub enum ReceiverEvent {
    /// These packets are missing: tell the sender.
    Nack(Vec<u64>),
    /// Every packet has arrived.
    Done { total_bytes: u64 },
    /// So much has arrived.
    Progress { bytes_received: u64, chunks_received: u64 },
}

/// The outcome of a send that ended well.
#[derive(Debug, Clone, Copy, PartialEq, Eq)]
pub struct SendResult {
    pub total_bytes: u64,
    pub total_packets: u64,
    pub retransmits: u64,
    pub elapsed_micros: u64,
    pub throughput_bps: u64,
}

/// The outcome of a receive that ended well.
#[derive(Debug, Clone, Copy, PartialEq, Eq)]
pub struct RecvResult {
    pub total_bytes: u64,
    pub elapsed_micros: u64,
    pub throughput_bps: u64,
}

/// Why a send failed.
#[derive(Debug, Clone)]
pub enum SendError {
    /// Reading the file or writing the socket failed; the text says how.
    Io(String),
    /// A packet could not be sealed.
    Crypto,
    /// The transfer was called off.
    Cancelled,
    /// The relay refused the bearer, or did not answer.
    AuthFailed,
}

/// Why a receive failed.
#[derive(Debug, Clone)]
pub enum RecvError {
    /// Reading the socket or writing the file failed; the text says how.
    Io(String),
    /// The transfer was called off.
    Cancelled,
    /// The relay refused the bearer, or did not answer.
    AuthFailed,
}

impl SendError {
    /// The message for a person.
    pub fn message(&self) -> (text: String)
        ensures
            text@ == match *self {
                SendError::Io(detail) => "I/O error: "@ + detail@,
                SendError::Crypto => "encryption error"@,
                SendError::Cancelled => "transfer cancelled"@,
                SendError::AuthFailed => "UDP relay authentication failed"@,
            },
    {
        match self {
            SendError::Io(detail) => {
                let mut text = "I/O error: ".to_string();
                vstd::string::StringExecFns::append(&mut text, detail.as_str());
                text
            },
            SendError::Crypto => "encryption error".to_string(),
            SendError::Cancelled => "transfer cancelled".to_string(),
            SendError::AuthFailed => "UDP relay authentication failed".to_string(),
        }
    }
}

impl RecvError {
    /// The message for a person.
    pub fn message(&self) -> (text: String)
        ensures
            text@ == match *self {
                RecvError::Io(detail) => "I/O error: "@ + detail@,
                RecvError::Cancelled => "transfer cancelled"@,
                RecvError::AuthFailed => "UDP relay authentication failed"@,
            },
    {
        match self {
            RecvError::Io(detail) => {
                let mut text = "I/O error: ".to_string();
                vstd::string::StringExecFns::append(&mut text, detail.as_str());
                text
            },
            RecvError::Cancelled => "transfer cancelled".to_string(),
            RecvError::AuthFailed => "UDP relay authentication failed".to_string(),
        }
    }
}

/// Packets of a file of `file_size` bytes: the size over 1428, rounded up.
pub open spec fn spec_packet_count(file_size: int) -> int {
    (file_size + MAX_PLAINTEXT_PER_PACKET - 1) / (MAX_PLAINTEXT_PER_PACKET as int)
}

/// Packets of a file.
pub fn packet_count(file_size: u64) -> (n: u64)
    ensures
        n == spec_packet_count(file_size as int),
{
    let full: u64 = file_size / (MAX_PLAINTEXT_PER_PACKET as u64);
    if file_size % (MAX_PLAINTEXT_PER_PACKET as u64) == 0 {
        full
    } else {
        full + 1
    }
}

/// The flags of packet `sequence` of `total`: the first packet starts the file, the last
/// ends it, and a packet sent again says so.
pub open spec fn spec_packet_flags(sequence: u64, total: u64, retransmit: bool) -> u16 {
    ((if retransmit {
        FLAG_RETRANSMIT as int
    } else {
        0
    }) + (if sequence == 0 {
        FLAG_START as int
    } else {
        0
    }) + (if sequence + 1 == total {
        FLAG_END as int
    } else {
        0
    })) as u16
}

/// The flags of a packet.
pub fn packet_flags(sequence: u64, total: u64, retransmit: bool) -> (flags: u16)
    ensures
        flags == spec_packet_flags(sequence, total, retransmit),
{
    let mut flags: u16 = 0;
    if retransmit {
        flags = flags + FLAG_RETRANSMIT;
    }
    if sequence == 0 {
        flags = flags + FLAG_START;
    }
    if sequence < u64::MAX && sequence + 1 == total {
        flags = flags + FLAG_END;
    }
    flags
}

/// Where the plaintext of packet `sequence` lies in a file of `file_size` bytes, and how
/// long it is; nothing where the file has no byte for that number.
pub open spec fn spec_packet_span(sequence: u64, file_size: u64) -> Option<(u64, usize)> {
    let offset = sequence * MAX_PLAINTEXT_PER_PACKET;
    if offset >= file_size {
        None
    } else if file_size - offset < MAX_PLAINTEXT_PER_PACKET {
        Some((offset as u64, (file_size - offset) as usize))
    } else {
        Some((offset as u64, MAX_PLAINTEXT_PER_PACKET))
    }
}

/// Where to read the plaintext of a packet.
pub fn packet_span(sequence: u64, file_size: u64) -> (r: Option<(u64, usize)>)
    ensures
        r == spec_packet_span(sequence, file_size),
{
    let offset: u64 = match sequence.checked_mul(MAX_PLAINTEXT_PER_PACKET as u64) {
        Some(o) => o,
        None => {
            return None;
        },
    };
    if offset >= file_size {
        return None;
    }
    let remaining: u64 = file_size - offset;
    if remaining < MAX_PLAINTEXT_PER_PACKET as u64 {
        Some((offset, remaining as usize))
    } else {
        Some((offset, MAX_PLAINTEXT_PER_PACKET))
    }
}

/// Bytes of the file that an acknowledgement up to packet `sequence` covers.
pub fn acked_bytes(sequence: u64, file_size: u64) -> (bytes: u64)
    ensures
        bytes == if sequence * MAX_PLAINTEXT_PER_PACKET < file_size {
            sequence * MAX_PLAINTEXT_PER_PACKET
        } else {
            file_size as int
        },
{
    match sequence.checked_mul(MAX_PLAINTEXT_PER_PACKET as u64) {
        Some(b) => if b < file_size {
            b
        } else {
            file_size
        },
        None => file_size,
    }
}

/// Seals one packet and puts its header in front.
///
/// Fails only where the plaintext is longer than the cipher takes, which no packet of at
/// most 1428 bytes is.
pub fn build_packet(
    crypto: &TransferCrypto,
    session_id: u32,
    sequence: u64,
    flags: u16,
    plaintext: &[u8],
) -> (r: Result<Vec<u8>, SendError>)
    ensures
        r is Ok <==> plaintext@.len() <= AEAD_MAX_INPUT,
        r matches Ok(bytes) ==> bytes@ == spec_packet_bytes(
            PacketHeader { session_id, sequence, flags },
            spec_sealed_packet(crypto.spec_key(), session_id, sequence, plaintext@),
        ),
        r matches Err(e) ==> e is Crypto,
{
    match crypto.encrypt(session_id, sequence, plaintext) {
        Ok(encrypted_payload) => {
            let packet = DataPacket {
                header: PacketHeader { session_id, sequence, flags },
                encrypted_payload,
            };
            Ok(packet.to_bytes())
        },
        Err(_) => Err(SendError::Crypto),
    }
}

/// The packet a receiver sends the relay first, so that the relay learns its address: a
/// bare header with the greeting's sequence number.
pub fn hello_packet(session_id: u32) -> (bytes: [u8; 16])
    ensures
        bytes@ == spec_packet_header_bytes(
            PacketHeader { session_id, sequence: HELLO_SEQUENCE, flags: 0 },
        ),
{
    let mut bytes: [u8; 16] = [0u8; 16];
    let header = PacketHeader { session_id, sequence: HELLO_SEQUENCE, flags: 0 };
    header.write_to(&mut bytes);
    assert(bytes@ =~= spec_packet_header_bytes(header));
    bytes
}

/// The packets a sender has been asked to send again and has not yet sent.
pub struct PendingNacks {
    queue: Vec<u64>,
}

impl PendingNacks {
    /// The sequence numbers waiting.
    pub closed spec fn view(&self) -> Set<u64> {
        self.queue@.to_set()
    }

    /// No number waits twice.
    pub closed spec fn wf(&self) -> bool {
        self.queue@.no_duplicates()
    }

    /// Nothing waits.
    pub fn new() -> (p: Self)
        ensures
            p.wf(),
            p.view() == Set::<u64>::empty(),
    {
        let p = PendingNacks { queue: Vec::new() };
        assert(p.queue@.to_set() =~= Set::<u64>::empty());
        p
    }

    /// Whether nothing waits.
    pub fn is_empty(&self) -> (r: bool)
        ensures
            r == (self.view() == Set::<u64>::empty()),
    {
        proof {
            if self.queue@.len() > 0 {
                assert(self.queue@.to_set().contains(self.queue@[0]));
            } else {
                assert(self.queue@.to_set() =~= Set::<u64>::empty());
            }
        }
        self.queue.len() == 0
    }

    /// Adds the numbers of a request; one that waits already is not added again.
    pub fn extend(&mut self, sequences: &[u64])
        requires
            old(self).wf(),
        ensures
            final(self).wf(),
            final(self).view() == old(self).view().union(sequences@.to_set()),
    {
        let n: usize = sequences.len();
        let mut i: usize = 0;
        proof {
            assert(sequences@.subrange(0, 0).to_set() =~= Set::<u64>::empty());
            assert(self.view().union(Set::<u64>::empty()) =~= self.view());
        }
        while i < n
            invariant
                n == sequences@.len(),
                i <= n,
                self.wf(),
                self.view() == old(self).view().union(sequences@.subrange(0, i as int).to_set()),
            decreases n - i,
        {
            let s: u64 = sequences[i];
            let ghost before = self.queue@;
            assert(before.to_set() == old(self).view().union(
                sequences@.subrange(0, i as int).to_set(),
            ));
            let present = contains_u64(&self.queue, s);
            if !present {
                self.queue.push(s);
            }
            proof {
                let seen = sequences@.subrange(0, i as int);
                let next = sequences@.subrange(0, i + 1);
                assert(next =~= seen.push(s));
                assert forall|x: u64| next.to_set().contains(x) == (seen.to_set().contains(x)
                    || x == s) by {
                    if seen.contains(x) {
                        let t = choose|t: int| 0 <= t < seen.len() && seen[t] == x;
                        assert(next[t] == x);
                    }
                    if next.contains(x) {
                        let t = choose|t: int| 0 <= t < next.len() && next[t] == x;
                        if t < seen.len() {
                            assert(seen[t] == x);
                        }
                    }
                    assert(next[i as int] == s);
                }
                assert forall|x: u64| self.queue@.to_set().contains(x) == (before.to_set().contains(
                    x,
                ) || x == s) by {
                    if before.contains(x) {
                        let t = choose|t: int| 0 <= t < before.len() && before[t] == x;
                        assert(self.queue@[t] == x);
                    }
                    if self.queue@.contains(x) {
                        let t = choose|t: int| 0 <= t < self.queue@.len() && self.queue@[t] == x;
                        if t < before.len() {
                            assert(before[t] == x);
                        }
                    }
                    if !present {
                        assert(self.queue@[before.len() as int] == s);
                    }
                }
                assert forall|x: u64| self.view().contains(x) == old(self).view().union(
                    next.to_set(),
                ).contains(x) by {
                    assert(self.queue@.to_set().contains(x) == (before.to_set().contains(x) || x
                        == s));
                    assert(next.to_set().contains(x) == (seen.to_set().contains(x) || x == s));
                    assert(before.to_set().contains(x) == (old(self).view().contains(x)
                        || seen.to_set().contains(x)));
                }
                assert(self.view() =~= old(self).view().union(next.to_set()));
            }
            i = i + 1;
        }
        assert(sequences@.subrange(0, n as int) =~= sequences@);
    }

    /// Takes one waiting number, if any waits. Which one is not promised.
    pub fn take(&mut self) -> (r: Option<u64>)
        requires
            old(self).wf(),
        ensures
            final(self).wf(),
            match r {
                Some(s) => old(self).view().contains(s) && final(self).view() == old(
                    self,
                ).view().remove(s),
                None => old(self).view() == Set::<u64>::empty() && final(self).view() == old(
                    self,
                ).view(),
            },
    {
        let ghost before = self.queue@;
        let r = self.queue.pop();
        proof {
            match r {
                Some(s) => {
                    assert(before[before.len() - 1] == s);
                    assert(before.contains(s));
                    assert forall|x: u64| self.queue@.to_set().contains(x) == (
                    before.to_set().contains(x) && x != s) by {
                        if self.queue@.contains(x) {
                            let t = choose|t: int|
                                0 <= t < self.queue@.len() && self.queue@[t] == x;
                            assert(before[t] == x);
                        }
                        if before.contains(x) && x != s {
                            let t = choose|t: int| 0 <= t < before.len() && before[t] == x;
                            assert(self.queue@[t] == x);
                        }
                    }
                    assert(self.view() =~= old(self).view().remove(s));
                },
                None => {
                    assert(before.to_set() =~= Set::<u64>::empty());
                },
            }
        }
        r
    }
}

/// What the sender does next while it still has packets to send for the first time.
#[derive(Debug, Clone, Copy, PartialEq, Eq, Structural)]
pub enum NextPacket {
    /// Every packet has been sent once.
    Finished,
    /// A packet that was asked for again does not exist in the file: nothing is sent.
    Skip,
    /// Read `len` bytes at `offset`, seal them as packet `sequence` with `flags`, and send.
    Send { sequence: u64, retransmit: bool, flags: u16, offset: u64, len: usize },
}

/// Which packet a sender sends next, and what it has sent.
pub struct SendPlan {
    file_size: u64,
    total: u64,
    sequence: u64,
    pending: PendingNacks,
    bytes_sent: u64,
    retransmits: u64,
}

impl SendPlan {
    /// Bytes of the file.
    pub closed spec fn spec_file_size(&self) -> u64 {
        self.file_size
    }

    /// Packets sent for the first time so far; also the number of the next new packet.
    pub closed spec fn spec_sequence(&self) -> u64 {
        self.sequence
    }

    /// Packets asked for again and not yet sent again.
    pub closed spec fn spec_pending(&self) -> Set<u64> {
        self.pending.view()
    }

    /// Plaintext bytes sent, first sends and repeats together.
    pub closed spec fn spec_bytes_sent(&self) -> u64 {
        self.bytes_sent
    }

    /// Packets sent again.
    pub closed spec fn spec_retransmits(&self) -> u64 {
        self.retransmits
    }

    /// The plan is consistent.
    pub closed spec fn wf(&self) -> bool {
        &&& self.pending.wf()
        &&& self.total == spec_packet_count(self.file_size as int)
        &&& self.sequence <= self.total
    }

    /// The plan for a file of `file_size` bytes, nothing sent.
    pub fn new(file_size: u64) -> (p: Self)
        ensures
            p.wf(),
            p.spec_file_size() == file_size,
            p.spec_sequence() == 0,
            p.spec_pending() == Set::<u64>::empty(),
            p.spec_bytes_sent() == 0,
            p.spec_retransmits() == 0,
    {
        SendPlan {
            file_size,
            total: packet_count(file_size),
            sequence: 0,
            pending: PendingNacks::new(),
            bytes_sent: 0,
            retransmits: 0,
        }
    }

    /// Packets of the file.
    pub fn total(&self) -> (n: u64)
        requires
            self.wf(),
        ensures
            n == spec_packet_count(self.spec_file_size() as int),
    {
        self.total
    }

    /// Packets sent for the first time so far.
    pub fn sequence(&self) -> (n: u64)
        ensures
            n == self.spec_sequence(),
    {
        self.sequence
    }

    /// Plaintext bytes sent.
    pub fn bytes_sent(&self) -> (n: u64)
        ensures
            n == self.spec_bytes_sent(),
    {
        self.bytes_sent
    }

    /// Packets sent again.
    pub fn retransmits(&self) -> (n: u64)
        ensures
            n == self.spec_retransmits(),
    {
        self.retransmits
    }

    /// Whether no packet waits to be sent again.
    pub fn nothing_pending(&self) -> (r: bool)
        ensures
            r == (self.spec_pending() == Set::<u64>::empty()),
    {
        self.pending.is_empty()
    }

    /// Takes a request for retransmission.
    pub fn on_nack(&mut self, sequences: &[u64])
        requires
            old(self).wf(),
        ensures
            final(self).wf(),
            final(self).spec_pending() == old(self).spec_pending().union(sequences@.to_set()),
            final(self).spec_file_size() == old(self).spec_file_size(),
            final(self).spec_sequence() == old(self).spec_sequence(),
            final(self).spec_bytes_sent() == old(self).spec_bytes_sent(),
            final(self).spec_retransmits() == old(self).spec_retransmits(),
    {
        self.pending.extend(sequences);
    }

    /// Chooses the next packet: one that was asked for again if any waits, else the next
    /// new one. Once every packet has been sent for the first time there is no next.
    pub fn next(&mut self) -> (r: NextPacket)
        requires
            old(self).wf(),
        ensures
            final(self).wf(),
            final(self).spec_file_size() == old(self).spec_file_size(),
            final(self).spec_sequence() == old(self).spec_sequence(),
            final(self).spec_bytes_sent() == old(self).spec_bytes_sent(),
            final(self).spec_retransmits() == old(self).spec_retransmits(),
            match r {
                NextPacket::Finished => {
                    &&& old(self).spec_sequence() >= spec_packet_count(
                        old(self).spec_file_size() as int,
                    )
                    &&& final(self).spec_pending() == old(self).spec_pending()
                },
                NextPacket::Skip => {
                    &&& old(self).spec_sequence() < spec_packet_count(
                        old(self).spec_file_size() as int,
                    )
                    &&& exists|s: u64|
                        #![trigger old(self).spec_pending().contains(s)]
                        old(self).spec_pending().contains(s) && spec_packet_span(
                            s,
                            old(self).spec_file_size(),
                        ) is None && final(self).spec_pending() == old(self).spec_pending().remove(
                            s,
                        )
                },
                NextPacket::Send { sequence, retransmit, flags, offset, len } => {
                    &&& old(self).spec_sequence() < spec_packet_count(
                        old(self).spec_file_size() as int,
                    )
                    &&& spec_packet_span(sequence, old(self).spec_file_size()) == Some(
                        (offset, len),
                    )
                    &&& flags == spec_packet_flags(
                        sequence,
                        spec_packet_count(old(self).spec_file_size() as int) as u64,
                        retransmit,
                    )
                    &&& if retransmit {
                        &&& old(self).spec_pending().contains(sequence)
                        &&& final(self).spec_pending() == old(self).spec_pending().remove(
                            sequence,
                        )
                    } else {
                        &&& old(self).spec_pending() == Set::<u64>::empty()
                        &&& final(self).spec_pending() == old(self).spec_pending()
                        &&& sequence == old(self).spec_sequence()
                    }
                },
            },
    {
        if self.sequence >= self.total {
            return NextPacket::Finished;
        }
        match self.pending.take() {
            Some(s) => match packet_span(s, self.file_size) {
                Some((offset, len)) => NextPacket::Send {
                    sequence: s,
                    retransmit: true,
                    flags: packet_flags(s, self.total, true),
                    offset,
                    len,
                },
                None => {
                    assert(old(self).spec_pending().contains(s));
                    NextPacket::Skip
                },
            },
            None => {
                let sequence = self.sequence;
                assert(spec_packet_span(sequence, self.file_size) is Some) by {
                    let total = spec_packet_count(self.file_size as int);
                    assert(total == (self.file_size + 1427) / 1428);
                    assert(sequence + 1 <= total);
                    assert(sequence * 1428 < self.file_size);
                    assert(sequence * MAX_PLAINTEXT_PER_PACKET == sequence * 1428);
                }
                match packet_span(sequence, self.file_size) {
                    Some((offset, len)) => NextPacket::Send {
                        sequence,
                        retransmit: false,
                        flags: packet_flags(sequence, self.total, false),
                        offset,
                        len,
                    },
                    // a packet below the count always has bytes
                    None => NextPacket::Finished,
                }
            },
        }
    }

    /// Counts a packet of `len` plaintext bytes as sent.
    pub fn sent(&mut self, retransmit: bool, len: usize)
        requires
            old(self).wf(),
            !retransmit ==> old(self).spec_sequence() < spec_packet_count(
                old(self).spec_file_size() as int,
            ),
        ensures
            final(self).wf(),
            final(self).spec_file_size() == old(self).spec_file_size(),
            final(self).spec_pending() == old(self).spec_pending(),
            final(self).spec_bytes_sent() == if old(self).spec_bytes_sent() + len > u64::MAX {
                u64::MAX
            } else {
                (old(self).spec_bytes_sent() + len) as u64
            },
            final(self).spec_sequence() == old(self).spec_sequence() + if retransmit {
                0int
            } else {
                1int
            },
            final(self).spec_retransmits() == if retransmit && old(self).spec_retransmits()
                < u64::MAX {
                (old(self).spec_retransmits() + 1) as u64
            } else {
                old(self).spec_retransmits()
            },
    {
        self.bytes_sent = self.bytes_sent.saturating_add(len as u64);
        if retransmit {
            if self.retransmits < u64::MAX {
                self.retransmits = self.retransmits + 1;
            }
        } else {
            self.sequence = self.sequence + 1;
        }
    }
}

fn contains_u64(v: &Vec<u64>, x: u64) -> (r: bool)
    ensures
        r == v@.contains(x),
{
    let mut i: usize = 0;
    while i < v.len()
        invariant
            i <= v@.len(),
            forall|j: int| 0 <= j < i ==> v@[j] != x,
        decreases v@.len() - i,
    {
        if v[i] == x {
            return true;
        }
        i = i + 1;
    }
    false
}

/// What a receiver makes of one datagram.
pub enum PacketOutcome {
    /// Not a packet of this protocol, or one with no payload.
    NotAPacket,
    /// A packet of another session.
    OtherSession,
    /// The greeting of a receiver.
    Hello,
    /// A packet that has arrived before.
    Duplicate,
    /// A packet that did not open; the sender will be asked for it again.
    Rejected { sequence: u64, error: DecryptError },
    /// A new packet, opened: its plaintext belongs at `sequence` times 1428 in the file.
    Data { sequence: u64, plaintext: Vec<u8> },
}

/// Which packets of a file have arrived.
pub struct SequenceTracker {
    received: HashSet<u64>,
    highest: u64,
    total: u64,
}

/// `list` names the lowest missing sequence numbers below `end`, in ascending order, all
/// of them or the first `limit`.
pub open spec fn spec_missing_sequences(
    list: Seq<u64>,
    received: Set<u64>,
    end: u64,
    limit: int,
) -> bool {
    &&& forall|i: int, j: int| 0 <= i < j < list.len() ==> list[i] < list[j]
    &&& list.len() <= limit
    &&& forall|i: int| 0 <= i < list.len() ==> list[i] < end && !received.contains(list[i])
    &&& forall|k: u64|
        k < end && !received.contains(k) ==> list.contains(k) || (list.len() == limit
            && list.last() < k)
}

impl SequenceTracker {
    /// The sequence numbers received.
    pub closed spec fn view(&self) -> Set<u64> {
        self.received@
    }

    /// Packets of the file.
    pub closed spec fn spec_total(&self) -> u64 {
        self.total
    }

    /// The highest sequence number received, or zero if none has been.
    pub closed spec fn spec_highest(&self) -> u64 {
        self.highest
    }

    /// The record is consistent: the highest number is the highest.
    pub closed spec fn wf(&self) -> bool {
        &&& forall|x: u64| self.received@.contains(x) ==> x <= self.highest
        &&& self.highest == 0 || self.received@.contains(self.highest)
    }

    /// What consistency means to a caller.
    pub proof fn lemma_wf(&self)
        requires
            self.wf(),
        ensures
            forall|x: u64| self@.contains(x) ==> x <= self.spec_highest(),
            self.spec_highest() == 0 || self@.contains(self.spec_highest()),
    {
    }

    /// Where the search for gaps ends: a hundred beyond the highest packet received, but
    /// not beyond the file.
    pub open spec fn spec_scan_end(&self) -> u64 {
        if self.spec_highest() + NACK_LOOKAHEAD < self.spec_total() {
            (self.spec_highest() + NACK_LOOKAHEAD) as u64
        } else {
            self.spec_total()
        }
    }

    /// A record for a file of `total` packets, none received.
    pub fn new(total: u64) -> (t: Self)
        ensures
            t.wf(),
            t@ == Set::<u64>::empty(),
            t.spec_total() == total,
            t.spec_highest() == 0,
    {
        SequenceTracker { received: HashSet::new(), highest: 0, total }
    }

    /// Whether packet `sequence` has arrived.
    pub fn has(&self, sequence: u64) -> (r: bool)
        ensures
            r == self@.contains(sequence),
    {
        self.received.contains(&sequence)
    }

    /// Records packet `sequence`; returns how many packets have arrived.
    pub fn record(&mut self, sequence: u64) -> (count: usize)
        requires
            old(self).wf(),
        ensures
            final(self).wf(),
            final(self)@ == old(self)@.insert(sequence),
            final(self).spec_total() == old(self).spec_total(),
            count == final(self)@.len(),
    {
        self.received.insert(sequence);
        if sequence > self.highest {
            self.highest = sequence;
        }
        self.received.len()
    }

    /// Whether as many packets have arrived as the file has.
    pub fn is_complete(&self) -> (r: bool)
        ensures
            r == (self@.len() >= self.spec_total()),
    {
        self.received.len() as u64 >= self.total
    }

    /// The packets to ask for again: the lowest numbers not received, up to 500, looking no
    /// further than a hundred beyond the highest received. Nothing once the file is
    /// complete.
    pub fn nack_scan(&self) -> (missing: Vec<u64>)
        requires
            self.wf(),
        ensures
            self@.len() >= self.spec_total() ==> missing@.len() == 0,
            self@.len() < self.spec_total() ==> spec_missing_sequences(
                missing@,
                self@,
                self.spec_scan_end(),
                MAX_NACK_SIZE as int,
            ),
    {
        let mut missing: Vec<u64> = Vec::new();
        if self.received.len() as u64 >= self.total {
            return missing;
        }
        let end: u64 = match self.highest.checked_add(NACK_LOOKAHEAD) {
            Some(e) => if e < self.total {
                e
            } else {
                self.total
            },
            None => self.total,
        };
        let mut seq: u64 = 0;
        while seq < end && missing.len() < MAX_NACK_SIZE
            invariant
                seq <= end,
                missing@.len() <= MAX_NACK_SIZE,
                forall|i: int, j: int| 0 <= i < j < missing@.len() ==> missing@[i] < missing@[j],
                forall|i: int|
                    0 <= i < missing@.len() ==> missing@[i] < seq && !self@.contains(missing@[i]),
                forall|k: u64| k < seq && !self@.contains(k) ==> missing@.contains(k),
            decreases end - seq,
        {
            let ghost prev = missing@;
            if !self.received.contains(&seq) {
                missing.push(seq);
                proof {
                    assert(missing@[prev.len() as int] == seq);
                    assert forall|k: u64| k < seq + 1 && !self@.contains(
                        k,
                    ) implies missing@.contains(k) by {
                        if k < seq {
                            let t = choose|t: int| 0 <= t < prev.len() && prev[t] == k;
                            assert(missing@[t] == k);
                        }
                    }
                }
            }
            seq = seq + 1;
        }
        proof {
            assert forall|k: u64| k < end && !self@.contains(k) implies missing@.contains(k) || (
            missing@.len() == MAX_NACK_SIZE && missing@.last() < k) by {
                if k >= seq {
                    assert(missing@.len() == MAX_NACK_SIZE);
                    assert(missing@[missing@.len() - 1] < seq);
                }
            }
        }
        missing
    }

    /// Screens one datagram: is it a new data packet of this session, and does it open?
    ///
    /// Nothing is recorded; a packet counts as received only once its plaintext is written
    /// and `record` is called.
    pub fn screen(&self, crypto: &TransferCrypto, session_id: u32, buf: &[u8]) -> (r:
        PacketOutcome)
        ensures
            match r {
                PacketOutcome::NotAPacket => spec_parse_header(buf@) is None || buf@.len()
                    <= HEADER_SIZE,
                PacketOutcome::OtherSession => {
                    &&& buf@.len() > HEADER_SIZE
                    &&& spec_parse_header(buf@) matches Some(h)
                    &&& h.session_id != session_id
                },
                PacketOutcome::Hello => {
                    &&& buf@.len() > HEADER_SIZE
                    &&& spec_parse_header(buf@) matches Some(h)
                    &&& h.session_id == session_id
                    &&& h.sequence == HELLO_SEQUENCE
                },
                PacketOutcome::Duplicate => {
                    &&& buf@.len() > HEADER_SIZE
                    &&& spec_parse_header(buf@) matches Some(h)
                    &&& h.session_id == session_id
                    &&& h.sequence != HELLO_SEQUENCE
                    &&& self@.contains(h.sequence)
                },
                PacketOutcome::Rejected { sequence, error } => {
                    &&& buf@.len() > HEADER_SIZE
                    &&& spec_parse_header(buf@) matches Some(h)
                    &&& h.session_id == session_id
                    &&& h.sequence == sequence
                    &&& sequence != HELLO_SEQUENCE
                    &&& !self@.contains(sequence)
                    &&& crypto.spec_decrypt(
                        session_id,
                        sequence,
                        buf@.subrange(HEADER_SIZE as int, buf@.len() as int),
                    ) == Err::<Seq<u8>, DecryptError>(error)
                },
                PacketOutcome::Data { sequence, plaintext } => {
                    &&& buf@.len() > HEADER_SIZE
                    &&& spec_parse_header(buf@) matches Some(h)
                    &&& h.session_id == session_id
                    &&& h.sequence == sequence
                    &&& sequence != HELLO_SEQUENCE
                    &&& !self@.contains(sequence)
                    &&& crypto.spec_decrypt(
                        session_id,
                        sequence,
                        buf@.subrange(HEADER_SIZE as int, buf@.len() as int),
                    ) == Ok::<Seq<u8>, DecryptError>(plaintext@)
                },
            },
    {
        let packet = match DataPacket::from_bytes(buf) {
            Some(p) => p,
            None => {
                return PacketOutcome::NotAPacket;
            },
        };
        if packet.header.session_id != session_id {
            return PacketOutcome::OtherSession;
        }
        let sequence: u64 = packet.header.sequence;
        if sequence == HELLO_SEQUENCE {
            return PacketOutcome::Hello;
        }
        if self.received.contains(&sequence) {
            return PacketOutcome::Duplicate;
        }
        match crypto.decrypt(session_id, sequence, packet.encrypted_payload.as_slice()) {
            Ok(plaintext) => PacketOutcome::Data { sequence, plaintext },
            Err(error) => PacketOutcome::Rejected { sequence, error },
        }
    }
}

/// Where the plaintext of packet `sequence` is written: the sequence number times 1428,
/// if a 64-bit offset can say it.
pub fn write_offset(sequence: u64) -> (r: Option<u64>)
    ensures
        match r {
            Some(offset) => offset == sequence * MAX_PLAINTEXT_PER_PACKET,
            None => sequence * MAX_PLAINTEXT_PER_PACKET > u64::MAX,
        },
{
    sequence.checked_mul(MAX_PLAINTEXT_PER_PACKET as u64)
}

/// Whether progress is reported after the `count`th packet: after every hundredth.
pub fn progress_due(count: u64) -> (due: bool)
    ensures
        due == (count % PROGRESS_EVERY == 0),
{
    count % PROGRESS_EVERY == 0
}

/// Two packets of a file never overlap: each has its own 1428 bytes.
pub proof fn lemma_packets_disjoint(i: u64, j: u64, file_size: u64)
    requires
        i != j,
        spec_packet_span(i, file_size) is Some,
        spec_packet_span(j, file_size) is Some,
    ensures
        ({
            let a = spec_packet_span(i, file_size)->0;
            let b = spec_packet_span(j, file_size)->0;
            a.0 + a.1 <= b.0 || b.0 + b.1 <= a.0
        }),
{
}

} // verus!
