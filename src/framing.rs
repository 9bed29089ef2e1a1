//! The datagram framing layer: a header, then a sequence of commands, some
//! of which carry a message and some of which carry one fragment of a
//! message that is reassembled once all its fragments have arrived.

use std::collections::HashMap;
use vstd::prelude::*;

use crate::codec::{
    body_readable, event_read, request_read, response_fails, response_read, deserialize_event_data, deserialize_operation_request, deserialize_operation_response,
    went_on, DecodeFailure, EventData, OperationRequest, OperationResponse,
};
use crate::cursor::{be_u16, be_u32, signed16, to_i16, Cursor};

verus! {

/// Width of the reliable command header as the wire length counts it.
pub const RELIABLE_COMMAND_SIZE: u32 = 12;

/// Width of the field that an unreliable command adds.
pub const UNRELIABLE_EXTRA: u32 = 4;

/// Width of the five fields that a fragment adds.
pub const FRAGMENT_EXTRA: u32 = 20;

/// Where a decode error arose, from the innermost place outwards.
#[derive(Clone, Copy, Debug, PartialEq, Eq, Structural)]
pub enum Frame {
    Request,
    Response,
    Event,
    SendReliable,
    Fragment,
}

/// A decode failure with the trail of places it passed through.
#[derive(Clone, Debug, PartialEq, Eq)]
pub struct PhotonDecodeError {
    pub cause: DecodeFailure,
    pub context: Vec<Frame>,
}

impl PhotonDecodeError {
    pub fn new(cause: DecodeFailure) -> (r: PhotonDecodeError)
        ensures
            r.cause == cause,
            r.context@.len() == 0,
    {
        PhotonDecodeError { cause, context: Vec::new() }
    }

    /// Adds the place the failure is passing through on its way out.
    pub fn extend(self, frame: Frame) -> (r: PhotonDecodeError)
        ensures
            r.cause == self.cause,
            r.context@ == self.context@.push(frame),
    {
        let mut context = self.context;
        context.push(frame);
        PhotonDecodeError { cause: self.cause, context }
    }
}

#[derive(Clone, Copy, Debug, PartialEq, Eq, Structural)]
pub struct PhotonHeader {
    pub peer_id: i16,
    pub crc_enabled: bool,
    pub command_count: u8,
    pub timestamp: u32,
    pub challenge: u32,
}

#[derive(Clone, Copy, Debug, PartialEq, Eq, Structural)]
pub struct ReliableCommand {
    pub channel_id: u8,
    pub flags: u8,
    pub reserved_byte: u8,
    /// The length of what follows the command header.
    pub msg_len: u32,
    pub reliable_sequence_number: u32,
}

#[derive(Clone, Copy, Debug, PartialEq, Eq, Structural)]
pub struct UnreliableCommand {
    pub reliable_command: ReliableCommand,
    pub unknown: u32,
}

#[derive(Debug)]
pub struct ReliableFragment {
    pub reliable_command: ReliableCommand,
    pub sequence_number: u32,
    pub fragment_count: u32,
    pub fragment_number: u32,
    pub total_length: u32,
    pub operation_length: u32,
    pub payload: Vec<u8>,
}

#[derive(Debug)]
pub enum Command {
    LogOut,
    SendUnreliable(ReliableCommand),
    SendReliable(ReliableCommand),
    SendReliableFragment(ReliableFragment),
}

/// A message of the protocol layer.
#[derive(Debug, PartialEq)]
pub enum Message {
    Request(OperationRequest),
    Response(OperationResponse),
    Event(EventData),
}

/// The header that the first twelve bytes of `s` spell.
pub open spec fn header_at(s: Seq<u8>) -> PhotonHeader {
    PhotonHeader {
        peer_id: signed16(be_u16(s, 0)) as i16,
        crc_enabled: s[2] != 0,
        command_count: s[3],
        timestamp: be_u32(s, 4) as u32,
        challenge: be_u32(s, 8) as u32,
    }
}

/// The reliable command header that the eleven bytes at `p` spell, if its
/// length covers the header itself.
pub open spec fn reliable_command_at(s: Seq<u8>, p: int) -> Option<ReliableCommand> {
    if be_u32(s, p + 3) < RELIABLE_COMMAND_SIZE {
        None
    } else {
        Some(
            ReliableCommand {
                channel_id: s[p],
                flags: s[p + 1],
                reserved_byte: s[p + 2],
                msg_len: (be_u32(s, p + 3) - RELIABLE_COMMAND_SIZE) as u32,
                reliable_sequence_number: be_u32(s, p + 7) as u32,
            },
        )
    }
}

/// The payloads of `fragments` one after another, in the order given.
pub open spec fn joined_payloads(fragments: Seq<ReliableFragment>) -> Seq<u8>
    decreases fragments.len(),
{
    if fragments.len() == 0 {
        Seq::empty()
    } else {
        joined_payloads(fragments.drop_last()) + fragments.last().payload@
    }
}

/// Reads the datagram header.
pub fn decode_header(c: &mut Cursor) -> (r: Result<PhotonHeader, DecodeFailure>)
    requires
        old(c).wf(),
    ensures
        went_on(old(c), final(c)),
        old(c).rest() < 12 ==> r == Err::<PhotonHeader, DecodeFailure>(
            DecodeFailure::NotEnoughBytes,
        ),
        old(c).rest() >= 12 ==> r == Ok::<PhotonHeader, DecodeFailure>(
            header_at(old(c).unread()),
        ) && old(c).moved(final(c), 12),
{
    if c.remaining() < 12 {
        return Err(DecodeFailure::NotEnoughBytes);
    }
    let peer_id = to_i16(c.read_u16().unwrap());
    let crc_enabled = c.read_u8().unwrap() != 0;
    let command_count = c.read_u8().unwrap();
    let timestamp = c.read_u32().unwrap();
    let challenge = c.read_u32().unwrap();
    Ok(PhotonHeader { peer_id, crc_enabled, command_count, timestamp, challenge })
}

/// Reads the header shared by reliable, unreliable and fragment commands.
pub fn decode_reliable_command(c: &mut Cursor) -> (r: Result<ReliableCommand, DecodeFailure>)
    requires
        old(c).wf(),
    ensures
        went_on(old(c), final(c)),
        old(c).rest() < 11 ==> r == Err::<ReliableCommand, DecodeFailure>(
            DecodeFailure::NotEnoughBytes,
        ),
        old(c).rest() >= 11 ==> old(c).moved(final(c), 11) && match reliable_command_at(
            old(c).bytes(),
            old(c).pos(),
        ) {
            Some(rc) => r == Ok::<ReliableCommand, DecodeFailure>(rc),
            None => r == Err::<ReliableCommand, DecodeFailure>(DecodeFailure::InvalidLength),
        },
{
    if c.remaining() < 11 {
        return Err(DecodeFailure::NotEnoughBytes);
    }
    let channel_id = c.read_u8().unwrap();
    let flags = c.read_u8().unwrap();
    let reserved_byte = c.read_u8().unwrap();
    let length = c.read_u32().unwrap();
    let reliable_sequence_number = c.read_u32().unwrap();
    if length < RELIABLE_COMMAND_SIZE {
        return Err(DecodeFailure::InvalidLength);
    }
    Ok(
        ReliableCommand {
            channel_id,
            flags,
            reserved_byte,
            msg_len: length - RELIABLE_COMMAND_SIZE,
            reliable_sequence_number,
        },
    )
}

/// Reads an unreliable command: the reliable header and one more field,
/// which the payload length no longer counts.
pub fn decode_unreliable_command(c: &mut Cursor) -> (r: Result<UnreliableCommand, DecodeFailure>)
    requires
        old(c).wf(),
    ensures
        went_on(old(c), final(c)),
        old(c).rest() < 15 ==> r == Err::<UnreliableCommand, DecodeFailure>(
            DecodeFailure::NotEnoughBytes,
        ),
        r is Ok ==> old(c).moved(final(c), 15) && reliable_command_at(
            old(c).bytes(),
            old(c).pos(),
        ) is Some && {
            let rc = reliable_command_at(old(c).bytes(), old(c).pos())->0;
            &&& rc.msg_len >= UNRELIABLE_EXTRA
            &&& r->Ok_0.reliable_command == ReliableCommand {
                msg_len: (rc.msg_len - UNRELIABLE_EXTRA) as u32,
                ..rc
            }
            &&& r->Ok_0.unknown == be_u32(old(c).bytes(), old(c).pos() + 11)
        },
        old(c).rest() >= 15 ==> (r is Ok <==> (reliable_command_at(old(c).bytes(), old(c).pos()) is Some
            && reliable_command_at(old(c).bytes(), old(c).pos())->0.msg_len >= UNRELIABLE_EXTRA)),
{
    if c.remaining() < 15 {
        return Err(DecodeFailure::NotEnoughBytes);
    }
    let rc = decode_reliable_command(c)?;
    let unknown = c.read_u32().unwrap();
    if rc.msg_len < UNRELIABLE_EXTRA {
        return Err(DecodeFailure::InvalidLength);
    }
    Ok(
        UnreliableCommand {
            reliable_command: ReliableCommand { msg_len: rc.msg_len - UNRELIABLE_EXTRA, ..rc },
            unknown,
        },
    )
}

/// Reads a fragment command: the reliable header, five more fields, then
/// exactly the payload that the remaining length announces.
pub fn decode_reliable_fragment(c: &mut Cursor) -> (r: Result<ReliableFragment, DecodeFailure>)
    requires
        old(c).wf(),
    ensures
        went_on(old(c), final(c)),
        old(c).rest() < 31 ==> r == Err::<ReliableFragment, DecodeFailure>(
            DecodeFailure::NotEnoughBytes,
        ),
        r is Ok ==> reliable_command_at(old(c).bytes(), old(c).pos()) is Some && {
            let rc = reliable_command_at(old(c).bytes(), old(c).pos())->0;
            let f = r->Ok_0;
            let p = old(c).pos();
            let s = old(c).bytes();
            &&& rc.msg_len >= FRAGMENT_EXTRA
            &&& f.reliable_command == ReliableCommand {
                msg_len: (rc.msg_len - FRAGMENT_EXTRA) as u32,
                ..rc
            }
            &&& f.sequence_number == be_u32(s, p + 11)
            &&& f.fragment_count == be_u32(s, p + 15)
            &&& f.fragment_number == be_u32(s, p + 19)
            &&& f.total_length == be_u32(s, p + 23)
            &&& f.operation_length == be_u32(s, p + 27)
            &&& f.payload@ == s.subrange(p + 31, p + 31 + f.reliable_command.msg_len)
            &&& old(c).moved(final(c), 31 + f.reliable_command.msg_len)
        },
        old(c).rest() >= 31 && reliable_command_at(old(c).bytes(), old(c).pos()) is Some
            && reliable_command_at(old(c).bytes(), old(c).pos())->0.msg_len >= FRAGMENT_EXTRA
            && old(c).rest() - 31 >= reliable_command_at(old(c).bytes(), old(c).pos())->0.msg_len
            - FRAGMENT_EXTRA ==> r is Ok,
{
    if c.remaining() < 31 {
        return Err(DecodeFailure::NotEnoughBytes);
    }
    let rc = decode_reliable_command(c)?;
    let sequence_number = c.read_u32().unwrap();
    let fragment_count = c.read_u32().unwrap();
    let fragment_number = c.read_u32().unwrap();
    let total_length = c.read_u32().unwrap();
    let operation_length = c.read_u32().unwrap();
    if rc.msg_len < FRAGMENT_EXTRA {
        return Err(DecodeFailure::InvalidLength);
    }
    let msg_len = rc.msg_len - FRAGMENT_EXTRA;
    let payload = match c.take(msg_len as usize) {
        Some(p) => p,
        None => return Err(DecodeFailure::NotEnoughBytes),
    };
    Ok(
        ReliableFragment {
            reliable_command: ReliableCommand { msg_len, ..rc },
            sequence_number,
            fragment_count,
            fragment_number,
            total_length,
            operation_length,
            payload,
        },
    )
}

/// Reads one command: a type byte, then the body that type announces.
pub fn decode_command(c: &mut Cursor) -> (r: Result<Command, DecodeFailure>)
    requires
        old(c).wf(),
    ensures
        went_on(old(c), final(c)),
        old(c).rest() < 1 ==> r == Err::<Command, DecodeFailure>(DecodeFailure::NotEnoughBytes),
        old(c).rest() >= 1 ==> {
            let t = old(c).bytes()[old(c).pos()];
            let s = old(c).bytes();
            let p = old(c).pos();
            let rc = reliable_command_at(s, p + 1);
            &&& t == 4 ==> r is Ok && r->Ok_0 is LogOut && old(c).moved(final(c), 1)
            &&& t == 6 ==> (r is Ok ==> r->Ok_0 is SendReliable && rc is Some
                && r->Ok_0->SendReliable_0 == rc->0 && old(c).moved(final(c), 12))
            &&& t == 6 && old(c).rest() >= 12 && rc is Some ==> r is Ok
            &&& t == 7 ==> (r is Ok ==> r->Ok_0 is SendUnreliable && rc is Some
                && rc->0.msg_len >= UNRELIABLE_EXTRA
                && r->Ok_0->SendUnreliable_0.msg_len == rc->0.msg_len - UNRELIABLE_EXTRA
                && old(c).moved(final(c), 16))
            &&& t == 7 && old(c).rest() >= 16 && rc is Some && rc->0.msg_len >= UNRELIABLE_EXTRA
                ==> r is Ok
            &&& t == 8 ==> (r is Ok ==> r->Ok_0 is SendReliableFragment && rc is Some
                && rc->0.msg_len >= FRAGMENT_EXTRA
                && r->Ok_0->SendReliableFragment_0.reliable_command.msg_len == rc->0.msg_len
                - FRAGMENT_EXTRA && r->Ok_0->SendReliableFragment_0.sequence_number == be_u32(s, p + 12)
                && r->Ok_0->SendReliableFragment_0.fragment_count == be_u32(s, p + 16)
                && r->Ok_0->SendReliableFragment_0.payload@ == s.subrange(
                p + 32,
                p + 32 + r->Ok_0->SendReliableFragment_0.reliable_command.msg_len,
            ) && old(c).moved(
                final(c),
                32 + r->Ok_0->SendReliableFragment_0.reliable_command.msg_len,
            ))
            &&& t == 8 && old(c).rest() >= 32 && rc is Some && rc->0.msg_len >= FRAGMENT_EXTRA
                && old(c).rest() - 32 >= rc->0.msg_len - FRAGMENT_EXTRA ==> r is Ok
            &&& !(t == 4 || t == 6 || t == 7 || t == 8) ==> r == Err::<Command, DecodeFailure>(
                DecodeFailure::UnknownCommand(t),
            )
        },
{
    let t = match c.read_u8() {
        Some(b) => b,
        None => return Err(DecodeFailure::NotEnoughBytes),
    };
    match t {
        4 => Ok(Command::LogOut),
        6 => Ok(Command::SendReliable(decode_reliable_command(c)?)),
        7 => Ok(Command::SendUnreliable(decode_unreliable_command(c)?.reliable_command)),
        8 => Ok(Command::SendReliableFragment(decode_reliable_fragment(c)?)),
        _ => Err(DecodeFailure::UnknownCommand(t)),
    }
}

/// What decoding a message at `p` of `s` gives: one ignored byte, the
/// message type, then a request (2), a response (3) or an event (4).
pub open spec fn message_outcome(s: Seq<u8>, p: int, r: Result<Message, PhotonDecodeError>) -> bool {
    &&& (s.len() - p) < 2 ==> r is Err && r->Err_0.cause == DecodeFailure::NotEnoughBytes
            && r->Err_0.context@.len() == 0
    &&& (s.len() - p) >= 2 ==> {
            let t = s[p + 1];
            let b = s;
            let q = p + 2;
            &&& t == 2 ==> (r is Ok <==> body_readable(b, q)) && (r is Ok ==> r->Ok_0 is Request
                && request_read(b, q, r->Ok_0->Request_0))
            &&& t == 3 ==> (r is Ok ==> r->Ok_0 is Response && response_read(
                b,
                q,
                r->Ok_0->Response_0,
            )) && (r is Err ==> response_fails(b, q))
            &&& t == 4 ==> (r is Ok <==> body_readable(b, q)) && (r is Ok ==> r->Ok_0 is Event
                && event_read(b, q, r->Ok_0->Event_0))
            &&& t == 2 && r is Err ==> r->Err_0.context@ =~= seq![Frame::Request]
            &&& t == 3 && r is Err ==> r->Err_0.context@ =~= seq![Frame::Response]
            &&& t == 4 && r is Err ==> r->Err_0.context@ =~= seq![Frame::Event]
            &&& !(t == 2 || t == 3 || t == 4) ==> r is Err && r->Err_0.cause
                == DecodeFailure::UnknownMessage(t) && r->Err_0.context@.len() == 0
        }
}

/// `r` is `inner` passed out through the place `f`.
pub open spec fn framed_from(
    r: Result<Message, PhotonDecodeError>,
    inner: Result<Message, PhotonDecodeError>,
    f: Frame,
) -> bool {
    match (r, inner) {
        (Ok(a), Ok(b)) => a == b,
        (Err(a), Err(b)) => a.cause == b.cause && a.context@ == b.context@.push(f),
        _ => false,
    }
}

/// Decodes the message that a command carries: one ignored byte, the
/// message type, then a request (2), a response (3) or an event (4).
pub fn decode_message(c: &mut Cursor) -> (r: Result<Message, PhotonDecodeError>)
    requires
        old(c).wf(),
    ensures
        went_on(old(c), final(c)),
        message_outcome(old(c).bytes(), old(c).pos(), r),
{
    if c.remaining() < 2 {
        return Err(PhotonDecodeError::new(DecodeFailure::NotEnoughBytes));
    }
    let _ = c.read_u8();
    let t = c.read_u8().unwrap();
    match t {
        2 => match deserialize_operation_request(c) {
            Ok(v) => Ok(Message::Request(v)),
            Err(e) => Err(PhotonDecodeError::new(e).extend(Frame::Request)),
        },
        3 => match deserialize_operation_response(c) {
            Ok(v) => Ok(Message::Response(v)),
            Err(e) => Err(PhotonDecodeError::new(e).extend(Frame::Response)),
        },
        4 => match deserialize_event_data(c) {
            Ok(v) => Ok(Message::Event(v)),
            Err(e) => Err(PhotonDecodeError::new(e).extend(Frame::Event)),
        },
        _ => Err(PhotonDecodeError::new(DecodeFailure::UnknownMessage(t))),
    }
}

/// Fragments that were received in the order they came in, for the
/// sequence number `k` (empty where none is pending).
pub open spec fn pending_for(m: Map<u32, Vec<ReliableFragment>>, k: u32) -> Seq<ReliableFragment> {
    if m.contains_key(k) {
        m[k]@
    } else {
        Seq::empty()
    }
}

/// The length that the command at `p` declares for itself, its header
/// included.
pub open spec fn declared_length(s: Seq<u8>, p: int) -> int {
    be_u32(s, p + 4) as int
}

/// The command at `p` is a reliable, unreliable or fragment command whose
/// declared length covers its own header and lies inside the buffer.
pub open spec fn command_fits(s: Seq<u8>, p: int) -> bool {
    let t = s[p];
    let header: int = if t == 6 {
        12
    } else if t == 7 {
        16
    } else {
        32
    };
    &&& t == 6 || t == 7 || t == 8
    &&& s.len() - p >= header
    &&& header <= declared_length(s, p) <= s.len() - p
}

/// How many messages may wait for their fragments at once. Beyond that the
/// one that has waited longest is dropped, so fragments that never complete
/// cannot pile up.
pub const MAX_PENDING: usize = 64;

/// One command read from `c0` (framer `p0`) leaves the cursor at `c1` and
/// the framer at `p1`, and gives `r`: nothing for a log-out or a fragment
/// whose message is not whole yet, else a message or an error. A reliable
/// or unreliable command that fits its buffer is decoded from its own bytes
/// alone and ends at its declared end, whatever its message holds.
pub open spec fn next_step(
    p0: Photon,
    p1: Photon,
    c0: Cursor,
    c1: Cursor,
    r: Option<Result<Message, PhotonDecodeError>>,
) -> bool {
    let s = c0.bytes();
    let o = c0.pos();
    &&& p1.wf()
    &&& went_on(&c0, &c1)
    &&& command_fits(s, o) ==> c1.pos() == o + declared_length(s, o)
    &&& c0.rest() < 1 ==> r is Some && r->0 is Err && r->0->Err_0.cause == DecodeFailure::NotEnoughBytes
    &&& c0.rest() >= 1 ==> {
        let t = s[o];
        let h = header_len(t);
        &&& t == 4 ==> r is None && c0.moved(&c1, 1) && p1 == p0
        &&& (t == 6 || t == 7) ==> p1 == p0
        &&& (t == 6 || t == 7) && command_fits(s, o) ==> r is Some && exists|
            inner: Result<Message, PhotonDecodeError>,
        |
            #[trigger] message_outcome(s.subrange(o + h, o + declared_length(s, o)), 0, inner)
                && framed_from(r->0, inner, Frame::SendReliable)
        &&& t == 8 && command_fits(s, o) ==> {
            let k = be_u32(s, o + 12) as u32;
            let earlier = pending_for(p0.pending(), k);
            let joined = joined_payloads(earlier) + s.subrange(o + 32, o + declared_length(s, o));
            if earlier.len() + 1 == be_u32(s, o + 16) {
                &&& p1.pending() == p0.pending().remove(k)
                &&& r is Some && exists|inner: Result<Message, PhotonDecodeError>|
                    #[trigger] message_outcome(joined, 0, inner) && framed_from(r->0, inner, Frame::Fragment)
            } else {
                &&& r is None
                &&& p1.pending().contains_key(k)
                &&& joined_payloads(p1.pending()[k]@) == joined
            }
        }
        &&& !(t == 4 || t == 6 || t == 7 || t == 8) ==> r is Some && r->0 is Err
            && r->0->Err_0.cause == DecodeFailure::UnknownCommand(t) && r->0->Err_0.context@.len()
            == 0 && p1 == p0
    }
}

/// The width of a reliable (6) or unreliable command's own header.
pub open spec fn header_len(t: u8) -> int {
    if t == 6 {
        12
    } else {
        16
    }
}

/// `cs[k]` to `cs[k + 1]` is one command read, with the framer going from
/// `ps[k]` to `ps[k + 1]` and giving `outs[k]`.
pub open spec fn commands_read(
    ps: Seq<Photon>,
    cs: Seq<Cursor>,
    outs: Seq<Option<Result<Message, PhotonDecodeError>>>,
) -> bool {
    &&& ps.len() == outs.len() + 1
    &&& cs.len() == outs.len() + 1
    &&& forall|k: int| 0 <= k < outs.len() ==> #[trigger] next_step(ps[k], ps[k + 1], cs[k], cs[k + 1], outs[k])
}

/// The results that `outs` hold, in order.
pub open spec fn present(outs: Seq<Option<Result<Message, PhotonDecodeError>>>) -> Seq<
    Result<Message, PhotonDecodeError>,
>
    decreases outs.len(),
{
    if outs.len() == 0 {
        Seq::empty()
    } else {
        match outs.last() {
            Some(x) => present(outs.drop_last()).push(x),
            None => present(outs.drop_last()),
        }
    }
}

/// A datagram read by the framer `p0`, leaving it at `p1`, gives `results`:
/// after the header, `command_count` commands are read one after another,
/// each from where the one before ended.
pub open spec fn datagram_read(
    payload: Seq<u8>,
    p0: Photon,
    p1: Photon,
    results: Seq<Result<Message, PhotonDecodeError>>,
) -> bool {
    exists|ps: Seq<Photon>, cs: Seq<Cursor>, outs: Seq<Option<Result<Message, PhotonDecodeError>>>|
        #[trigger] commands_read(ps, cs, outs) && outs.len() == header_at(payload).command_count
            && ps[0] == p0 && ps.last() == p1 && cs[0].bytes() == payload && cs[0].pos() == 12
            && results == present(outs)
}

/// The framer: it keeps, per sequence number, the fragments of messages
/// that have not yet arrived whole, and the order in which those sequence
/// numbers first arrived.
pub struct Photon {
    fragments: HashMap<u32, Vec<ReliableFragment>>,
    arrival: Vec<u32>,
}

impl Photon {
    /// The fragments that wait for the rest of their message.
    pub closed spec fn pending(&self) -> Map<u32, Vec<ReliableFragment>> {
        self.fragments@
    }

    /// The pending sequence numbers, the one that has waited longest first.
    pub closed spec fn arrival(&self) -> Seq<u32> {
        self.arrival@
    }

    pub open spec fn wf(&self) -> bool {
        &&& self.arrival().len() <= MAX_PENDING
        &&& self.arrival().no_duplicates()
        &&& forall|k: u32| #[trigger] self.pending().contains_key(k) <==> self.arrival().contains(k)
    }

    pub fn new() -> (r: Photon)
        ensures
            r.wf(),
            r.pending() == Map::<u32, Vec<ReliableFragment>>::empty(),
    {
        Photon { fragments: HashMap::new(), arrival: Vec::new() }
    }

    /// Files a fragment. Once a sequence number holds as many fragments as
    /// the fragment announces, their payloads, joined in arrival order, are
    /// handed back and the sequence number is forgotten. A new sequence
    /// number that finds the map full pushes out the one that has waited
    /// longest.
    pub fn add_fragment(&mut self, fragment: ReliableFragment) -> (r: Option<Vec<u8>>)
        requires
            old(self).wf(),
        ensures
            final(self).wf(),
            ({
                let k = fragment.sequence_number;
                let list = pending_for(old(self).pending(), k).push(fragment);
                let full = !old(self).pending().contains_key(k) && old(self).arrival().len()
                    == MAX_PENDING;
                let dropped = old(self).arrival()[0];
                if list.len() == fragment.fragment_count {
                    &&& r is Some
                    &&& r->0@ == joined_payloads(list)
                    &&& final(self).pending() == old(self).pending().remove(k)
                } else {
                    &&& r is None
                    &&& final(self).pending()[k]@ == list
                    &&& !full ==> final(self).pending().dom() == old(self).pending().dom().insert(k)
                    &&& full ==> final(self).pending().dom() == old(self).pending().dom().remove(
                        dropped,
                    ).insert(k)
                    &&& forall|j: u32|
                        j != k && !(full && j == dropped) && #[trigger] old(self).pending().contains_key(j)
                            ==> final(self).pending()[j] == old(self).pending()[j]
                }
            }),
    {
        broadcast use vstd::std_specs::hash::group_hash_axioms;

        let k = fragment.sequence_number;
        let count = fragment.fragment_count;
        let (mut list, was_pending) = match self.fragments.remove(&k) {
            Some(l) => (l, true),
            None => (Vec::new(), false),
        };
        list.push(fragment);
        proof {
            assert(was_pending == old(self).pending().contains_key(k));
            assert(self.fragments@ =~= old(self).pending().remove(k));
        }
        if list.len() as u64 == count as u64 {
            if was_pending {
                assert(old(self).arrival().contains(k));
                self.forget(k);
            }
            proof {
                assert(self.fragments@ =~= old(self).pending().remove(k));
            }
            return Some(join_payloads(&list));
        }
        if !was_pending {
            if self.arrival.len() == MAX_PENDING {
                let ghost before = self.arrival@;
                let ghost map_before = self.fragments@;
                assert(map_before =~= old(self).pending());
                let oldest = self.arrival.remove(0);
                self.fragments.remove(&oldest);
                proof {
                    assert(before[0] == oldest);
                    assert forall|j: u32| #[trigger] self.arrival@.contains(j) <==> (before.contains(j) && j != oldest) by {
                        if self.arrival@.contains(j) {
                            let i = choose|i: int| 0 <= i < self.arrival@.len() && self.arrival@[i] == j;
                            assert(before[i + 1] == j);
                            assert(before[0] != before[i + 1]);
                        }
                        if before.contains(j) && j != oldest {
                            let i = choose|i: int| 0 <= i < before.len() && before[i] == j;
                            assert(i != 0);
                            assert(self.arrival@[i - 1] == j);
                        }
                    }
                    assert forall|j: u32| #[trigger] self.fragments@.contains_key(j) <==> (map_before.contains_key(j) && j != oldest) by {}
                    assert(self.arrival@.no_duplicates()) by {
                        assert forall|a: int, b: int| 0 <= a < self.arrival@.len() && 0 <= b < self.arrival@.len() && a != b implies self.arrival@[a] != self.arrival@[b] by {
                            assert(self.arrival@[a] == before[a + 1]);
                            assert(self.arrival@[b] == before[b + 1]);
                        }
                    }
                }
            }
            let ghost before = self.arrival@;
            assert(!before.contains(k));
            self.arrival.push(k);
            proof {
                assert(self.arrival@.no_duplicates()) by {
                    assert forall|a: int, b: int| 0 <= a < self.arrival@.len() && 0 <= b < self.arrival@.len() && a != b implies self.arrival@[a] != self.arrival@[b] by {
                        if a < before.len() && b < before.len() {
                            assert(self.arrival@[a] == before[a]);
                            assert(self.arrival@[b] == before[b]);
                        } else if a < before.len() {
                            assert(self.arrival@[a] == before[a]);
                        } else if b < before.len() {
                            assert(self.arrival@[b] == before[b]);
                        }
                    }
                }
                assert forall|j: u32| #[trigger] self.arrival@.contains(j) <==> (before.contains(j) || j == k) by {
                    if self.arrival@.contains(j) {
                        let i = choose|i: int| 0 <= i < self.arrival@.len() && self.arrival@[i] == j;
                        if i < before.len() {
                            assert(before[i] == j);
                        }
                    }
                    if before.contains(j) {
                        let i = choose|i: int| 0 <= i < before.len() && before[i] == j;
                        assert(self.arrival@[i] == j);
                    }
                    if j == k {
                        assert(self.arrival@[before.len() as int] == k);
                    }
                }
            }
        }
        self.fragments.insert(k, list);
        proof {
            if !was_pending && old(self).arrival().len() == MAX_PENDING {
                assert(self.fragments@.dom() =~= old(self).pending().dom().remove(old(self).arrival()[0]).insert(k));
            } else {
                assert(self.fragments@.dom() =~= old(self).pending().dom().insert(k));
            }
        }
        None
    }

    /// Takes `k` out of the arrival order.
    fn forget(&mut self, k: u32)
        requires
            old(self).arrival().no_duplicates(),
            old(self).arrival().contains(k),
            old(self).arrival().len() <= MAX_PENDING,
        ensures
            final(self).fragments == old(self).fragments,
            final(self).arrival().no_duplicates(),
            final(self).arrival().len() <= MAX_PENDING,
            forall|j: u32| #[trigger] final(self).arrival().contains(j) <==> (old(self).arrival().contains(j) && j != k),
    {
        let mut i: usize = 0;
        while i < self.arrival.len() && self.arrival[i] != k
            invariant
                self.arrival@ == old(self).arrival(),
                self.fragments == old(self).fragments,
                0 <= i <= self.arrival@.len(),
                forall|j: int| 0 <= j < i ==> self.arrival@[j] != k,
            decreases self.arrival@.len() - i,
        {
            i = i + 1;
        }
        if i == self.arrival.len() {
            proof {
                let w = choose|w: int| 0 <= w < self.arrival@.len() && self.arrival@[w] == k;
                assert(self.arrival@[w] != k);
            }
            return;
        }
        let ghost before = self.arrival@;
        self.arrival.remove(i);
        proof {
            assert(self.arrival@ == before.remove(i as int));
            assert forall|j: u32| #[trigger] self.arrival@.contains(j) <==> (before.contains(j) && j != k) by {
                if self.arrival@.contains(j) {
                    let w = choose|w: int| 0 <= w < self.arrival@.len() && self.arrival@[w] == j;
                    if w < i {
                        assert(before[w] == j);
                    } else {
                        assert(before[w + 1] == j);
                        assert(w + 1 != i);
                    }
                }
                if before.contains(j) && j != k {
                    let w = choose|w: int| 0 <= w < before.len() && before[w] == j;
                    assert(w != i);
                    if w < i {
                        assert(self.arrival@[w] == j);
                    } else {
                        assert(self.arrival@[w - 1] == j);
                    }
                }
            }
        }
    }

    /// Decodes a datagram. Fails only where the header cannot be read; each
    /// command then gives a message, an error, or nothing (a log-out, or a
    /// fragment whose message is not yet whole).
    pub fn try_decode(&mut self, payload: &[u8]) -> (r: Result<
        Vec<Result<Message, PhotonDecodeError>>,
        PhotonDecodeError,
    >)
        requires
            old(self).wf(),
        ensures
            final(self).wf(),
            payload@.len() < 12 <==> r is Err,
            r is Err ==> r->Err_0.cause == DecodeFailure::NotEnoughBytes && *final(self) == *old(self),
            r is Ok ==> datagram_read(payload@, *old(self), *final(self), r->Ok_0@),
    {
        let mut c = Cursor::new(vstd::slice::slice_to_vec(payload));
        let header = match decode_header(&mut c) {
            Ok(h) => h,
            Err(e) => return Err(PhotonDecodeError::new(e)),
        };
        let mut out: Vec<Result<Message, PhotonDecodeError>> = Vec::new();
        let ghost mut ps: Seq<Photon> = seq![*self];
        let ghost mut cs: Seq<Cursor> = seq![c];
        let ghost mut outs: Seq<Option<Result<Message, PhotonDecodeError>>> = Seq::empty();
        assert(c.bytes() == payload@ && c.pos() == 12);
        let mut i: u8 = 0;
        while i < header.command_count
            invariant
                c.wf(),
                self.wf(),
                i <= header.command_count,
                header == header_at(payload@),
                outs.len() == i,
                commands_read(ps, cs, outs),
                ps[0] == *old(self),
                ps.last() == *self,
                cs.last() == c,
                cs[0].bytes() == payload@,
                cs[0].pos() == 12,
                out@ == present(outs),
            decreases header.command_count - i,
        {
            i = i + 1;
            let ghost p0 = *self;
            let ghost c0 = c;
            let step = self.decode_next(&mut c);
            proof {
                let ps2 = ps.push(*self);
                let cs2 = cs.push(c);
                let outs2 = outs.push(step);
                assert forall|k: int| 0 <= k < outs2.len() implies #[trigger] next_step(
                    ps2[k],
                    ps2[k + 1],
                    cs2[k],
                    cs2[k + 1],
                    outs2[k],
                ) by {
                    if k < outs.len() {
                        assert(ps2[k] == ps[k] && ps2[k + 1] == ps[k + 1]);
                        assert(cs2[k] == cs[k] && cs2[k + 1] == cs[k + 1]);
                        assert(outs2[k] == outs[k]);
                        assert(next_step(ps[k], ps[k + 1], cs[k], cs[k + 1], outs[k]));
                    }
                }
                assert(outs2.drop_last() =~= outs);
                ps = ps2;
                cs = cs2;
                outs = outs2;
            }
            if let Some(result) = step {
                out.push(result);
            }
        }
        assert(commands_read(ps, cs, outs));
        Ok(out)
    }

    /// Decodes the command at the cursor, and the message it carries or
    /// completes. A command that fits its buffer leaves the cursor exactly
    /// at its declared end, whatever its message holds.
    #[verifier::rlimit(50)]
    pub fn decode_next(&mut self, c: &mut Cursor) -> (r: Option<Result<Message, PhotonDecodeError>>)
        requires
            old(c).wf(),
            old(self).wf(),
        ensures
            next_step(*old(self), *final(self), *old(c), *final(c), r),
    {
        let ghost s = c.bytes();
        let ghost o = c.pos();
        let command = decode_command(c);
        proof {
            if c.rest() >= 0 && command_fits(s, o) && (s[o] == 6 || s[o] == 7) {
                assert(reliable_command_at(s, o + 1) is Some);
                assert(command is Ok);
            }
        }
        let r = match command {
            Err(e) => Some(Err(PhotonDecodeError::new(e))),
            Ok(Command::LogOut) => None,
            Ok(Command::SendReliable(rc)) | Ok(Command::SendUnreliable(rc)) => {
                let ghost c1 = *c;
                let res = decode_enclosed(c, rc.msg_len);
                proof {
                    let t = s[o];
                    let h = header_len(t);
                    if command_fits(s, o) {
                        assert(c1.pos() == o + h);
                        assert(c1.pos() + rc.msg_len == o + declared_length(s, o));
                        let inner = choose|inner: Result<Message, PhotonDecodeError>|
                            #[trigger] message_outcome(
                                s.subrange(c1.pos(), c1.pos() + rc.msg_len),
                                0,
                                inner,
                            ) && framed_from(res, inner, Frame::SendReliable);
                        assert(message_outcome(s.subrange(o + h, o + declared_length(s, o)), 0, inner));
                        assert(framed_from(res, inner, Frame::SendReliable));
                        assert(exists|i: Result<Message, PhotonDecodeError>|
                            #[trigger] message_outcome(s.subrange(o + h, o + declared_length(s, o)), 0, i)
                                && framed_from(res, i, Frame::SendReliable));
                    }
                }
                Some(res)
            },
            Ok(Command::SendReliableFragment(fragment)) => {
                let ghost f = fragment;
                let ghost list = pending_for(self.pending(), fragment.sequence_number).push(fragment);
                proof {
                    assert(list.drop_last() =~= pending_for(self.pending(), fragment.sequence_number));
                    assert(joined_payloads(list) == joined_payloads(list.drop_last()) + list.last().payload@);
                    if command_fits(s, o) && s[o] == 8 {
                        assert(f.payload@ == s.subrange(o + 32, o + declared_length(s, o)));
                    }
                }
                match self.add_fragment(fragment) {
                    Some(bytes) => {
                        let mut whole = Cursor::new(bytes);
                        let res = decode_message(&mut whole);
                        let ghost inner = res;
                        let out = match res {
                            Ok(m) => Ok(m),
                            Err(e) => Err(e.extend(Frame::Fragment)),
                        };
                        assert(framed_from(out, inner, Frame::Fragment));
                        proof {
                            if command_fits(s, o) && s[o] == 8 {
                                let earlier = pending_for(old(self).pending(), be_u32(s, o + 12) as u32);
                                assert(joined_payloads(earlier) + s.subrange(o + 32, o + declared_length(s, o)) == bytes@);
                                assert(message_outcome(joined_payloads(earlier) + s.subrange(o + 32, o + declared_length(s, o)), 0, inner));
                            }
                        }
                        Some(out)
                    },
                    None => {
                        proof {
                            assert(self.pending()[f.sequence_number]@ == list);
                        }
                        None
                    },
                }
            },
        };
        r
    }

    /// Decodes a datagram and keeps only the messages that decoded.
    pub fn decode(&mut self, payload: &[u8]) -> (r: Vec<Message>)
        requires
            old(self).wf(),
        ensures
            final(self).wf(),
            payload@.len() < 12 ==> r@.len() == 0 && *final(self) == *old(self),
            payload@.len() >= 12 ==> exists|results: Seq<Result<Message, PhotonDecodeError>>|
                #[trigger] datagram_read(payload@, *old(self), *final(self), results) && r@
                    == messages_of(results),
    {
        match self.try_decode(payload) {
            Ok(results) => keep_messages(results),
            Err(_) => Vec::new(),
        }
    }
}

/// The messages among `results`, in their order.
pub open spec fn messages_of(results: Seq<Result<Message, PhotonDecodeError>>) -> Seq<Message>
    decreases results.len(),
{
    if results.len() == 0 {
        Seq::empty()
    } else {
        match results.last() {
            Ok(m) => messages_of(results.drop_last()).push(m),
            Err(_) => messages_of(results.drop_last()),
        }
    }
}

proof fn lemma_messages_of_len(results: Seq<Result<Message, PhotonDecodeError>>)
    ensures
        messages_of(results).len() <= results.len(),
    decreases results.len(),
{
    if results.len() > 0 {
        lemma_messages_of_len(results.drop_last());
    }
}

/// Keeps the messages of `results` and drops the errors.
pub fn keep_messages(results: Vec<Result<Message, PhotonDecodeError>>) -> (r: Vec<Message>)
    ensures
        r@ == messages_of(results@),
        r@.len() <= results@.len(),
{
    let ghost all = results@;
    let mut rest = results;
    let mut kept: Vec<Message> = Vec::new();
    let mut taken: Vec<Result<Message, PhotonDecodeError>> = Vec::new();
    // Walk from the back, then restore the order.
    while rest.len() > 0
        invariant
            all == rest@ + taken@.reverse(),
        decreases rest@.len(),
    {
        let item = rest.pop().unwrap();
        taken.push(item);
        proof {
            assert(all =~= rest@ + taken@.reverse());
        }
    }
    let ghost done: Seq<Result<Message, PhotonDecodeError>> = Seq::empty();
    while taken.len() > 0
        invariant
            all == done + taken@.reverse(),
            kept@ == messages_of(done),
        decreases taken@.len(),
    {
        let item = taken.pop().unwrap();
        proof {
            let next = done.push(item);
            assert(next.drop_last() =~= done);
            done = next;
            assert(all =~= done + taken@.reverse());
        }
        match item {
            Ok(m) => kept.push(m),
            Err(_) => {},
        }
    }
    proof {
        assert(done =~= all);
        lemma_messages_of_len(all);
    }
    kept
}

/// Decodes the message held in the next `len` bytes, and moves past them
/// whatever the message itself reads, so that the next command starts at
/// its own boundary.
fn decode_enclosed(c: &mut Cursor, len: u32) -> (r: Result<Message, PhotonDecodeError>)
    requires
        old(c).wf(),
    ensures
        final(c).wf(),
        final(c).bytes() == old(c).bytes(),
        len <= old(c).rest() ==> final(c).pos() == old(c).pos() + len,
        len > old(c).rest() ==> final(c).pos() == old(c).bytes().len() && r is Err
            && r->Err_0.cause == DecodeFailure::NotEnoughBytes,
        r is Err ==> r->Err_0.context@.last() == Frame::SendReliable,
        len <= old(c).rest() ==> exists|inner: Result<Message, PhotonDecodeError>|
            #[trigger] message_outcome(
                old(c).bytes().subrange(old(c).pos(), old(c).pos() + len),
                0,
                inner,
            ) && framed_from(r, inner, Frame::SendReliable),
{
    match c.take(len as usize) {
        Some(bytes) => {
            let mut inner = Cursor::new(bytes);
            let res = decode_message(&mut inner);
            let ghost inner_res = res;
            let out = match res {
                Ok(m) => Ok(m),
                Err(e) => Err(e.extend(Frame::SendReliable)),
            };
            assert(framed_from(out, inner_res, Frame::SendReliable));
            out
        },
        None => {
            c.skip(len as usize);
            Err(PhotonDecodeError::new(DecodeFailure::NotEnoughBytes).extend(Frame::SendReliable))
        },
    }
}

/// The payloads of `list`, joined in order.
fn join_payloads(list: &Vec<ReliableFragment>) -> (r: Vec<u8>)
    ensures
        r@ == joined_payloads(list@),
{
    let mut out: Vec<u8> = Vec::new();
    let mut i: usize = 0;
    while i < list.len()
        invariant
            0 <= i <= list@.len(),
            out@ == joined_payloads(list@.subrange(0, i as int)),
        decreases list@.len() - i,
    {
        let ghost before = out@;
        let mut j: usize = 0;
        while j < list[i].payload.len()
            invariant
                i < list@.len(),
                0 <= j <= list@[i as int].payload@.len(),
                out@ == before + list@[i as int].payload@.subrange(0, j as int),
            decreases list@[i as int].payload@.len() - j,
        {
            out.push(list[i].payload[j]);
            j = j + 1;
            assert(out@ =~= before + list@[i as int].payload@.subrange(0, j as int));
        }
        proof {
            let next = list@.subrange(0, i + 1);
            assert(next.drop_last() =~= list@.subrange(0, i as int));
            assert(list@[i as int].payload@.subrange(0, j as int) =~= list@[i as int].payload@);
        }
        i = i + 1;
    }
    assert(list@.subrange(0, i as int) =~= list@);
    out
}

} // verus!
