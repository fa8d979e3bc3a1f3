//! The protocol exchange: handshake, status request, status response, ping
//! and pong, in that strict order over one connection.
//!
//! The functions here build and check the packets; moving their bytes over a
//! socket is the caller's business.

use crate::errors::{ExchangeError, FormatError};
use crate::packet::{frame_bytes, Packet, PacketEncoder};
use crate::proto_string::{
    from_proto_string, proto_string_bytes, spec_from_proto_string, to_proto_string,
};
use crate::varint::{lemma_varint_bytes_len, to_varint, varint_bytes};
use vstd::arithmetic::power::pow;
use vstd::prelude::*;
use vstd::string::StringSliceAdditionalSpecFns;
use vstd::utf8::encode_utf8;

verus! {

/// The big-endian bytes of `u`, `n` bytes long: most significant first.
pub open spec fn be_bytes(u: int, n: nat) -> Seq<u8>
    decreases n,
{
    if n == 0 {
        Seq::empty()
    } else {
        be_bytes(u / 0x100, (n - 1) as nat).push((u % 0x100) as u8)
    }
}

/// The value that big-endian bytes stand for.
pub open spec fn be_bytes_val(b: Seq<u8>) -> int
    decreases b.len(),
{
    if b.len() == 0 {
        0
    } else {
        0x100 * be_bytes_val(b.drop_last()) + b.last()
    }
}

/// The value of big-endian bytes stays below the scale of the next byte.
proof fn lemma_be_bytes_val_bound(b: Seq<u8>)
    ensures
        0 <= be_bytes_val(b) < pow(0x100, b.len()),
    decreases b.len(),
{
    reveal_with_fuel(pow, 2);
    if b.len() == 0 {
    } else {
        let head = b.drop_last();
        lemma_be_bytes_val_bound(head);
        assert(0x100 * be_bytes_val(head) <= 0x100 * (pow(0x100, head.len()) - 1) && 0 <= 0x100
            * be_bytes_val(head)) by (nonlinear_arith)
            requires
                0 <= be_bytes_val(head) <= pow(0x100, head.len()) - 1,
        ;
        assert(pow(0x100, b.len()) == 0x100 * pow(0x100, head.len()));
    }
}

/// Reading back the big-endian bytes of a value in range yields the value.
pub proof fn lemma_be_bytes_round_trip(u: int, n: nat)
    requires
        0 <= u < pow(0x100, n),
    ensures
        be_bytes(u, n).len() == n,
        be_bytes_val(be_bytes(u, n)) == u,
    decreases n,
{
    reveal_with_fuel(pow, 2);
    if n == 0 {
    } else {
        let head = be_bytes(u / 0x100, (n - 1) as nat);
        assert(pow(0x100, n) == 0x100 * pow(0x100, (n - 1) as nat));
        assert(u / 0x100 < pow(0x100, (n - 1) as nat)) by (nonlinear_arith)
            requires
                0 <= u < 0x100 * pow(0x100, (n - 1) as nat),
        ;
        lemma_be_bytes_round_trip(u / 0x100, (n - 1) as nat);
        assert(be_bytes(u, n).drop_last() =~= head);
        assert(be_bytes_val(be_bytes(u, n)) == 0x100 * (u / 0x100) + u % 0x100);
    }
}

/// The concrete scales of the first nine byte positions.
proof fn lemma_pow256_values()
    ensures
        pow(0x100, 0) == 1,
        pow(0x100, 1) == 0x100,
        pow(0x100, 2) == 0x1_0000,
        pow(0x100, 3) == 0x100_0000,
        pow(0x100, 4) == 0x1_0000_0000,
        pow(0x100, 5) == 0x100_0000_0000,
        pow(0x100, 6) == 0x1_0000_0000_0000,
        pow(0x100, 7) == 0x100_0000_0000_0000,
        pow(0x100, 8) == 0x1_0000_0000_0000_0000,
{
    reveal_with_fuel(pow, 9);
}

/// The two big-endian bytes of a port number.
pub fn port_be_bytes(port: u16) -> (r: Vec<u8>)
    ensures
        r@ == be_bytes(port as int, 2),
{
    let mut r: Vec<u8> = Vec::new();
    r.push((port / 0x100) as u8);
    r.push((port % 0x100) as u8);
    proof {
        reveal_with_fuel(be_bytes, 3);
        assert(r@ =~= be_bytes(port as int, 2));
    }
    r
}

/// The eight big-endian bytes of a ping payload's bit pattern.
pub fn i64_be_bytes(v: i64) -> (r: Vec<u8>)
    ensures
        r@ == be_bytes((v as u64) as int, 8),
        r@.len() == 8,
{
    let u: u64 = v as u64;
    let u1: u64 = u / 0x100;
    let u2: u64 = u1 / 0x100;
    let u3: u64 = u2 / 0x100;
    let u4: u64 = u3 / 0x100;
    let u5: u64 = u4 / 0x100;
    let u6: u64 = u5 / 0x100;
    let u7: u64 = u6 / 0x100;
    let mut r: Vec<u8> = Vec::new();
    r.push((u7 % 0x100) as u8);
    r.push((u6 % 0x100) as u8);
    r.push((u5 % 0x100) as u8);
    r.push((u4 % 0x100) as u8);
    r.push((u3 % 0x100) as u8);
    r.push((u2 % 0x100) as u8);
    r.push((u1 % 0x100) as u8);
    r.push((u % 0x100) as u8);
    proof {
        reveal_with_fuel(be_bytes, 9);
        assert(u7 / 0x100 == 0);
        assert(r@ =~= be_bytes(u as int, 8));
    }
    r
}

/// Reads an eight-byte buffer as a big-endian unsigned value.
fn parse_be_u64(data: &[u8]) -> (r: u64)
    requires
        data@.len() == 8,
    ensures
        r as int == be_bytes_val(data@),
{
    proof {
        lemma_pow256_values();
    }
    let mut acc: u64 = 0;
    let mut i: usize = 0;
    while i < 8
        invariant
            0 <= i <= 8,
            data@.len() == 8,
            acc as int == be_bytes_val(data@.take(i as int)),
            pow(0x100, 7) == 0x100_0000_0000_0000,
        decreases 8 - i,
    {
        proof {
            lemma_be_bytes_val_bound(data@.take(i as int));
            vstd::arithmetic::power::lemma_pow_increases(0x100, i as nat, 7);
            assert(data@.take(i as int + 1).drop_last() =~= data@.take(i as int));
        }
        acc = acc * 0x100 + (*vstd::slice::slice_index_get(data, i)) as u64;
        i = i + 1;
    }
    proof {
        assert(data@.take(8) =~= data@);
    }
    acc
}

/// Whether a pong payload echoes the ping value `sent` exactly: eight bytes
/// carrying its bit pattern big-endian.
pub open spec fn pong_matches(data: Seq<u8>, sent: i64) -> bool {
    data.len() == 8 && be_bytes_val(data) == (sent as u64) as int
}

/// The payload of a handshake: protocol version "unspecified" (-1), the
/// address as a protocol string, the port big-endian, then next-state status.
pub open spec fn handshake_payload(addr: Seq<char>, port: u16) -> Seq<u8> {
    varint_bytes((-1i32) as u32) + proto_string_bytes(encode_utf8(addr)) + be_bytes(port as int, 2)
        + varint_bytes(1u32)
}

/// Builds the handshake frame for `addr` and `port`, sent as packet id 0.
/// Addresses longer than 255 UTF-8 bytes are rejected before anything is
/// encoded.
pub fn handshake(addr: &str, port: u16) -> (r: Result<Vec<u8>, ExchangeError>)
    ensures
        r is Ok <==> addr.spec_bytes().len() <= 255,
        r matches Ok(v) ==> v@ == frame_bytes(0, handshake_payload(addr@, port)),
        r matches Err(e) ==> e == ExchangeError::AddressTooLong,
{
    if addr.as_bytes().len() > 255 {
        return Err(ExchangeError::AddressTooLong);
    }
    proof {
        lemma_varint_bytes_len(0);
        lemma_varint_bytes_len((-1i32) as u32);
        lemma_varint_bytes_len(1);
        lemma_varint_bytes_len(addr.spec_bytes().len() as u32);
        reveal_with_fuel(be_bytes, 3);
        assert(be_bytes(port as int, 2).len() == 2);
    }
    let mut payload = to_varint(-1);
    let mut addr_bytes = to_proto_string(addr);
    payload.append(&mut addr_bytes);
    let mut port_bytes = port_be_bytes(port);
    payload.append(&mut port_bytes);
    let mut next_state = to_varint(1);
    payload.append(&mut next_state);
    proof {
        assert(payload@ =~= handshake_payload(addr@, port));
    }
    let mut frame: Vec<u8> = Vec::new();
    let encoder = PacketEncoder;
    encoder.encode(Packet { id: 0, data: payload }, &mut frame);
    proof {
        assert(frame@ =~= frame_bytes(0, handshake_payload(addr@, port)));
    }
    Ok(frame)
}

/// Builds the status request frame: an empty payload under packet id 0. On
/// the wire it is always the two bytes `[1, 0]`.
pub fn request() -> (r: Vec<u8>)
    ensures
        r@ == frame_bytes(0, Seq::<u8>::empty()),
        r@ == seq![1u8, 0u8],
{
    proof {
        lemma_varint_bytes_len(0);
    }
    let mut frame: Vec<u8> = Vec::new();
    let encoder = PacketEncoder;
    encoder.encode(Packet { id: 0, data: Vec::new() }, &mut frame);
    proof {
        assert(varint_bytes(0u32) =~= seq![0u8]);
        assert(varint_bytes(1u32) =~= seq![1u8]);
        assert(frame@ =~= frame_bytes(0, Seq::<u8>::empty()));
        assert(frame@ =~= seq![1u8, 0u8]);
    }
    frame
}

/// The JSON text carried by a status response packet's payload: a protocol
/// string. Mapping the text onto a schema is an outside concern.
pub fn response(data: &[u8]) -> (r: Result<String, ExchangeError>)
    ensures
        r is Ok <==> spec_from_proto_string(data@) is Ok,
        r matches Ok(s) ==> spec_from_proto_string(data@) == Ok::<Seq<char>, FormatError>(s@),
        r matches Err(e) ==> (spec_from_proto_string(data@) matches Err(f) && e
            == ExchangeError::Format(f)),
{
    match from_proto_string(data) {
        Ok(s) => Ok(s),
        Err(e) => Err(ExchangeError::Format(e)),
    }
}

/// Builds the ping frame: the payload's eight big-endian bytes under packet
/// id 1.
pub fn ping(payload: i64) -> (r: Vec<u8>)
    ensures
        r@ == frame_bytes(1, be_bytes((payload as u64) as int, 8)),
{
    proof {
        lemma_varint_bytes_len(1);
    }
    let data = i64_be_bytes(payload);
    let mut frame: Vec<u8> = Vec::new();
    let encoder = PacketEncoder;
    encoder.encode(Packet { id: 1, data }, &mut frame);
    proof {
        assert(frame@ =~= frame_bytes(1, be_bytes((payload as u64) as int, 8)));
    }
    frame
}

/// Checks that a pong packet's payload is the eight-byte big-endian echo of
/// the ping value `sent`. Any other payload is a protocol violation, never a
/// silent success.
pub fn pong(data: &[u8], sent: i64) -> (r: Result<i64, ExchangeError>)
    ensures
        r is Ok <==> pong_matches(data@, sent),
        r matches Ok(v) ==> v == sent,
        r matches Err(e) ==> e == ExchangeError::ProtocolViolation,
{
    if data.len() != 8 {
        return Err(ExchangeError::ProtocolViolation);
    }
    let echoed = parse_be_u64(data);
    if echoed == sent as u64 {
        Ok(sent)
    } else {
        Err(ExchangeError::ProtocolViolation)
    }
}

/// Where an exchange stands on its connection: the protocol's steps, in the
/// strict order they must happen.
#[derive(Debug, PartialEq, Eq, Structural, Clone, Copy)]
pub enum ExchangeStep {
    SendHandshake,
    SendRequest,
    ReadStatus,
    SendPing,
    ReadPong,
    Complete,
}

/// What the connection's driver must do next.
#[derive(Debug)]
pub enum ExchangeAction {
    /// Write these bytes to the peer.
    Send(Vec<u8>),
    /// Read until one whole frame decodes, then hand its payload back.
    ReadFrame,
    /// Deliver the status text to the caller; the probe path is finished.
    Status(String),
    /// The exchange is finished: the pong echoed the ping value.
    Done(i64),
}

/// What the driver reports back to the exchange.
#[derive(Debug)]
pub enum ExchangeEvent {
    /// Ready for the next action: at the start, or after a send completed.
    Ready,
    /// One whole frame arrived; this is its payload.
    Frame(Vec<u8>),
}

/// One protocol exchange over one connection: handshake, status request and
/// status response, and on the query path ping and pong, strictly in order.
/// The driver performs each returned action and reports back; any error ends
/// the exchange and the connection.
pub struct Exchange {
    pub addr: String,
    pub port: u16,
    pub ping_payload: i64,
    pub with_ping: bool,
    pub step: ExchangeStep,
}

impl Exchange {
    /// A well-formed exchange carries an address short enough to hand to the
    /// handshake.
    pub open spec fn wf(self) -> bool {
        encode_utf8(self.addr@).len() <= 255
    }

    /// Whether the exchange can take `event` where it stands: a frame makes
    /// sense only where one is awaited, and nothing happens after completion.
    pub open spec fn expects(self, event: ExchangeEvent) -> bool {
        &&& (event is Frame ==> self.step is ReadStatus || self.step is ReadPong)
        &&& !(self.step is Complete)
    }

    /// Whether `other` is the same session: everything but the step agrees.
    pub open spec fn same_session(self, other: Exchange) -> bool {
        self.addr == other.addr && self.port == other.port && self.ping_payload
            == other.ping_payload && self.with_ping == other.with_ping
    }

    /// Opens an exchange for `addr` and `port`. Addresses longer than 255
    /// UTF-8 bytes are rejected here, before anything is sent. The scanner's
    /// probes stop after the status response; the query path, with `with_ping`
    /// set, goes on through ping and pong.
    pub fn new(addr: String, port: u16, ping_payload: i64, with_ping: bool) -> (r: Result<
        Exchange,
        ExchangeError,
    >)
        ensures
            r is Ok <==> encode_utf8(addr@).len() <= 255,
            r matches Ok(e) ==> e == (Exchange {
                addr,
                port,
                ping_payload,
                with_ping,
                step: ExchangeStep::SendHandshake,
            }) && e.wf(),
            r matches Err(err) ==> err == ExchangeError::AddressTooLong,
    {
        if addr.as_str().as_bytes().len() > 255 {
            return Err(ExchangeError::AddressTooLong);
        }
        Ok(Exchange { addr, port, ping_payload, with_ping, step: ExchangeStep::SendHandshake })
    }

    /// One turn of the exchange: takes what the driver reports and says what
    /// to do next. Errors end the exchange where it stands: a malformed
    /// status payload or a pong that does not echo the ping is never passed
    /// over.
    pub fn step(&mut self, event: ExchangeEvent) -> (r: Result<ExchangeAction, ExchangeError>)
        requires
            old(self).wf(),
            old(self).expects(event),
        ensures
            final(self).wf(),
            old(self).same_session(*final(self)),
            old(self).step is SendHandshake ==> (r matches Ok(ExchangeAction::Send(v)) && v@
                == frame_bytes(0, handshake_payload(old(self).addr@, old(self).port))
                && final(self).step is SendRequest),
            old(self).step is SendRequest ==> (r matches Ok(ExchangeAction::Send(v)) && v@
                == frame_bytes(0, Seq::<u8>::empty()) && final(self).step is ReadStatus),
            old(self).step is ReadStatus && event is Ready ==> (r matches Ok(
                ExchangeAction::ReadFrame,
            ) && final(self).step is ReadStatus),
            event is Frame && old(self).step is ReadStatus ==> (
            match spec_from_proto_string((event->0)@) {
                Ok(s) => r matches Ok(ExchangeAction::Status(t)) && t@ == s && (if old(
                    self,
                ).with_ping {
                    final(self).step is SendPing
                } else {
                    final(self).step is Complete
                }),
                Err(f) => r == Err::<ExchangeAction, ExchangeError>(ExchangeError::Format(f))
                    && final(self).step == old(self).step,
            }),
            old(self).step is SendPing ==> (r matches Ok(ExchangeAction::Send(v)) && v@
                == frame_bytes(1, be_bytes((old(self).ping_payload as u64) as int, 8))
                && final(self).step is ReadPong),
            old(self).step is ReadPong && event is Ready ==> (r matches Ok(
                ExchangeAction::ReadFrame,
            ) && final(self).step is ReadPong),
            event is Frame && old(self).step is ReadPong ==> (
            if pong_matches((event->0)@, old(self).ping_payload) {
                r matches Ok(ExchangeAction::Done(v)) && v == old(self).ping_payload
                    && final(self).step is Complete
            } else {
                r == Err::<ExchangeAction, ExchangeError>(ExchangeError::ProtocolViolation)
                    && final(self).step == old(self).step
            }),
    {
        match self.step {
            ExchangeStep::SendHandshake => {
                let frame = match handshake(self.addr.as_str(), self.port) {
                    Ok(v) => v,
                    Err(_) => vstd::pervasive::unreached(),
                };
                self.step = ExchangeStep::SendRequest;
                Ok(ExchangeAction::Send(frame))
            },
            ExchangeStep::SendRequest => {
                self.step = ExchangeStep::ReadStatus;
                Ok(ExchangeAction::Send(request()))
            },
            ExchangeStep::ReadStatus => {
                match event {
                    ExchangeEvent::Ready => Ok(ExchangeAction::ReadFrame),
                    ExchangeEvent::Frame(d) => {
                        match response(d.as_slice()) {
                            Ok(json) => {
                                if self.with_ping {
                                    self.step = ExchangeStep::SendPing;
                                } else {
                                    self.step = ExchangeStep::Complete;
                                }
                                Ok(ExchangeAction::Status(json))
                            },
                            Err(e) => Err(e),
                        }
                    },
                }
            },
            ExchangeStep::SendPing => {
                self.step = ExchangeStep::ReadPong;
                Ok(ExchangeAction::Send(ping(self.ping_payload)))
            },
            ExchangeStep::ReadPong => {
                match event {
                    ExchangeEvent::Ready => Ok(ExchangeAction::ReadFrame),
                    ExchangeEvent::Frame(d) => {
                        match pong(d.as_slice(), self.ping_payload) {
                            Ok(v) => {
                                self.step = ExchangeStep::Complete;
                                Ok(ExchangeAction::Done(v))
                            },
                            Err(e) => Err(e),
                        }
                    },
                }
            },
            ExchangeStep::Complete => vstd::pervasive::unreached(),
        }
    }
}

/// A pong that carries any value other than the ping value can never pass the
/// check: its eight-byte encoding does not match the value sent.
pub proof fn lemma_pong_mismatch(sent: i64, received: i64)
    requires
        received != sent,
    ensures
        !pong_matches(be_bytes((received as u64) as int, 8), sent),
{
    lemma_pow256_values();
    lemma_be_bytes_round_trip((received as u64) as int, 8);
    assert((received as u64) != (sent as u64)) by (bit_vector)
        requires
            received != sent,
    ;
}

} // verus!
