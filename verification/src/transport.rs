use vstd::prelude::*;

use crate::strutil::{contains_seq, contains_str, lower_seq, lower_str, str_eq};

verus! {

/// The delivery mechanism a protocol message travels over.
#[derive(Debug, Clone, Copy, PartialEq, Eq, Structural)]
pub enum Carrier {
    Stream,
    Datagram,
    TunneledHttp,
}

/// A transport failure, by kind: connection or delivery trouble, a framing
/// or length mismatch, a non-success tunnel status, or a certificate problem
/// (distinguished so the caller can report it separately).
#[derive(Debug)]
pub enum TransportError {
    Connection(String),
    Framing(String),
    HttpStatus(String),
    Certificate(String),
}

/// One protocol message at the transport boundary: a carrier, a textual
/// destination, and the opaque payload to deliver.
#[derive(Debug)]
pub struct NetworkRequest {
    pub carrier: Carrier,
    pub destination_url: String,
    pub payload: Vec<u8>,
}

/// Largest datagram reply accepted: the maximum plausible ticket-protocol
/// token.
pub const MAX_DATAGRAM_REPLY: usize = 48000;

/// The default ticket-service port, used when the destination names none.
pub const DEFAULT_KDC_PORT: u16 = 88;

/// The big-endian 32-bit value of four bytes.
pub open spec fn be32(b: Seq<u8>) -> nat {
    (b[0] as nat) * 0x1000000 + (b[1] as nat) * 0x10000 + (b[2] as nat) * 0x100 + (b[3] as nat)
}

/// The four big-endian bytes of a 32-bit value.
pub open spec fn be_bytes_of(n: u32) -> Seq<u8> {
    seq![
        (n / 0x1000000) as u8,
        ((n / 0x10000) % 0x100) as u8,
        ((n / 0x100) % 0x100) as u8,
        (n % 0x100) as u8,
    ]
}

/// The four big-endian bytes read back as the value they encode.
#[verifier::rlimit(100)]
pub proof fn lemma_be_round_trip(n: u32)
    ensures
        be32(be_bytes_of(n)) == n,
{
    assert(n / 0x1000000 < 0x100) by (bit_vector);
    assert(n / 0x1000000 * 0x1000000 + ((n / 0x10000) % 0x100) * 0x10000 + ((n / 0x100) % 0x100)
        * 0x100 + n % 0x100 == n) by (bit_vector);
}

/// The length a frame's first four bytes announce, when four bytes are there.
pub fn parse_len_prefix(buf: &Vec<u8>) -> (r: Option<u32>)
    ensures
        buf@.len() >= 4 ==> (r matches Some(n) && n as nat == be32(buf@.subrange(0, 4))),
        buf@.len() < 4 ==> r is None,
{
    if buf.len() < 4 {
        return Option::None;
    }
    let b0: u32 = buf[0] as u32;
    let b1: u32 = buf[1] as u32;
    let b2: u32 = buf[2] as u32;
    let b3: u32 = buf[3] as u32;
    let n: u32 = b0 * 0x1000000 + b1 * 0x10000 + b2 * 0x100 + b3;
    proof {
        assert(buf@.subrange(0, 4)[0] == buf@[0]);
        assert(buf@.subrange(0, 4)[1] == buf@[1]);
        assert(buf@.subrange(0, 4)[2] == buf@[2]);
        assert(buf@.subrange(0, 4)[3] == buf@[3]);
    }
    Option::Some(n)
}

/// Prepend the body's length as a four-byte big-endian prefix, producing the
/// uniform `[length][body]` reply shape. Fails on a body too long to frame.
pub fn encode_frame(body: &Vec<u8>) -> (r: Result<Vec<u8>, TransportError>)
    ensures
        body@.len() <= u32::MAX ==> (r matches Ok(f) && f@ == be_bytes_of(body@.len() as u32)
            + body@ && be32(f@.subrange(0, 4)) == body@.len()),
        body@.len() > u32::MAX ==> (r matches Err(e) && e is Framing),
{
    if body.len() > 0xffff_ffffusize {
        return Result::Err(
            TransportError::Framing(String::from_str("reply too long to frame")),
        );
    }
    let n: u32 = body.len() as u32;
    let mut out: Vec<u8> = Vec::new();
    out.push((n / 0x1000000) as u8);
    out.push(((n / 0x10000) % 0x100) as u8);
    out.push(((n / 0x100) % 0x100) as u8);
    out.push((n % 0x100) as u8);
    proof {
        assert(out@ =~= be_bytes_of(n));
    }
    let mut i: usize = 0;
    while i < body.len()
        invariant
            0 <= i <= body@.len(),
            out@ == be_bytes_of((body@.len() as u32)) + body@.subrange(0, i as int),
            body@.len() <= u32::MAX,
        decreases body@.len() - i,
    {
        out.push(body[i]);
        proof {
            assert(out@ =~= be_bytes_of((body@.len() as u32)) + body@.subrange(0, i + 1));
        }
        i = i + 1;
    }
    proof {
        assert(body@.subrange(0, body@.len() as int) =~= body@);
        lemma_be_round_trip((body@.len() as u32));
        assert(out@.subrange(0, 4) =~= be_bytes_of((body@.len() as u32)));
    }
    Result::Ok(out)
}

/// Take one length-framed reply from the bytes available on a stream: parse
/// the four-byte big-endian prefix and return exactly the prefix and that
/// many further bytes, leaving anything else buffered behind them untouched.
pub fn stream_receive(available: &Vec<u8>) -> (r: Result<Vec<u8>, TransportError>)
    ensures
        available@.len() >= 4 && available@.len() >= 4 + be32(available@.subrange(0, 4)) ==> (
        r matches Ok(f) && f@ == available@.subrange(
            0,
            4 + be32(available@.subrange(0, 4)) as int,
        )),
        available@.len() < 4 ==> (r matches Err(e) && e is Framing),
        available@.len() >= 4 && available@.len() < 4 + be32(available@.subrange(0, 4)) ==> (
        r matches Err(e) && e is Framing),
{
    let n = match parse_len_prefix(available) {
        Option::Some(n) => n,
        Option::None => {
            return Result::Err(
                TransportError::Framing(String::from_str("reply shorter than its length prefix")),
            );
        },
    };
    if available.len() < 4 || (available.len() - 4) < (n as usize) {
        return Result::Err(
            TransportError::Framing(String::from_str("reply shorter than its length prefix")),
        );
    }
    let total: usize = 4 + (n as usize);
    let mut out: Vec<u8> = Vec::new();
    let mut i: usize = 0;
    while i < total
        invariant
            total <= available@.len(),
            0 <= i <= total,
            out@ == available@.subrange(0, i as int),
        decreases total - i,
    {
        out.push(available[i]);
        proof {
            assert(out@ =~= available@.subrange(0, i + 1));
        }
        i = i + 1;
    }
    Result::Ok(out)
}

/// The carrier a destination scheme selects: tcp is the stream carrier, udp
/// the datagram carrier, http and https the tunneled carrier.
pub fn carrier_of_scheme(scheme: &str) -> (r: Option<Carrier>)
    ensures
        scheme@ == "tcp"@ ==> r == Option::Some(Carrier::Stream),
        scheme@ == "udp"@ ==> r == Option::Some(Carrier::Datagram),
        scheme@ == "http"@ || scheme@ == "https"@ ==> r == Option::Some(Carrier::TunneledHttp),
        scheme@ != "tcp"@ && scheme@ != "udp"@ && scheme@ != "http"@ && scheme@ != "https"@ ==> r
            is None,
{
    proof {
        reveal_strlit("tcp");
        reveal_strlit("udp");
        reveal_strlit("http");
        reveal_strlit("https");
        assert("udp"@[0] != "tcp"@[0]);
        assert("udp"@ != "tcp"@);
        assert("http"@.len() != "tcp"@.len());
        assert("http"@ != "tcp"@);
        assert("http"@.len() != "udp"@.len());
        assert("http"@ != "udp"@);
        assert("https"@.len() != "tcp"@.len());
        assert("https"@ != "tcp"@);
        assert("https"@.len() != "udp"@.len());
        assert("https"@ != "udp"@);
    }
    if str_eq(scheme, "tcp") {
        Option::Some(Carrier::Stream)
    } else if str_eq(scheme, "udp") {
        Option::Some(Carrier::Datagram)
    } else if str_eq(scheme, "http") || str_eq(scheme, "https") {
        Option::Some(Carrier::TunneledHttp)
    } else {
        Option::None
    }
}

/// The port a destination uses: its own, or the default ticket-service port.
pub fn effective_port(port: Option<u16>) -> (r: u16)
    ensures
        port matches Some(p) ==> r == p,
        port is None ==> r == DEFAULT_KDC_PORT,
{
    match port {
        Option::Some(p) => p,
        Option::None => 88,
    }
}

/// Classify a tunnel delivery failure from its message: one that mentions a
/// certificate is a certificate failure, anything else a delivery failure.
/// The message is carried along unchanged.
pub fn classify_http_error(msg: &str) -> (r: TransportError)
    ensures
        contains_seq(lower_seq(msg@), "certificate"@) ==> (r matches TransportError::Certificate(
            m,
        ) && m@ == msg@),
        !contains_seq(lower_seq(msg@), "certificate"@) ==> (r matches TransportError::Connection(
            m,
        ) && m@ == msg@),
{
    let lower = lower_str(msg);
    if contains_str(lower.as_str(), "certificate") {
        TransportError::Certificate(String::from_str(msg))
    } else {
        TransportError::Connection(String::from_str(msg))
    }
}

} // verus!
