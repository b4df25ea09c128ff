//! Messages exchanged between clients and the server, and the framing that
//! puts them on a byte stream: a four-byte big-endian length, then the payload.

use vstd::prelude::*;

verus! {

/// TCP port on which the server listens.
pub const SERVER_PORT: u16 = 15555;

/// A user's display name.
pub type User = String;

/// A user's public key, in textual form.
pub type PublicKey = String;

/// First message a client sends: who it is.
#[derive(Debug, Clone, PartialEq, Eq)]
pub struct LoginCommand {
    pub user_name: String,
    pub public_key: PublicKey,
}

/// Requests a logged-in client sends to the server.
#[derive(Debug, Clone, PartialEq, Eq)]
pub enum ClientCommand {
    Logout(),
    /// A chat message for every other connected user.
    SendMessage(String),
    StartVoiceCall(),
    StartVideoCall(),
}

/// Notifications the server pushes to clients.
#[derive(Debug, Clone, PartialEq, Eq)]
pub enum ServerCommand {
    /// Timestamp in seconds since the Unix epoch, sender's name, text.
    SendMessage(u64, String, String),
    /// A user came online.
    UserConnected(User),
    /// A user went offline.
    UserDisconnected(User),
}

/// Why a byte buffer does not hold a whole frame.
#[derive(Debug, Clone, Copy, PartialEq, Eq)]
pub enum FrameError {
    /// Fewer than four bytes: the length field itself is cut short.
    IncompleteHeader,
    /// The length field announces more payload bytes than the buffer holds.
    IncompletePayload,
}

/// Number of bytes of the length field.
pub const HEADER_LEN: usize = 4;

/// The value the length field carries for a payload of `len` bytes: the
/// length reduced to 32 bits.
pub open spec fn header_value(len: nat) -> nat {
    len % 0x1_0000_0000
}

/// Big-endian bytes of a number below 2^32.
pub open spec fn be_u32_bytes(n: nat) -> Seq<u8> {
    seq![
        (n / 0x100_0000) as u8,
        ((n / 0x1_0000) % 0x100) as u8,
        ((n / 0x100) % 0x100) as u8,
        (n % 0x100) as u8,
    ]
}

/// The number whose big-endian bytes are the first four of `b`.
pub open spec fn be_u32_value(b: Seq<u8>) -> nat {
    (b[0] as nat) * 0x100_0000 + (b[1] as nat) * 0x1_0000 + (b[2] as nat) * 0x100 + (b[3] as nat)
}

/// The bytes that carry `payload` on the wire.
pub open spec fn frame(payload: Seq<u8>) -> Seq<u8> {
    be_u32_bytes(header_value(payload.len())) + payload
}

/// Reading a frame off the front of `buf`: the payload and the number of
/// bytes consumed, or why the buffer does not yet hold a whole frame.
pub open spec fn parse_frame(buf: Seq<u8>) -> Result<(Seq<u8>, nat), FrameError> {
    if buf.len() < 4 {
        Err(FrameError::IncompleteHeader)
    } else if buf.len() - 4 < be_u32_value(buf) {
        Err(FrameError::IncompletePayload)
    } else {
        Ok((buf.subrange(4, 4 + be_u32_value(buf) as int), 4 + be_u32_value(buf)))
    }
}

proof fn lemma_be_u32_roundtrip(n: nat)
    requires
        n < 0x1_0000_0000,
    ensures
        be_u32_value(be_u32_bytes(n)) == n,
        be_u32_bytes(n).len() == 4,
{
    let b = be_u32_bytes(n);
    assert(n / 0x100_0000 < 0x100) by (nonlinear_arith)
        requires n < 0x1_0000_0000;
    assert(b[0] as nat == n / 0x100_0000);
    assert(b[1] as nat == (n / 0x1_0000) % 0x100);
    assert(b[2] as nat == (n / 0x100) % 0x100);
    assert(b[3] as nat == n % 0x100);
    assert((n / 0x100_0000) * 0x100_0000 + ((n / 0x1_0000) % 0x100) * 0x1_0000
        + ((n / 0x100) % 0x100) * 0x100 + n % 0x100 == n) by (nonlinear_arith);
}

/// Encoding then decoding gives the payload back, for every payload whose
/// length fits the 32-bit length field, whatever bytes follow the frame.
pub proof fn lemma_frame_roundtrip(payload: Seq<u8>, rest: Seq<u8>)
    requires
        payload.len() < 0x1_0000_0000,
    ensures
        parse_frame(frame(payload) + rest) == Ok::<(Seq<u8>, nat), FrameError>(
            (payload, 4 + payload.len()),
        ),
{
    let n = payload.len();
    lemma_be_u32_roundtrip(n);
    let buf = frame(payload) + rest;
    assert(header_value(n) == n);
    assert(buf.subrange(0, 4) =~= be_u32_bytes(n));
    assert(be_u32_value(buf) == be_u32_value(be_u32_bytes(n)));
    assert(buf.subrange(4, 4 + n as int) =~= payload);
}

/// What a frame is, byte by byte: four header bytes whose big-endian value
/// is the payload length (reduced to 32 bits), then the payload bytes
/// themselves, unchanged and in order.
pub proof fn law_frame_layout(payload: Seq<u8>)
    ensures
        frame(payload).len() == 4 + payload.len(),
        forall|i: int| 0 <= i < payload.len() ==> #[trigger] frame(payload)[4 + i] == payload[i],
        (frame(payload)[0] as int) * 0x100_0000 + (frame(payload)[1] as int) * 0x1_0000 + (
        frame(payload)[2] as int) * 0x100 + (frame(payload)[3] as int) == payload.len()
            % 0x1_0000_0000,
{
    let n = header_value(payload.len());
    lemma_be_u32_roundtrip(n);
    let f = frame(payload);
    assert(f.subrange(0, 4) =~= be_u32_bytes(n));
    assert(f[0] == be_u32_bytes(n)[0] && f[1] == be_u32_bytes(n)[1] && f[2] == be_u32_bytes(n)[2]
        && f[3] == be_u32_bytes(n)[3]);
}

/// What reading a frame off a buffer yields, in terms of the buffer's own
/// bytes: with `v` the big-endian value of the first four bytes, a buffer
/// shorter than four bytes lacks the header, one shorter than `4 + v` lacks
/// payload, and any other gives exactly the `v` bytes after the header and
/// consumes `4 + v` bytes.
pub proof fn law_parse_frame_reads_header(buf: Seq<u8>)
    ensures
        buf.len() < 4 ==> parse_frame(buf) == Err::<(Seq<u8>, nat), FrameError>(
            FrameError::IncompleteHeader,
        ),
        buf.len() >= 4 ==> {
            let v = (buf[0] as int) * 0x100_0000 + (buf[1] as int) * 0x1_0000 + (buf[2] as int)
                * 0x100 + (buf[3] as int);
            &&& buf.len() < 4 + v ==> parse_frame(buf) == Err::<(Seq<u8>, nat), FrameError>(
                FrameError::IncompletePayload,
            )
            &&& buf.len() >= 4 + v ==> (parse_frame(buf) matches Ok((p, used)) && used == 4 + v
                && p.len() == v && forall|i: int| 0 <= i < v ==> #[trigger] p[i] == buf[4 + i])
        },
{
}

/// The big-endian bytes of the length field for a payload of `len` bytes.
fn length_field(len: usize) -> (out: [u8; 4])
    ensures
        out@ == be_u32_bytes(header_value(len as nat)),
{
    let wide: u64 = len as u64;
    let n: u64 = wide % 0x1_0000_0000;
    assert(n / 0x100_0000 < 0x100) by (nonlinear_arith)
        requires n < 0x1_0000_0000;
    let out: [u8; 4] = [
        (n / 0x100_0000) as u8,
        ((n / 0x1_0000) % 0x100) as u8,
        ((n / 0x100) % 0x100) as u8,
        (n % 0x100) as u8,
    ];
    assert(out@ =~= be_u32_bytes(header_value(len as nat)));
    out
}

/// Puts `payload` in a frame: its length as four big-endian bytes (reduced to
/// 32 bits), then the payload itself.
pub fn encode_frame(payload: &[u8]) -> (out: Vec<u8>)
    ensures
        out@ == frame(payload@),
        out@.len() == 4 + payload@.len(),
        forall|i: int| 0 <= i < payload@.len() ==> #[trigger] out@[4 + i] == payload@[i],
        (out@[0] as int) * 0x100_0000 + (out@[1] as int) * 0x1_0000 + (out@[2] as int) * 0x100
            + (out@[3] as int) == payload@.len() % 0x1_0000_0000,
{
    proof {
        law_frame_layout(payload@);
    }
    let header = length_field(payload.len());
    let mut out: Vec<u8> = Vec::new();
    out.push(header[0]);
    out.push(header[1]);
    out.push(header[2]);
    out.push(header[3]);
    assert(out@ =~= header@);
    let mut i: usize = 0;
    while i < payload.len()
        invariant
            i <= payload.len(),
            out@ =~= header@ + payload@.subrange(0, i as int),
        decreases payload.len() - i,
    {
        out.push(payload[i]);
        i = i + 1;
        assert(out@ =~= header@ + payload@.subrange(0, i as int));
    }
    assert(payload@.subrange(0, payload.len() as int) =~= payload@);
    out
}

/// The payload length that a four-byte length field announces.
pub fn payload_len(header: [u8; 4]) -> (n: usize)
    ensures
        n == be_u32_value(header@),
        n == (header[0] as int) * 0x100_0000 + (header[1] as int) * 0x1_0000 + (header[2] as int)
            * 0x100 + (header[3] as int),
{
    let b0: u32 = header[0] as u32;
    let b1: u32 = header[1] as u32;
    let b2: u32 = header[2] as u32;
    let b3: u32 = header[3] as u32;
    let v: u32 = b0 * 0x100_0000 + b1 * 0x1_0000 + b2 * 0x100 + b3;
    v as usize
}

/// Reads one frame off the front of `buf`: the payload and the number of
/// bytes it took, or which part of the frame is still missing.
pub fn decode_frame(buf: &[u8]) -> (r: Result<(Vec<u8>, usize), FrameError>)
    ensures
        match (r, parse_frame(buf@)) {
            (Ok((p, used)), Ok((sp, sused))) => p@ == sp && used == sused,
            (Err(e), Err(se)) => e == se,
            _ => false,
        },
        buf@.len() < 4 ==> r == Err::<(Vec<u8>, usize), FrameError>(FrameError::IncompleteHeader),
        buf@.len() >= 4 ==> {
            let v = (buf@[0] as int) * 0x100_0000 + (buf@[1] as int) * 0x1_0000 + (buf@[2] as int)
                * 0x100 + (buf@[3] as int);
            &&& buf@.len() < 4 + v ==> r == Err::<(Vec<u8>, usize), FrameError>(
                FrameError::IncompletePayload,
            )
            &&& buf@.len() >= 4 + v ==> (r matches Ok((p, used)) && used == 4 + v && p@.len() == v
                && forall|i: int| 0 <= i < v ==> #[trigger] p@[i] == buf@[4 + i])
        },
{
    proof {
        law_parse_frame_reads_header(buf@);
    }
    if buf.len() < HEADER_LEN {
        return Err(FrameError::IncompleteHeader);
    }
    let header: [u8; 4] = [buf[0], buf[1], buf[2], buf[3]];
    assert(header@ =~= buf@.subrange(0, 4));
    let n = payload_len(header);
    assert(be_u32_value(header@) == be_u32_value(buf@));
    if buf.len() - HEADER_LEN < n {
        return Err(FrameError::IncompletePayload);
    }
    let mut payload: Vec<u8> = Vec::new();
    let mut i: usize = 0;
    while i < n
        invariant
            i <= n,
            HEADER_LEN + n <= buf.len(),
            payload@ =~= buf@.subrange(4, 4 + i as int),
        decreases n - i,
    {
        payload.push(buf[HEADER_LEN + i]);
        i = i + 1;
        assert(payload@ =~= buf@.subrange(4, 4 + i as int));
    }
    Ok((payload, HEADER_LEN + n))
}

} // verus!
