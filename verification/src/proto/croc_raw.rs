//! The framed transport: every message travels as the magic `croc`, its
//! length as four little-endian bytes, and the payload.
//!
//! Writing is a function from a message to the bytes of its frame. Reading is
//! a small machine that says how many bytes it wants next and what to do with
//! those that came.

use crate::crypto::curve::SIEC255Params;
use crate::crypto::pake::{
    default_password, pake_start, pake_update, Error, ErrorView, Pake, PakePubKey, PakeView,
    PubKeyView, Role,
};
use crate::crypto::random::random_bytes;
use byteorder::LittleEndian;
use byteorder::WriteBytesExt;
use vstd::prelude::*;

verus! {

/// What can go wrong on the protocol's own account.
#[derive(PartialEq, Eq, Structural, Clone, Copy, Debug)]
pub enum ProtoError {
    /// Symmetric key negotiation failed.
    KeyNegotiationFailiure,
    /// The curve received is not supported.
    CurveNotSupported,
    /// The curve was not initialized.
    CurveNotInitialized,
    /// A frame did not start with the magic.
    BadMagic,
    /// A payload is too long for a frame, or a read brought another number
    /// of bytes than was asked for.
    BadFrameLength,
}

/// The four bytes that start every frame: ASCII `croc`.
pub open spec fn magic() -> Seq<u8> {
    seq![0x63u8, 0x72u8, 0x6fu8, 0x63u8]
}

/// `n` as four little-endian bytes.
pub open spec fn u32_le_bytes(n: u32) -> Seq<u8> {
    seq![
        (n % 256) as u8,
        ((n / 256) % 256) as u8,
        ((n / 65536) % 256) as u8,
        (n / 16777216) as u8,
    ]
}

/// The number that four little-endian bytes stand for.
pub open spec fn u32_from_le(b: Seq<u8>) -> int {
    b[0] + 256 * b[1] + 65536 * b[2] + 16777216 * b[3]
}

/// The frame that carries `msg`.
pub open spec fn frame_of(msg: Seq<u8>) -> Seq<u8> {
    magic() + u32_le_bytes(msg.len() as u32) + msg
}

/// The keepalive that a relay sends to a waiting client: one byte, 1.
pub open spec fn is_ping(msg: Seq<u8>) -> bool {
    msg.len() == 1 && msg[0] == 1
}

/// Reading back what was written gives the same number.
pub proof fn lemma_u32_le_round_trip(n: u32)
    ensures
        u32_le_bytes(n).len() == 4,
        u32_from_le(u32_le_bytes(n)) == n,
{
}

/// Appends `n` as four little-endian bytes, by `WriteBytesExt::write_u32`
/// with `LittleEndian`.
///
/// Trusted: the four bytes are those of `to_le_bytes`, and writing to a
/// vector appends and does not fail.
#[verifier::external_body]
fn put_u32_le(buf: &mut Vec<u8>, n: u32)
    ensures
        final(buf)@ == old(buf)@ + u32_le_bytes(n),
{
    let _ = WriteBytesExt::write_u32::<LittleEndian>(buf, n);
}

/// Appends `more` to `buf`.
pub fn append_bytes(buf: &mut Vec<u8>, more: &[u8])
    ensures
        final(buf)@ == old(buf)@ + more@,
{
    let ghost before = buf@;
    let mut i: usize = 0;
    while i < more.len()
        invariant
            i <= more.len(),
            buf@ == before + more@.take(i as int),
        decreases more.len() - i,
    {
        buf.push(more[i]);
        proof {
            assert(buf@ =~= before + more@.take(i + 1));
        }
        i = i + 1;
    }
    proof {
        assert(more@.take(more.len() as int) =~= more@);
    }
}

/// Whether two byte strings are the same.
pub fn bytes_eq(a: &[u8], b: &[u8]) -> (r: bool)
    ensures
        r == (a@ == b@),
{
    if a.len() != b.len() {
        return false;
    }
    let mut i: usize = 0;
    while i < a.len()
        invariant
            i <= a.len(),
            a@.len() == b@.len(),
            a@.take(i as int) == b@.take(i as int),
        decreases a.len() - i,
    {
        if a[i] != b[i] {
            return false;
        }
        proof {
            assert(a@.take(i + 1) =~= a@.take(i as int).push(a@[i as int]));
            assert(b@.take(i + 1) =~= b@.take(i as int).push(b@[i as int]));
        }
        i = i + 1;
    }
    proof {
        assert(a@.take(a.len() as int) =~= a@);
        assert(b@.take(b.len() as int) =~= b@);
    }
    true
}

/// The frame that carries `msg`: magic, length, payload. A message of more
/// than `u32::MAX` bytes has no frame.
pub fn frame(msg: &[u8]) -> (r: Result<Vec<u8>, ProtoError>)
    ensures
        match r {
            Ok(bytes) => msg@.len() <= u32::MAX && bytes@ == frame_of(msg@),
            Err(e) => msg@.len() > u32::MAX && e == ProtoError::BadFrameLength,
        },
{
    if msg.len() > u32::MAX as usize {
        return Err(ProtoError::BadFrameLength);
    }
    let mut buffer: Vec<u8> = Vec::new();
    buffer.push(0x63);
    buffer.push(0x72);
    buffer.push(0x6f);
    buffer.push(0x63);
    proof {
        assert(buffer@ =~= magic());
    }
    put_u32_le(&mut buffer, msg.len() as u32);
    append_bytes(&mut buffer, msg);
    Ok(buffer)
}

/// Whether `header` is the magic.
pub fn check_magic(header: &[u8]) -> (r: Result<(), ProtoError>)
    ensures
        match r {
            Ok(_) => header@ == magic(),
            Err(e) => header@ != magic() && e == ProtoError::BadMagic,
        },
{
    if header.len() == 4 && header[0] == 0x63 && header[1] == 0x72 && header[2] == 0x6f
        && header[3] == 0x63 {
        proof {
            assert(header@ =~= magic());
        }
        Ok(())
    } else {
        Err(ProtoError::BadMagic)
    }
}

/// The payload length that four little-endian bytes announce.
pub fn payload_length(bytes: &[u8]) -> (r: u32)
    requires
        bytes@.len() == 4,
    ensures
        r == u32_from_le(bytes@),
{
    let b0: u32 = bytes[0] as u32;
    let b1: u32 = bytes[1] as u32;
    let b2: u32 = bytes[2] as u32;
    let b3: u32 = bytes[3] as u32;
    b0 + 256 * b1 + 65536 * b2 + 16777216 * b3
}

/// Where a reader stands within a frame.
#[derive(PartialEq, Eq, Structural, Clone, Copy, Debug)]
pub enum ReadState {
    /// The magic is due.
    Magic,
    /// The length is due.
    Length,
    /// A payload of `len` bytes is due.
    Payload { len: u32 },
    /// Nothing more is read; `error` says why, if the protocol was broken.
    Closed { error: Option<ProtoError> },
}

/// What the owner of the socket does next.
#[derive(Debug)]
pub enum ReadAction {
    /// Read exactly `count` bytes and hand them to `on_bytes`.
    Read { count: usize },
    /// Hand `message` on, then read the next frame's magic.
    Deliver { message: Vec<u8> },
    /// Stop reading.
    Stop { error: Option<ProtoError> },
}

/// A `ReadAction` with its message as a sequence.
pub ghost enum ReadActionView {
    Read { count: nat },
    Deliver { message: Seq<u8> },
    Stop { error: Option<ProtoError> },
}

impl View for ReadAction {
    type V = ReadActionView;

    open spec fn view(&self) -> ReadActionView {
        match *self {
            ReadAction::Read { count } => ReadActionView::Read { count: count as nat },
            ReadAction::Deliver { message } => ReadActionView::Deliver { message: message@ },
            ReadAction::Stop { error } => ReadActionView::Stop { error },
        }
    }
}

/// The reading side of a framed connection.
#[derive(Clone, Copy, Debug)]
pub struct FrameReader {
    pub state: ReadState,
    /// Whether keepalive pings are dropped rather than delivered.
    pub skip_pings: bool,
}

/// How many bytes a reader in `state` wants next.
pub open spec fn wanted_in(state: ReadState) -> nat {
    match state {
        ReadState::Magic => 4,
        ReadState::Length => 4,
        ReadState::Payload { len } => len as nat,
        ReadState::Closed { .. } => 0,
    }
}

/// The state that follows when `bytes` arrive in `state`, and what is to be
/// done then.
pub open spec fn read_step(state: ReadState, skip_pings: bool, bytes: Seq<u8>) -> (
    ReadState,
    ReadActionView,
) {
    match state {
        ReadState::Closed { error } => (state, ReadActionView::Stop { error }),
        _ => if bytes.len() != wanted_in(state) {
            (
                ReadState::Closed { error: Some(ProtoError::BadFrameLength) },
                ReadActionView::Stop { error: Some(ProtoError::BadFrameLength) },
            )
        } else {
            match state {
                ReadState::Magic => if bytes == magic() {
                    (ReadState::Length, ReadActionView::Read { count: 4 })
                } else {
                    (
                        ReadState::Closed { error: Some(ProtoError::BadMagic) },
                        ReadActionView::Stop { error: Some(ProtoError::BadMagic) },
                    )
                },
                ReadState::Length => (
                    ReadState::Payload { len: u32_from_le(bytes) as u32 },
                    ReadActionView::Read { count: u32_from_le(bytes) as nat },
                ),
                _ => if skip_pings && is_ping(bytes) {
                    (ReadState::Magic, ReadActionView::Read { count: 4 })
                } else {
                    (ReadState::Magic, ReadActionView::Deliver { message: bytes })
                },
            }
        },
    }
}

impl FrameReader {
    /// A reader at the start of a frame.
    pub fn new(skip_pings: bool) -> (r: Self)
        ensures
            r.state == ReadState::Magic,
            r.skip_pings == skip_pings,
    {
        FrameReader { state: ReadState::Magic, skip_pings }
    }

    /// How many bytes to read next; none once the reader is closed.
    pub fn wanted(&self) -> (r: usize)
        ensures
            r == wanted_in(self.state),
    {
        match self.state {
            ReadState::Magic => 4,
            ReadState::Length => 4,
            ReadState::Payload { len } => len as usize,
            ReadState::Closed { .. } => 0,
        }
    }

    /// Takes the bytes of one read. A frame that does not start with the magic
    /// closes the reader for good, and nothing more is asked for.
    pub fn on_bytes(&mut self, bytes: Vec<u8>) -> (r: ReadAction)
        ensures
            final(self).skip_pings == old(self).skip_pings,
            (final(self).state, r@) == read_step(old(self).state, old(self).skip_pings, bytes@),
    {
        match self.state {
            ReadState::Closed { error } => ReadAction::Stop { error },
            ReadState::Magic => {
                if bytes.len() != 4 {
                    self.state = ReadState::Closed { error: Some(ProtoError::BadFrameLength) };
                    return ReadAction::Stop { error: Some(ProtoError::BadFrameLength) };
                }
                match check_magic(bytes.as_slice()) {
                    Ok(_) => {
                        self.state = ReadState::Length;
                        ReadAction::Read { count: 4 }
                    },
                    Err(e) => {
                        self.state = ReadState::Closed { error: Some(e) };
                        ReadAction::Stop { error: Some(e) }
                    },
                }
            },
            ReadState::Length => {
                if bytes.len() != 4 {
                    self.state = ReadState::Closed { error: Some(ProtoError::BadFrameLength) };
                    return ReadAction::Stop { error: Some(ProtoError::BadFrameLength) };
                }
                let len = payload_length(bytes.as_slice());
                self.state = ReadState::Payload { len };
                ReadAction::Read { count: len as usize }
            },
            ReadState::Payload { len } => {
                if bytes.len() != len as usize {
                    self.state = ReadState::Closed { error: Some(ProtoError::BadFrameLength) };
                    return ReadAction::Stop { error: Some(ProtoError::BadFrameLength) };
                }
                self.state = ReadState::Magic;
                // A relay may send its ping once more after the two parties
                // were connected.
                if self.skip_pings && bytes.len() == 1 && bytes[0] == 1u8 {
                    ReadAction::Read { count: 4 }
                } else {
                    ReadAction::Deliver { message: bytes }
                }
            },
        }
    }

    /// Takes note that a read failed or the stream ended.
    pub fn on_failure(&mut self) -> (r: ReadAction)
        ensures
            final(self).skip_pings == old(self).skip_pings,
            match old(self).state {
                ReadState::Closed { error } => final(self).state == old(self).state && r@
                    == (ReadActionView::Stop { error }),
                _ => final(self).state == (ReadState::Closed { error: None }) && r@ == (
                ReadActionView::Stop { error: None }),
            },
    {
        match self.state {
            ReadState::Closed { error } => ReadAction::Stop { error },
            _ => {
                self.state = ReadState::Closed { error: None };
                ReadAction::Stop { error: None }
            },
        }
    }
}

/// What one read makes of the input `input` that stands unread on a
/// connection, and the input that is unread afterwards. Four bytes are read
/// and must be the magic; if they are not, the read fails and nothing more is
/// read. Then four bytes of length are read, and then so many bytes of
/// payload. Input that ends within a frame is read to its end, and the read
/// fails.
pub open spec fn frame_read(input: Seq<u8>) -> (Result<Seq<u8>, ProtoError>, Seq<u8>) {
    let len = input.len() as int;
    if len < 4 {
        (Err(ProtoError::BadFrameLength), Seq::<u8>::empty())
    } else if input.subrange(0, 4) != magic() {
        (Err(ProtoError::BadMagic), input.subrange(4, len))
    } else if len < 8 {
        (Err(ProtoError::BadFrameLength), Seq::<u8>::empty())
    } else {
        let announced = u32_from_le(input.subrange(4, 8));
        if len - 8 < announced {
            (Err(ProtoError::BadFrameLength), Seq::<u8>::empty())
        } else {
            (Ok(input.subrange(8, 8 + announced)), input.subrange(8 + announced, len))
        }
    }
}

/// A framed connection, as the bytes that have arrived on it and are not yet
/// read.
#[derive(Debug)]
pub struct CrocProto {
    pub unread: Vec<u8>,
}

/// A copy of what stands in `bytes` from `from` on.
fn rest_of(bytes: &Vec<u8>, from: usize) -> (r: Vec<u8>)
    requires
        from <= bytes@.len(),
    ensures
        r@ == bytes@.subrange(from as int, bytes@.len() as int),
{
    let mut r: Vec<u8> = Vec::new();
    let mut i: usize = from;
    while i < bytes.len()
        invariant
            from <= i <= bytes@.len(),
            r@ == bytes@.subrange(from as int, i as int),
        decreases bytes@.len() - i,
    {
        r.push(bytes[i]);
        proof {
            assert(r@ =~= bytes@.subrange(from as int, i + 1));
        }
        i = i + 1;
    }
    r
}

impl CrocProto {
    /// A connection on which `unread` has arrived.
    pub fn from_stream(unread: Vec<u8>) -> (r: CrocProto)
        ensures
            r.unread == unread,
    {
        CrocProto { unread }
    }

    /// The first `n` unread bytes, or all of them where there are fewer. They
    /// stay unread.
    pub fn peek(&self, n: usize) -> (r: Vec<u8>)
        ensures
            r@ == self.unread@.take(if n <= self.unread@.len() {
                n as int
            } else {
                self.unread@.len() as int
            }),
    {
        let end = if n <= self.unread.len() {
            n
        } else {
            self.unread.len()
        };
        let mut r: Vec<u8> = Vec::new();
        let mut i: usize = 0;
        while i < end
            invariant
                i <= end <= self.unread@.len(),
                r@ == self.unread@.take(i as int),
            decreases end - i,
        {
            r.push(self.unread[i]);
            proof {
                assert(r@ =~= self.unread@.take(i + 1));
            }
            i = i + 1;
        }
        r
    }

    /// Reads one frame off the unread input and gives its payload. A frame
    /// that does not start with the magic fails the read with `BadMagic`, and
    /// of such a frame the four bytes are read and no more.
    pub fn read(&mut self) -> (r: Result<Vec<u8>, ProtoError>)
        ensures
            final(self).unread@ == frame_read(old(self).unread@).1,
            match frame_read(old(self).unread@).0 {
                Ok(payload) => r matches Ok(message) && message@ == payload,
                Err(fault) => r == Err::<Vec<u8>, ProtoError>(fault),
            },
    {
        let len = self.unread.len();
        if len < 4 {
            self.unread = Vec::new();
            return Err(ProtoError::BadFrameLength);
        }
        let header = vstd::slice::slice_subrange(self.unread.as_slice(), 0, 4);
        match check_magic(header) {
            Ok(_) => {},
            Err(fault) => {
                self.unread = rest_of(&self.unread, 4);
                return Err(fault);
            },
        }
        if len < 8 {
            self.unread = Vec::new();
            return Err(ProtoError::BadFrameLength);
        }
        let announced = payload_length(
            vstd::slice::slice_subrange(self.unread.as_slice(), 4, 8),
        );
        if ((len - 8) as u64) < announced as u64 {
            self.unread = Vec::new();
            return Err(ProtoError::BadFrameLength);
        }
        let end = 8 + announced as usize;
        let mut message: Vec<u8> = Vec::new();
        let mut i: usize = 8;
        while i < end
            invariant
                8 <= i <= end <= self.unread@.len(),
                message@ == self.unread@.subrange(8, i as int),
            decreases end - i,
        {
            message.push(self.unread[i]);
            proof {
                assert(message@ =~= self.unread@.subrange(8, i + 1));
            }
            i = i + 1;
        }
        self.unread = rest_of(&self.unread, end);
        Ok(message)
    }
}

/// What was written as a frame is what is read, and what stood behind the
/// frame stays unread.
pub proof fn lemma_read_of_written(msg: Seq<u8>, rest: Seq<u8>)
    requires
        msg.len() <= u32::MAX,
    ensures
        frame_read(frame_of(msg) + rest) == (Ok::<Seq<u8>, ProtoError>(msg), rest),
{
    let input = frame_of(msg) + rest;
    lemma_u32_le_round_trip(msg.len() as u32);
    assert(input.subrange(0, 4) =~= magic());
    assert(input.subrange(4, 8) =~= u32_le_bytes(msg.len() as u32));
    let end = 8 + msg.len() as int;
    assert(input.subrange(8, end) =~= msg);
    assert(input.subrange(end, input.len() as int) =~= rest);
}

/// A read gives a payload only where the input starts with the magic; where
/// four bytes are there and are not the magic, the read fails with
/// `BadMagic` and exactly those four bytes are read.
pub proof fn lemma_read_wants_magic(input: Seq<u8>)
    ensures
        frame_read(input).0 is Ok ==> input.len() >= 8 && input.subrange(0, 4) == magic(),
        input.len() >= 4 && input.subrange(0, 4) != magic() ==> frame_read(input) == (
            Err::<Seq<u8>, ProtoError>(ProtoError::BadMagic),
            input.subrange(4, input.len() as int),
        ),
{
}

/// A reader that is fed the frame of `msg` in the three reads it asks for
/// delivers `msg` and stands at the next frame's start; a ping is dropped
/// instead where the reader skips pings.
pub proof fn lemma_reads_what_was_framed(msg: Seq<u8>, skip_pings: bool)
    requires
        msg.len() <= u32::MAX,
    ensures
        ({
            let f = frame_of(msg);
            let s1 = read_step(ReadState::Magic, skip_pings, f.subrange(0, 4));
            let s2 = read_step(s1.0, skip_pings, f.subrange(4, 8));
            let s3 = read_step(s2.0, skip_pings, f.subrange(8, f.len() as int));
            &&& s1 == (ReadState::Length, ReadActionView::Read { count: 4 })
            &&& s2 == (
                ReadState::Payload { len: msg.len() as u32 },
                ReadActionView::Read { count: msg.len() },
            )
            &&& s3.0 == ReadState::Magic
            &&& s3.1 == if skip_pings && is_ping(msg) {
                ReadActionView::Read { count: 4 }
            } else {
                ReadActionView::Deliver { message: msg }
            }
        }),
{
    let f = frame_of(msg);
    lemma_u32_le_round_trip(msg.len() as u32);
    assert(f.subrange(0, 4) =~= magic());
    assert(f.subrange(4, 8) =~= u32_le_bytes(msg.len() as u32));
    assert(f.subrange(8, f.len() as int) =~= msg);
}

/// A frame that does not start with the magic fails the read, and from then
/// on the reader asks for no byte and gives the same answer to whatever comes.
pub proof fn lemma_bad_magic_is_final(header: Seq<u8>, skip_pings: bool, later: Seq<u8>)
    requires
        header.len() == 4,
        header != magic(),
    ensures
        ({
            let s1 = read_step(ReadState::Magic, skip_pings, header);
            let s2 = read_step(s1.0, skip_pings, later);
            &&& s1.1 == (ReadActionView::Stop { error: Some(ProtoError::BadMagic) })
            &&& wanted_in(s1.0) == 0
            &&& s2 == s1
        }),
{
}

/// Why a key negotiation failed.
#[derive(Debug)]
pub enum KeyError {
    /// The key exchange refused the peer's key.
    Pake(Error),
    /// The exchange ended without a key.
    Proto(ProtoError),
}

/// The negotiation of a symmetric key over a fresh connection: both sides run
/// the key exchange with the default password. The sender writes its public
/// key first; the receiver answers with its own once it has taken the
/// sender's in.
pub struct KeyNegotiation {
    pub key: Pake<SIEC255Params>,
}

/// What the beginning of a negotiation in `role` comes to, with `alpha` as
/// the secret scalar: the instance of the key exchange, and the public key
/// that is written first, which only a sender has.
pub open spec fn negotiation_begun(
    role: Role,
    alpha: Seq<u8>,
    r: Result<(KeyNegotiation, Option<PakePubKey>), Error>,
) -> bool {
    match r {
        Ok((negotiation, first)) => {
            &&& negotiation.key.wf()
            &&& Some(negotiation.key@) == pake_start(role, default_password(), alpha)
            &&& match role {
                Role::Sender => first matches Some(key) && key@ == negotiation.key@.pub_pake,
                Role::Reciever => first is None,
            }
        },
        Err(e) => e@ == ErrorView::NoInverse && pake_start(role, default_password(), alpha)
            is None,
    }
}

/// What taking in the peer's key comes to, with `alpha` as the scalar that a
/// receiver draws: the session key and this side's public key as it stands
/// then, or the failure of the exchange.
pub open spec fn negotiation_finished(
    before: PakeView,
    peer: PubKeyView,
    alpha: Seq<u8>,
    r: Result<([u8; 32], PakePubKey), KeyError>,
) -> bool {
    match pake_update(before, peer, alpha) {
        Ok(done) => r matches Ok((k, own)) && done.k == Some(k@) && own@ == done.pub_pake,
        Err(e) => r matches Err(KeyError::Pake(err)) && err@ == e,
    }
}

impl KeyNegotiation {
    /// Begins the negotiation in `role`, with `alpha` as the secret scalar.
    pub fn negotiate_symmetric_key_with_alpha(role: Role, alpha: [u8; 32]) -> (r: Result<
        (KeyNegotiation, Option<PakePubKey>),
        Error,
    >)
        ensures
            negotiation_begun(role, alpha@, r),
    {
        let key = match Pake::with_alpha(role, None, alpha) {
            Ok(key) => key,
            Err(e) => { return Err(e); },
        };
        let first = match role {
            Role::Sender => Some(key.pub_pake.duplicate()),
            Role::Reciever => None,
        };
        Ok((KeyNegotiation { key }, first))
    }

    /// Begins the negotiation in `role`; the secret scalar is drawn at random.
    pub fn negotiate_symmetric_key(role: Role) -> (r: Result<
        (KeyNegotiation, Option<PakePubKey>),
        Error,
    >)
        ensures
            exists|alpha: Seq<u8>| alpha.len() == 32 && #[trigger] negotiation_begun(role, alpha, r),
    {
        let alpha = random_bytes::<32>();
        KeyNegotiation::negotiate_symmetric_key_with_alpha(role, alpha)
    }

    /// Takes in the peer's public key, with `alpha` as the scalar where this
    /// side is the receiver, and gives the symmetric key together with this
    /// side's public key, which a receiver writes in answer.
    pub fn finish_with_alpha(self, peer: PakePubKey, alpha: [u8; 32]) -> (r: Result<
        ([u8; 32], PakePubKey),
        KeyError,
    >)
        requires
            self.key.wf(),
        ensures
            negotiation_finished(self.key@, peer@, alpha@, r),
    {
        let mut key = self.key;
        match key.update_with_alpha(peer, alpha) {
            Ok(_) => {},
            Err(e) => { return Err(KeyError::Pake(e)); },
        }
        // strong key - this is our symmetric key
        match key.k {
            Some(k) => Ok((k, key.pub_pake)),
            None => Err(KeyError::Proto(ProtoError::KeyNegotiationFailiure)),
        }
    }

    /// Takes in the peer's public key; a receiver draws its scalar at random.
    pub fn finish(self, peer: PakePubKey) -> (r: Result<([u8; 32], PakePubKey), KeyError>)
        requires
            self.key.wf(),
        ensures
            exists|alpha: Seq<u8>|
                alpha.len() == 32 && #[trigger] negotiation_finished(self.key@, peer@, alpha, r),
    {
        let alpha: [u8; 32] = match self.key.pub_pake.role {
            Role::Reciever => random_bytes::<32>(),
            Role::Sender => [0u8; 32],
        };
        self.finish_with_alpha(peer, alpha)
    }
}

} // verus!
