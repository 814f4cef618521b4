//! The wire protocol of the front panel.
//!
//! A frame is an opcode, the number `N` of payload bytes, a command, the payload
//! and a checksum: the sum of all bytes before it, modulo 256. It is `N + 4`
//! bytes long.
use crate::number::{decimal, hex_byte, push_decimal, push_hex};
use crate::text::{truth, truth_of};
use vstd::prelude::*;
use vstd::slice::slice_subrange;
use vstd::utf8::encode_utf8;

verus! {

/// The serial device of the panel.
pub const LCM_DEVICE: &'static str = "/dev/ttyS1";

/// The length of the longest frame.
pub const FRAME_MAX: usize = 22;

/// The most payload bytes that a frame holds.
pub const PAYLOAD_MAX: usize = 18;

/// How many characters a line of the display has.
pub const LINE_CHARS: usize = 16;

/// The opcode of a request, in either direction.
pub const REQUEST: u8 = 0xF0;

/// The opcode of the reply to a request.
pub const REPLY: u8 = 0xF1;

/// The command that sets a line of text.
pub const SET_TEXT: u8 = 0x27;

/// The command by which the panel reports a key.
pub const KEY_PRESSED: u8 = 0x80;

/// The command by which the panel reports its firmware version.
pub const VERSION: u8 = 0x13;

/// A frame before it is put on the wire.
#[derive(Debug, Clone)]
pub struct Frame {
    pub opcode: u8,
    pub subcmd: u8,
    pub payload: Vec<u8>,
}

/// The keys of the panel.
#[derive(Debug, Clone, Copy, PartialEq, Eq, Structural)]
pub enum Key {
    Up,
    Down,
    Back,
    Enter,
    /// Not a key of its own: the panel left its idle state.
    Wake,
    Unknown(u8),
}

/// The key that a code stands for.
pub open spec fn key_of(code: u8) -> Key {
    if code == 1 {
        Key::Up
    } else if code == 2 {
        Key::Down
    } else if code == 3 {
        Key::Back
    } else if code == 4 {
        Key::Enter
    } else if code == 5 {
        Key::Wake
    } else {
        Key::Unknown(code)
    }
}

impl vstd::std_specs::convert::FromSpecImpl<u8> for Key {
    open spec fn obeys_from_spec() -> bool {
        true
    }

    open spec fn from_spec(code: u8) -> Key {
        key_of(code)
    }
}

impl From<u8> for Key {
    fn from(code: u8) -> (r: Key) {
        match code {
            1 => Key::Up,
            2 => Key::Down,
            3 => Key::Back,
            4 => Key::Enter,
            5 => Key::Wake,
            other => Key::Unknown(other),
        }
    }
}

/// The sum of some bytes, modulo 256.
pub open spec fn sum8(s: Seq<u8>) -> int
    decreases s.len(),
{
    if s.len() == 0 {
        0
    } else {
        (sum8(s.drop_last()) + s.last()) % 256
    }
}

/// The part of a payload that fits in a frame.
pub open spec fn fitting(payload: Seq<u8>) -> Seq<u8> {
    if payload.len() <= PAYLOAD_MAX {
        payload
    } else {
        payload.take(PAYLOAD_MAX as int)
    }
}

/// The bytes of a frame before its checksum.
pub open spec fn frame_head(opcode: u8, subcmd: u8, payload: Seq<u8>) -> Seq<u8> {
    seq![opcode, payload.len() as u8, subcmd] + payload
}

/// The bytes of a frame on the wire.
pub open spec fn frame_bytes(opcode: u8, subcmd: u8, payload: Seq<u8>) -> Seq<u8> {
    let head = frame_head(opcode, subcmd, fitting(payload));
    head.push(sum8(head) as u8)
}

/// What was received: the opcode, the command, the payload and whether the
/// checksum is right.
pub struct ReplyView {
    pub opcode: u8,
    pub subcmd: u8,
    pub payload: Seq<u8>,
    pub ok: bool,
}

/// What a received frame holds.
pub open spec fn reply_view(r: (u8, u8, Vec<u8>, bool)) -> ReplyView {
    ReplyView { opcode: r.0, subcmd: r.1, payload: r.2@, ok: r.3 }
}

/// What the bytes `s` mean as a frame: nothing where they are fewer than four.
pub open spec fn reply_of(s: Seq<u8>) -> Option<ReplyView> {
    if s.len() < 4 {
        None
    } else {
        let n = s[1] as int;
        Some(
            ReplyView {
                opcode: s[0],
                subcmd: s[2],
                payload: if 3 + n <= s.len() {
                    s.subrange(3, 3 + n)
                } else {
                    s.skip(3)
                },
                ok: n + 3 < s.len() && sum8(s.take(n + 3)) == s[n + 3],
            },
        )
    }
}

/// The bytes of a line of text: the first sixteen, filled up with spaces.
pub open spec fn line_bytes(text: Seq<u8>) -> Seq<u8> {
    Seq::new(
        LINE_CHARS as nat,
        |i: int|
            if i < text.len() {
                text[i]
            } else {
                32u8
            },
    )
}

/// The payload that sets a line of text.
pub open spec fn text_payload(line: u8, flag: u8, text: Seq<char>) -> Seq<u8> {
    seq![line, flag] + line_bytes(encode_utf8(text))
}

/// Whether a received frame acknowledges a request: the opcode one above the
/// request's, the same command, and the status zero.
pub open spec fn acknowledges(opcode: u8, subcmd: u8, reply: Option<ReplyView>) -> bool {
    reply matches Some(r) && r.ok && r.opcode == opcode + 1 && r.subcmd == subcmd && r.payload.len()
        > 0 && r.payload[0] == 0
}

proof fn lemma_sum8(s: Seq<u8>)
    ensures
        0 <= sum8(s) < 256,
    decreases s.len(),
{
    if s.len() > 0 {
        lemma_sum8(s.drop_last());
    }
}

/// A received frame is the one that was sent: the bytes of a frame mean its
/// opcode, its command and the part of its payload that fits, with the right
/// checksum.
pub proof fn reply_inverts_frame(opcode: u8, subcmd: u8, payload: Seq<u8>)
    ensures
        frame_bytes(opcode, subcmd, payload).len() == fitting(payload).len() + 4,
        frame_bytes(opcode, subcmd, payload).len() <= FRAME_MAX,
        reply_of(frame_bytes(opcode, subcmd, payload)) == Some(
            ReplyView { opcode, subcmd, payload: fitting(payload), ok: true },
        ),
{
    let p = fitting(payload);
    let head = frame_head(opcode, subcmd, p);
    let s = frame_bytes(opcode, subcmd, payload);
    lemma_sum8(head);
    assert(s[1] == p.len());
    assert(s.take(p.len() as int + 3) == head);
    assert(s.subrange(3, 3 + p.len() as int) =~= p);
}

proof fn lemma_sum8_update(s: Seq<u8>, i: int, b: u8)
    requires
        0 <= i < s.len(),
    ensures
        (sum8(s.update(i, b)) - sum8(s) - b + s[i]) % 256 == 0,
    decreases s.len(),
{
    let t = s.update(i, b);
    if i == s.len() - 1 {
        assert(t.drop_last() == s.drop_last());
    } else {
        assert(t.drop_last() == s.drop_last().update(i, b));
        lemma_sum8_update(s.drop_last(), i, b);
    }
}

/// One wrong byte is noticed: a frame in which one byte, other than the length,
/// was received as another byte has a wrong checksum.
pub proof fn wrong_byte_is_noticed(opcode: u8, subcmd: u8, payload: Seq<u8>, i: int, b: u8)
    requires
        0 <= i < frame_bytes(opcode, subcmd, payload).len(),
        i != 1,
        b != frame_bytes(opcode, subcmd, payload)[i],
    ensures
        reply_of(frame_bytes(opcode, subcmd, payload).update(i, b)) matches Some(r) && !r.ok,
{
    let p = fitting(payload);
    let head = frame_head(opcode, subcmd, p);
    let s = frame_bytes(opcode, subcmd, payload);
    let t = s.update(i, b);
    lemma_sum8(head);
    assert(s.take(p.len() as int + 3) == head);
    assert(t[1] == p.len());
    if i < head.len() {
        assert(t.take(p.len() as int + 3) == head.update(i, b));
        lemma_sum8_update(head, i, b);
        lemma_sum8(head.update(i, b));
        assert(t[p.len() as int + 3] == sum8(head));
    } else {
        assert(t.take(p.len() as int + 3) == head);
    }
}

fn sum(s: &[u8]) -> (r: u8)
    ensures
        r == sum8(s@),
{
    let mut acc: u8 = 0;
    assert(s@.take(0) == Seq::<u8>::empty());
    for i in 0..s.len()
        invariant
            acc == sum8(s@.take(i as int)),
    {
        assert(s@.take(i + 1).drop_last() == s@.take(i as int));
        acc = acc.wrapping_add(s[i]);
    }
    assert(s@.take(s@.len() as int) == s@);
    acc
}

/// The checksum of a frame that holds at least its payload.
pub fn checksum(buf: &[u8]) -> (r: u8)
    requires
        buf@.len() >= 2,
        buf@[1] + 3 <= buf@.len(),
    ensures
        r == sum8(buf@.take(buf@[1] + 3)),
{
    let n: usize = buf[1] as usize + 3;
    sum(slice_subrange(buf, 0, n))
}

/// A copy of some bytes.
fn copied(s: &[u8]) -> (r: Vec<u8>)
    ensures
        r@ == s@,
{
    let mut r: Vec<u8> = Vec::new();
    for i in 0..s.len()
        invariant
            r@ == s@.take(i as int),
    {
        r.push(s[i]);
    }
    assert(s@.take(s@.len() as int) == s@);
    r
}

impl Frame {
    /// The bytes of the frame on the wire.
    pub fn raw(&self) -> (r: Vec<u8>)
        ensures
            r@ == frame_bytes(self.opcode, self.subcmd, self.payload@),
    {
        let n: usize = if self.payload.len() <= PAYLOAD_MAX {
            self.payload.len()
        } else {
            PAYLOAD_MAX
        };
        let ghost p = fitting(self.payload@);
        let mut buf: Vec<u8> = Vec::new();
        buf.push(self.opcode);
        buf.push(n as u8);
        buf.push(self.subcmd);
        for i in 0..n
            invariant
                n <= self.payload@.len(),
                n <= PAYLOAD_MAX,
                p == self.payload@.take(n as int),
                buf@ == seq![self.opcode, n as u8, self.subcmd] + p.take(i as int),
        {
            buf.push(self.payload[i]);
            assert(buf@ =~= seq![self.opcode, n as u8, self.subcmd] + p.take(i + 1));
        }
        assert(buf@ =~= frame_head(self.opcode, self.subcmd, p));
        let cksum = sum(buf.as_slice());
        buf.push(cksum);
        buf
    }
}

/// Reads the first `len` bytes of a receive buffer as a frame.
pub fn parse_reply(buf: &[u8], len: usize) -> (r: Option<(u8, u8, Vec<u8>, bool)>)
    requires
        len <= buf@.len(),
    ensures
        match r {
            Some(f) => reply_of(buf@.take(len as int)) == Some(reply_view(f)),
            None => reply_of(buf@.take(len as int)) is None,
        },
{
    if len < 4 {
        return None;
    }
    let ghost s = buf@.take(len as int);
    let opcode = buf[0];
    let n: usize = buf[1] as usize;
    let subcmd = buf[2];
    let cksum_idx: usize = n + 3;
    let mut ok = false;
    if cksum_idx < len {
        assert(buf@.take(n + 3) == s.take(n + 3));
        ok = checksum(buf) == buf[cksum_idx];
    }
    let end: usize = if 3 + n <= len {
        3 + n
    } else {
        len
    };
    let payload = copied(slice_subrange(buf, 3, end));
    assert(payload@ =~= if 3 + n <= s.len() {
        s.subrange(3, 3 + n)
    } else {
        s.skip(3)
    });
    Some((opcode, subcmd, payload, ok))
}

/// The bytes that came in from the panel, at most as many as a frame can have.
#[derive(Debug)]
pub struct FrameBuffer {
    bytes: Vec<u8>,
}

impl View for FrameBuffer {
    type V = Seq<u8>;

    closed spec fn view(&self) -> Seq<u8> {
        self.bytes@
    }
}

impl FrameBuffer {
    /// Whether the buffer is in order.
    pub open spec fn wf(&self) -> bool {
        self@.len() <= FRAME_MAX
    }

    /// An empty buffer.
    pub fn new() -> (r: Self)
        ensures
            r.wf(),
            r@ == Seq::<u8>::empty(),
    {
        FrameBuffer { bytes: Vec::new() }
    }

    /// Whether there is no room for another byte.
    pub fn is_full(&self) -> (r: bool)
        requires
            self.wf(),
        ensures
            r == (self@.len() == FRAME_MAX),
    {
        self.bytes.len() >= FRAME_MAX
    }

    /// Takes in a byte, where there is room for it.
    pub fn push(&mut self, byte: u8)
        requires
            old(self).wf(),
        ensures
            final(self).wf(),
            final(self)@ == if old(self)@.len() < FRAME_MAX {
                old(self)@.push(byte)
            } else {
                old(self)@
            },
    {
        if self.bytes.len() < FRAME_MAX {
            self.bytes.push(byte);
        }
    }

    /// Reads what came in as a frame.
    pub fn frame(&self) -> (r: Option<(u8, u8, Vec<u8>, bool)>)
        ensures
            match r {
                Some(f) => reply_of(self@) == Some(reply_view(f)),
                None => reply_of(self@) is None,
            },
    {
        assert(self@.take(self@.len() as int) =~= self@);
        parse_reply(self.bytes.as_slice(), self.bytes.len())
    }
}

/// Whether what was received acknowledges a request.
pub fn is_ack(opcode: u8, subcmd: u8, reply: &Option<(u8, u8, Vec<u8>, bool)>) -> (r: bool)
    ensures
        r == acknowledges(
            opcode,
            subcmd,
            match *reply {
                Some(f) => Some(reply_view(f)),
                None => None,
            },
        ),
{
    match reply {
        Some(f) => f.3 && opcode < 255 && f.0 == opcode + 1 && f.1 == subcmd && f.2.len() > 0
            && f.2[0] == 0,
        None => false,
    }
}

/// The request that sets a line of the display.
pub fn text_frame(line: u8, text: &str, flag: u8) -> (r: Frame)
    ensures
        r.opcode == REQUEST,
        r.subcmd == SET_TEXT,
        r.payload@ == text_payload(line, flag, text@),
{
    let bytes = text.as_bytes();
    let mut payload: Vec<u8> = Vec::new();
    payload.push(line);
    payload.push(flag);
    let ghost all = line_bytes(encode_utf8(text@));
    for i in 0..LINE_CHARS
        invariant
            bytes@ == encode_utf8(text@),
            all == line_bytes(encode_utf8(text@)),
            payload@ == seq![line, flag] + all.take(i as int),
    {
        if i < bytes.len() {
            payload.push(bytes[i]);
        } else {
            payload.push(32);
        }
        assert(payload@ =~= seq![line, flag] + all.take(i + 1));
    }
    assert(all.take(LINE_CHARS as int) =~= all);
    Frame { opcode: REQUEST, subcmd: SET_TEXT, payload }
}

/// A request that sets a line is as long as a frame can be, whatever the text:
/// the only length that the panel takes.
pub proof fn text_frame_is_full(line: u8, flag: u8, text: Seq<char>)
    ensures
        text_payload(line, flag, text).len() == PAYLOAD_MAX,
        frame_bytes(REQUEST, SET_TEXT, text_payload(line, flag, text)).len() == FRAME_MAX,
{
}

/// The reply to a frame that the panel sent of its own accord.
pub fn ack_frame(subcmd: u8) -> (r: Frame)
    ensures
        r.opcode == REPLY,
        r.subcmd == subcmd,
        r.payload@ == seq![0u8],
{
    let mut payload: Vec<u8> = Vec::new();
    payload.push(0);
    Frame { opcode: REPLY, subcmd, payload }
}

/// The two requests that start the panel, to be sent with a pause of
/// `INIT_PAUSE_MS` between them.
pub fn init_frames() -> (r: (Frame, Frame))
    ensures
        r.0.opcode == REQUEST && r.0.subcmd == 0x11 && r.0.payload@ == seq![1u8],
        r.1.opcode == REQUEST && r.1.subcmd == 0x22 && r.1.payload@ == seq![0u8],
{
    let mut first: Vec<u8> = Vec::new();
    first.push(1);
    let mut second: Vec<u8> = Vec::new();
    second.push(0);
    (
        Frame { opcode: REQUEST, subcmd: 0x11, payload: first },
        Frame { opcode: REQUEST, subcmd: 0x22, payload: second },
    )
}

/// Milliseconds between the two requests that start the panel.
pub const INIT_PAUSE_MS: u64 = 15;

/// Milliseconds to wait for the reply to a request.
pub const ACK_TIMEOUT_MS: u64 = 300;

/// What to do about a frame from the panel.
pub struct Reaction {
    /// The command to acknowledge.
    pub ack: Option<u8>,
    /// The key that was pressed.
    pub key: Option<Key>,
}

/// What to do about a frame: a request with the right checksum is acknowledged,
/// and one that reports a key is acted on.
pub open spec fn reaction_to(r: ReplyView) -> Reaction {
    if r.ok && r.opcode == REQUEST {
        Reaction {
            ack: Some(r.subcmd),
            key: if r.subcmd == KEY_PRESSED && r.payload.len() > 0 {
                Some(key_of(r.payload[0]))
            } else {
                None
            },
        }
    } else {
        Reaction { ack: None, key: None }
    }
}

/// What to do about a frame from the panel.
pub fn react(frame: &(u8, u8, Vec<u8>, bool)) -> (r: Reaction)
    ensures
        r == reaction_to(reply_view(*frame)),
{
    if frame.3 && frame.0 == REQUEST {
        let mut key: Option<Key> = None;
        if frame.1 == KEY_PRESSED && frame.2.len() > 0 {
            key = Some(Key::from(frame.2[0]));
        }
        Reaction { ack: Some(frame.1), key }
    } else {
        Reaction { ack: None, key: None }
    }
}

impl Key {
    /// The name of a key.
    pub open spec fn name(self) -> Seq<char> {
        match self {
            Key::Up => "Up"@,
            Key::Down => "Down"@,
            Key::Back => "Back"@,
            Key::Enter => "Enter"@,
            Key::Wake => "Wake"@,
            Key::Unknown(code) => "Unknown("@ + decimal(code as nat) + ")"@,
        }
    }

    fn push_name(self, out: &mut String)
        ensures
            final(out)@ == old(out)@ + self.name(),
    {
        match self {
            Key::Up => out.append("Up"),
            Key::Down => out.append("Down"),
            Key::Back => out.append("Back"),
            Key::Enter => out.append("Enter"),
            Key::Wake => out.append("Wake"),
            Key::Unknown(code) => {
                out.append("Unknown(");
                push_decimal(out, code as u64);
                out.append(")");
                assert(out@ =~= old(out)@ + self.name());
            },
        }
    }
}

/// Bytes as two hexadecimal digits each, separated by commas.
pub open spec fn hex_list(s: Seq<u8>) -> Seq<char>
    decreases s.len(),
{
    if s.len() == 0 {
        Seq::empty()
    } else if s.len() == 1 {
        hex_byte(s[0])
    } else {
        hex_list(s.drop_last()) + ", "@ + hex_byte(s.last())
    }
}

/// What a frame from the panel means, where it is a key or a version.
pub open spec fn frame_meaning(r: ReplyView) -> Seq<char> {
    if r.opcode == REQUEST && r.subcmd == KEY_PRESSED && r.payload.len() > 0 {
        "  => KEY "@ + key_of(r.payload[0]).name() + " (code="@ + decimal(r.payload[0] as nat)
            + ")"@
    } else if r.opcode == REQUEST && r.subcmd == VERSION && r.payload.len() >= 3 {
        "  => MCU VERSION "@ + decimal(r.payload[0] as nat) + "."@ + decimal(r.payload[1] as nat)
            + "."@ + decimal(r.payload[2] as nat)
    } else {
        Seq::empty()
    }
}

/// A received frame as a line of text.
pub open spec fn frame_text(r: ReplyView) -> Seq<char> {
    "<- opcode=0x"@ + hex_byte(r.opcode) + " subcmd=0x"@ + hex_byte(r.subcmd) + " payload=["@
        + hex_list(r.payload) + "] cksum_ok="@ + truth(r.ok) + frame_meaning(r)
}

fn push_hex_list(out: &mut String, s: &[u8])
    ensures
        final(out)@ == old(out)@ + hex_list(s@),
{
    assert(s@.take(0) == Seq::<u8>::empty());
    assert(out@ + Seq::<char>::empty() =~= out@);
    for i in 0..s.len()
        invariant
            out@ == old(out)@ + hex_list(s@.take(i as int)),
    {
        let ghost before = out@;
        assert(s@.take(i + 1).drop_last() == s@.take(i as int));
        if i > 0 {
            out.append(", ");
        }
        push_hex(out, s[i]);
        assert(out@ =~= old(out)@ + hex_list(s@.take(i + 1)));
    }
    assert(s@.take(s@.len() as int) == s@);
}

/// A received frame as a line of text, for listening in on the panel.
pub fn describe_frame(frame: &(u8, u8, Vec<u8>, bool)) -> (r: String)
    ensures
        r@ == frame_text(reply_view(*frame)),
{
    let ghost v = reply_view(*frame);
    let mut r = "<- opcode=0x".to_owned();
    push_hex(&mut r, frame.0);
    r.append(" subcmd=0x");
    push_hex(&mut r, frame.1);
    r.append(" payload=[");
    push_hex_list(&mut r, frame.2.as_slice());
    r.append("] cksum_ok=");
    r.append(truth_of(frame.3));
    let ghost before = r@;
    if frame.0 == REQUEST && frame.1 == KEY_PRESSED && frame.2.len() > 0 {
        r.append("  => KEY ");
        Key::from(frame.2[0]).push_name(&mut r);
        r.append(" (code=");
        push_decimal(&mut r, frame.2[0] as u64);
        r.append(")");
    } else if frame.0 == REQUEST && frame.1 == VERSION && frame.2.len() >= 3 {
        r.append("  => MCU VERSION ");
        push_decimal(&mut r, frame.2[0] as u64);
        r.append(".");
        push_decimal(&mut r, frame.2[1] as u64);
        r.append(".");
        push_decimal(&mut r, frame.2[2] as u64);
    }
    assert(r@ =~= before + frame_meaning(v));
    r
}

/// The sum of some bytes.
pub open spec fn total(s: Seq<u8>) -> int
    decreases s.len(),
{
    if s.len() == 0 {
        0
    } else {
        total(s.drop_last()) + s.last()
    }
}

proof fn lemma_sum8_is_total(s: Seq<u8>)
    ensures
        sum8(s) == total(s) % 256,
    decreases s.len(),
{
    if s.len() > 0 {
        lemma_sum8_is_total(s.drop_last());
    }
}

/// The bytes of a frame: the opcode, the length of the payload, the command, the
/// payload, cut to eighteen bytes, and the sum of all these modulo 256.
pub proof fn layout_of_a_frame(opcode: u8, subcmd: u8, payload: Seq<u8>)
    ensures
        ({
            let s = frame_bytes(opcode, subcmd, payload);
            let p = if payload.len() <= 18 {
                payload
            } else {
                payload.take(18)
            };
            &&& s.len() == p.len() + 4
            &&& s[0] == opcode && s[1] == p.len() && s[2] == subcmd
            &&& s.subrange(3, 3 + p.len() as int) == p
            &&& s.last() == total(s.drop_last()) % 256
        }),
{
    let s = frame_bytes(opcode, subcmd, payload);
    let p = fitting(payload);
    let head = frame_head(opcode, subcmd, p);
    assert(s.drop_last() =~= head);
    assert(s.subrange(3, 3 + p.len() as int) =~= p);
    lemma_sum8_is_total(head);
    lemma_sum8(head);
}

/// A frame that came in is right exactly where it is complete and its checksum is the
/// sum of what comes before it, modulo 256.
pub proof fn frame_is_right_by_its_sum(s: Seq<u8>)
    requires
        s.len() >= 4,
    ensures
        ({
            let n = s[1] as int;
            let r = reply_of(s)->0;
            &&& reply_of(s) is Some
            &&& r.opcode == s[0] && r.subcmd == s[2]
            &&& r.ok <==> n + 3 < s.len() && s[n + 3] == total(s.take(n + 3)) % 256
            &&& n + 3 <= s.len() ==> r.payload == s.subrange(3, 3 + n)
        }),
{
    lemma_sum8_is_total(s.take(s[1] + 3));
}

/// Which key a code stands for.
pub proof fn keys_by_code(code: u8)
    ensures
        key_of(1) == Key::Up,
        key_of(2) == Key::Down,
        key_of(3) == Key::Back,
        key_of(4) == Key::Enter,
        key_of(5) == Key::Wake,
        code == 0 || code > 5 ==> key_of(code) == Key::Unknown(code),
{
}

/// What is done about a frame: a right request of the panel is acknowledged with its
/// own command, and is a key where it says so and names one; any other frame is
/// passed over.
pub proof fn requests_are_answered(r: ReplyView)
    ensures
        ({
            let done = reaction_to(r);
            let asked = r.ok && r.opcode == 0xF0;
            &&& done.ack == if asked {
                Some(r.subcmd)
            } else {
                None
            }
            &&& done.key is Some <==> asked && r.subcmd == 0x80 && r.payload.len() > 0
            &&& done.key is Some ==> done.key == Some(key_of(r.payload[0]))
        }),
{
}

/// What acknowledges a request: a right frame with the opcode one above the request's,
/// its command, and the status zero.
pub proof fn acknowledgement_is_of_the_request(opcode: u8, subcmd: u8, r: ReplyView)
    ensures
        acknowledges(opcode, subcmd, Some(r)) <==> r.ok && r.opcode == opcode + 1 && r.subcmd
            == subcmd && r.payload.len() > 0 && r.payload[0] == 0,
        !acknowledges(opcode, subcmd, None),
{
}

/// What sets a line of the display: the line, the flag, and sixteen bytes of the text,
/// filled up with spaces.
pub proof fn line_is_sent(line: u8, flag: u8, text: Seq<char>, i: int)
    requires
        0 <= i < 16,
    ensures
        ({
            let p = text_payload(line, flag, text);
            let bytes = encode_utf8(text);
            &&& p.len() == 18
            &&& p[0] == line && p[1] == flag
            &&& p[2 + i] == if i < bytes.len() {
                bytes[i]
            } else {
                32u8
            }
        }),
{
}

/// The payload of a frame in words: two hexadecimal digits for each byte, in order.
pub proof fn payload_in_words(s: Seq<u8>, b: u8)
    ensures
        hex_list(seq![]) == Seq::<char>::empty(),
        hex_list(seq![b]) == hex_byte(b),
        s.len() > 0 ==> hex_list(s.push(b)) == hex_list(s) + ", "@ + hex_byte(b),
{
    assert(s.push(b).drop_last() =~= s);
}

/// What a frame means: a key by its code, a version by its three parts, and nothing
/// where it is neither.
pub proof fn meaning_of_a_frame(r: ReplyView)
    ensures
        r.opcode == 0xF0 && r.subcmd == 0x80 && r.payload.len() > 0 ==> frame_meaning(r)
            == "  => KEY "@ + key_of(r.payload[0]).name() + " (code="@ + decimal(
            r.payload[0] as nat,
        ) + ")"@,
        r.opcode == 0xF0 && r.subcmd == 0x13 && r.payload.len() >= 3 ==> frame_meaning(r)
            == "  => MCU VERSION "@ + decimal(r.payload[0] as nat) + "."@ + decimal(
            r.payload[1] as nat,
        ) + "."@ + decimal(r.payload[2] as nat),
        r.opcode != 0xF0 || (r.subcmd != 0x80 && r.subcmd != 0x13) || r.payload.len() == 0
            ==> frame_meaning(r).len() == 0,
{
}

} // verus!
