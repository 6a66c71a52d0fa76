//! The message envelope and its binary encoding.
//!
//! A message is a one-byte variant tag followed by its fields in declaration
//! order. An action or a flag is one byte; strings (UTF-8) and byte blobs are
//! each a 4-byte big-endian length followed by their bytes.

use vstd::prelude::*;
use vstd::utf8::*;
use crate::wire::{be32_decode, be32_encode, be32_bytes, be32_value, frame_of, lemma_frame_layout, push_all, copy_range, MAX_FRAME_LEN};

verus! {

/// Variant tags, in declaration order.
pub const TAG_TEXT: u8 = 0;
pub const TAG_IMAGE: u8 = 1;
pub const TAG_FILE: u8 = 2;
pub const TAG_AUTH_REQUEST: u8 = 3;
pub const TAG_AUTH_RESPONSE: u8 = 4;

/// What an authentication request asks for.
#[derive(Debug, Clone, Copy, PartialEq, Eq, Structural)]
pub enum AuthAction {
    Register,
    Login,
}

/// Data carried between clients and the relay.
/// `Image` holds PNG bytes by convention; `File` a file name and its bytes;
/// `AuthRequest` an action, a user name and a password; `AuthResponse`
/// whether authentication succeeded and a reason for the user.
#[derive(Debug, Clone, PartialEq, Eq)]
pub enum MessageType {
    Text(String),
    Image(Vec<u8>),
    File(String, Vec<u8>),
    AuthRequest(AuthAction, String, String),
    AuthResponse(bool, String),
}

/// A message as a mathematical value.
pub enum MessageView {
    Text(Seq<char>),
    Image(Seq<u8>),
    File(Seq<char>, Seq<u8>),
    AuthRequest(AuthAction, Seq<char>, Seq<char>),
    AuthResponse(bool, Seq<char>),
}

impl View for MessageType {
    type V = MessageView;

    open spec fn view(&self) -> MessageView {
        match self {
            MessageType::Text(s) => MessageView::Text(s@),
            MessageType::Image(d) => MessageView::Image(d@),
            MessageType::File(n, d) => MessageView::File(n@, d@),
            MessageType::AuthRequest(a, u, p) => MessageView::AuthRequest(*a, u@, p@),
            MessageType::AuthResponse(ok, d) => MessageView::AuthResponse(*ok, d@),
        }
    }
}

/// Errors of the message codec.
#[derive(Debug, Clone, Copy, PartialEq, Eq, Structural)]
pub enum MessageError {
    /// The bytes are not the encoding of any message.
    Malformed,
    /// The encoding would not fit in one frame.
    TooLarge,
}

pub open spec fn action_byte(a: AuthAction) -> u8 {
    match a {
        AuthAction::Register => 0,
        AuthAction::Login => 1,
    }
}

pub open spec fn bool_byte(b: bool) -> u8 {
    if b { 1 } else { 0 }
}

/// A string field: its UTF-8 bytes with their length in front.
pub open spec fn text_field(s: Seq<char>) -> Seq<u8> {
    frame_of(encode_utf8(s))
}

/// The encoding of a message.
pub open spec fn encode_spec(m: MessageView) -> Seq<u8> {
    match m {
        MessageView::Text(s) => seq![TAG_TEXT] + text_field(s),
        MessageView::Image(d) => seq![TAG_IMAGE] + frame_of(d),
        MessageView::File(n, d) => seq![TAG_FILE] + text_field(n) + frame_of(d),
        MessageView::AuthRequest(a, u, p) => seq![TAG_AUTH_REQUEST, action_byte(a)] + text_field(u)
            + text_field(p),
        MessageView::AuthResponse(ok, d) => seq![TAG_AUTH_RESPONSE, bool_byte(ok)] + text_field(d),
    }
}

pub open spec fn field_fits(x: Seq<u8>) -> bool {
    x.len() < 0x1_0000_0000
}

/// Every field of `m` is short enough for its 4-byte length prefix.
pub open spec fn encodable(m: MessageView) -> bool {
    match m {
        MessageView::Text(s) => field_fits(encode_utf8(s)),
        MessageView::Image(d) => field_fits(d),
        MessageView::File(n, d) => field_fits(encode_utf8(n)) && field_fits(d),
        MessageView::AuthRequest(_, u, p) => field_fits(encode_utf8(u)) && field_fits(encode_utf8(p)),
        MessageView::AuthResponse(_, d) => field_fits(encode_utf8(d)),
    }
}

/// One length-prefixed field from the front of `b`, and what follows it.
pub open spec fn take_field(b: Seq<u8>) -> Option<(Seq<u8>, Seq<u8>)> {
    if b.len() >= 4 && b.len() >= 4 + be32_value(b) {
        Some((b.subrange(4, 4 + be32_value(b) as int), b.subrange(4 + be32_value(b) as int, b.len() as int)))
    } else {
        None
    }
}

/// One string field from the front of `b`, and what follows it.
pub open spec fn take_text(b: Seq<u8>) -> Option<(Seq<char>, Seq<u8>)> {
    match take_field(b) {
        Some((x, rest)) => if valid_utf8(x) { Some((decode_utf8(x), rest)) } else { None },
        None => None,
    }
}

/// A string field that takes up all of `b`.
pub open spec fn whole_text(b: Seq<u8>) -> Option<Seq<char>> {
    match take_text(b) {
        Some((s, rest)) => if rest.len() == 0 { Some(s) } else { None },
        None => None,
    }
}

/// A byte field that takes up all of `b`.
pub open spec fn whole_field(b: Seq<u8>) -> Option<Seq<u8>> {
    match take_field(b) {
        Some((x, rest)) => if rest.len() == 0 { Some(x) } else { None },
        None => None,
    }
}

pub open spec fn action_of(byte: u8) -> Option<AuthAction> {
    if byte == 0 { Some(AuthAction::Register) }
    else if byte == 1 { Some(AuthAction::Login) }
    else { None }
}

pub open spec fn bool_of(byte: u8) -> Option<bool> {
    if byte == 0 { Some(false) }
    else if byte == 1 { Some(true) }
    else { None }
}

/// The message that `b` encodes, if any: unknown tags, missing or truncated
/// fields, invalid UTF-8 and trailing bytes all leave it undefined.
pub open spec fn decode_spec(b: Seq<u8>) -> Option<MessageView> {
    if b.len() == 0 {
        None
    } else if b[0] == TAG_TEXT {
        match whole_text(b.drop_first()) {
            Some(s) => Some(MessageView::Text(s)),
            None => None,
        }
    } else if b[0] == TAG_IMAGE {
        match whole_field(b.drop_first()) {
            Some(d) => Some(MessageView::Image(d)),
            None => None,
        }
    } else if b[0] == TAG_FILE {
        match take_text(b.drop_first()) {
            Some((n, rest)) => match whole_field(rest) {
                Some(d) => Some(MessageView::File(n, d)),
                None => None,
            },
            None => None,
        }
    } else if b[0] == TAG_AUTH_REQUEST {
        if b.len() < 2 {
            None
        } else {
            match (action_of(b[1]), take_text(b.subrange(2, b.len() as int))) {
                (Some(a), Some((u, rest))) => match whole_text(rest) {
                    Some(p) => Some(MessageView::AuthRequest(a, u, p)),
                    None => None,
                },
                _ => None,
            }
        }
    } else if b[0] == TAG_AUTH_RESPONSE {
        if b.len() < 2 {
            None
        } else {
            match (bool_of(b[1]), whole_text(b.subrange(2, b.len() as int))) {
                (Some(ok), Some(d)) => Some(MessageView::AuthResponse(ok, d)),
                _ => None,
            }
        }
    } else {
        None
    }
}

/// The prefix that four bytes spell is those four bytes.
pub proof fn lemma_be32_bytes_of_value(h: Seq<u8>)
    requires
        h.len() == 4,
    ensures
        be32_value(h) < 0x1_0000_0000,
        be32_bytes(be32_value(h)) == h,
{
    let b0 = h[0] as int;
    let b1 = h[1] as int;
    let b2 = h[2] as int;
    let b3 = h[3] as int;
    let v = be32_value(h) as int;
    assert(v == b0 * 0x100_0000 + b1 * 0x1_0000 + b2 * 0x100 + b3);
    assert(v / 0x100_0000 == b0) by (nonlinear_arith)
        requires
            v == b0 * 0x100_0000 + b1 * 0x1_0000 + b2 * 0x100 + b3,
            0 <= b0 < 0x100, 0 <= b1 < 0x100, 0 <= b2 < 0x100, 0 <= b3 < 0x100;
    assert(v / 0x1_0000 == b0 * 0x100 + b1) by (nonlinear_arith)
        requires
            v == b0 * 0x100_0000 + b1 * 0x1_0000 + b2 * 0x100 + b3,
            0 <= b0 < 0x100, 0 <= b1 < 0x100, 0 <= b2 < 0x100, 0 <= b3 < 0x100;
    assert(v / 0x100 == b0 * 0x1_0000 + b1 * 0x100 + b2) by (nonlinear_arith)
        requires
            v == b0 * 0x100_0000 + b1 * 0x1_0000 + b2 * 0x100 + b3,
            0 <= b0 < 0x100, 0 <= b1 < 0x100, 0 <= b2 < 0x100, 0 <= b3 < 0x100;
    assert((b0 * 0x100 + b1) % 0x100 == b1) by (nonlinear_arith)
        requires 0 <= b0 < 0x100, 0 <= b1 < 0x100;
    assert((b0 * 0x1_0000 + b1 * 0x100 + b2) % 0x100 == b2) by (nonlinear_arith)
        requires 0 <= b0 < 0x100, 0 <= b1 < 0x100, 0 <= b2 < 0x100;
    assert(v % 0x100 == b3) by (nonlinear_arith)
        requires
            v == b0 * 0x100_0000 + b1 * 0x1_0000 + b2 * 0x100 + b3,
            0 <= b0 < 0x100, 0 <= b1 < 0x100, 0 <= b2 < 0x100, 0 <= b3 < 0x100;
    assert(be32_bytes(be32_value(h)) =~= h);
}

proof fn lemma_take_field_of_frame(x: Seq<u8>, rest: Seq<u8>)
    requires
        field_fits(x),
    ensures
        take_field(frame_of(x) + rest) == Some((x, rest)),
{
    lemma_frame_layout(x, rest);
}

proof fn lemma_take_text_of_field(s: Seq<char>, rest: Seq<u8>)
    requires
        field_fits(encode_utf8(s)),
    ensures
        take_text(text_field(s) + rest) == Some((s, rest)),
{
    encode_utf8_valid_utf8(s);
    encode_utf8_decode_utf8(s);
    lemma_take_field_of_frame(encode_utf8(s), rest);
}

proof fn lemma_take_field_sound(b: Seq<u8>)
    requires
        take_field(b) is Some,
    ensures
        field_fits(take_field(b)->Some_0.0),
        b == frame_of(take_field(b)->Some_0.0) + take_field(b)->Some_0.1,
{
    let n = be32_value(b);
    lemma_be32_bytes_of_value(b.subrange(0, 4));
    assert(be32_value(b.subrange(0, 4)) == n);
    let x = b.subrange(4, 4 + n as int);
    assert(x.len() == n);
    assert(b =~= frame_of(x) + b.subrange(4 + n as int, b.len() as int));
}

proof fn lemma_take_text_sound(b: Seq<u8>)
    requires
        take_text(b) is Some,
    ensures
        field_fits(encode_utf8(take_text(b)->Some_0.0)),
        b == text_field(take_text(b)->Some_0.0) + take_text(b)->Some_0.1,
{
    lemma_take_field_sound(b);
    let x = take_field(b)->Some_0.0;
    decode_utf8_encode_utf8(x);
}

/// Decoding the encoding of any message gives that message back.
pub proof fn lemma_message_round_trip(m: MessageView)
    requires
        encodable(m),
    ensures
        decode_spec(encode_spec(m)) == Some(m),
{
    let b = encode_spec(m);
    match m {
        MessageView::Text(s) => {
            assert(b.drop_first() =~= text_field(s) + Seq::<u8>::empty());
            lemma_take_text_of_field(s, Seq::empty());
        },
        MessageView::Image(d) => {
            assert(b.drop_first() =~= frame_of(d) + Seq::<u8>::empty());
            lemma_take_field_of_frame(d, Seq::empty());
        },
        MessageView::File(n, d) => {
            assert(b.drop_first() =~= text_field(n) + frame_of(d));
            lemma_take_text_of_field(n, frame_of(d));
            assert(frame_of(d) =~= frame_of(d) + Seq::<u8>::empty());
            lemma_take_field_of_frame(d, Seq::empty());
        },
        MessageView::AuthRequest(a, u, p) => {
            assert(b.subrange(2, b.len() as int) =~= text_field(u) + text_field(p));
            lemma_take_text_of_field(u, text_field(p));
            assert(text_field(p) =~= text_field(p) + Seq::<u8>::empty());
            lemma_take_text_of_field(p, Seq::empty());
        },
        MessageView::AuthResponse(ok, d) => {
            assert(b.subrange(2, b.len() as int) =~= text_field(d) + Seq::<u8>::empty());
            lemma_take_text_of_field(d, Seq::empty());
        },
    }
}

/// A message whose encoding fits in one frame has every field short enough
/// for its length prefix; so whatever `encode_message` accepts, decoding
/// gives back.
pub proof fn lemma_frame_sized_round_trip(m: MessageView)
    requires
        encode_spec(m).len() <= MAX_FRAME_LEN,
    ensures
        encodable(m),
        decode_spec(encode_spec(m)) == Some(m),
{
    lemma_message_round_trip_fits(m);
    lemma_message_round_trip(m);
}

proof fn lemma_message_round_trip_fits(m: MessageView)
    requires
        encode_spec(m).len() <= MAX_FRAME_LEN,
    ensures
        encodable(m),
{
    match m {
        MessageView::Text(s) => {
            assert(encode_spec(m).len() == 5 + encode_utf8(s).len());
        },
        MessageView::Image(d) => {
            assert(encode_spec(m).len() == 5 + d.len());
        },
        MessageView::File(n, d) => {
            assert(encode_spec(m).len() == 9 + encode_utf8(n).len() + d.len());
        },
        MessageView::AuthRequest(_, u, p) => {
            assert(encode_spec(m).len() == 10 + encode_utf8(u).len() + encode_utf8(p).len());
        },
        MessageView::AuthResponse(_, d) => {
            assert(encode_spec(m).len() == 6 + encode_utf8(d).len());
        },
    }
}

proof fn lemma_decode_sound_text(b: Seq<u8>)
    requires
        b.len() > 0,
        b[0] == TAG_TEXT,
        whole_text(b.drop_first()) is Some,
    ensures
        b == encode_spec(MessageView::Text(whole_text(b.drop_first())->Some_0)),
        field_fits(encode_utf8(whole_text(b.drop_first())->Some_0)),
{
    let t = b.drop_first();
    lemma_take_text_sound(t);
    assert(t =~= text_field(take_text(t)->Some_0.0) + Seq::<u8>::empty());
    assert(b =~= seq![b[0]] + t);
}

proof fn lemma_decode_sound_image(b: Seq<u8>)
    requires
        b.len() > 0,
        b[0] == TAG_IMAGE,
        whole_field(b.drop_first()) is Some,
    ensures
        b == encode_spec(MessageView::Image(whole_field(b.drop_first())->Some_0)),
        field_fits(whole_field(b.drop_first())->Some_0),
{
    let t = b.drop_first();
    lemma_take_field_sound(t);
    assert(t =~= frame_of(take_field(t)->Some_0.0) + Seq::<u8>::empty());
    assert(b =~= seq![b[0]] + t);
}

proof fn lemma_decode_sound_file(b: Seq<u8>)
    requires
        b.len() > 0,
        b[0] == TAG_FILE,
        decode_spec(b) is Some,
    ensures
        encodable(decode_spec(b)->Some_0),
        encode_spec(decode_spec(b)->Some_0) == b,
{
    let t = b.drop_first();
    lemma_take_text_sound(t);
    let n = take_text(t)->Some_0.0;
    let rest = take_text(t)->Some_0.1;
    lemma_take_field_sound(rest);
    let d = take_field(rest)->Some_0.0;
    assert(rest =~= frame_of(d) + Seq::<u8>::empty());
    assert(decode_spec(b) == Some(MessageView::File(n, d)));
    assert(rest == frame_of(d));
    assert(t == text_field(n) + frame_of(d));
    assert(b =~= seq![b[0]] + t);
    assert(seq![b[0]] + t =~= seq![b[0]] + text_field(n) + frame_of(d));
}

proof fn lemma_two_texts_sound(t: Seq<u8>)
    requires
        take_text(t) is Some,
        whole_text(take_text(t)->Some_0.1) is Some,
    ensures
        field_fits(encode_utf8(take_text(t)->Some_0.0)),
        field_fits(encode_utf8(whole_text(take_text(t)->Some_0.1)->Some_0)),
        t == text_field(take_text(t)->Some_0.0) + text_field(whole_text(take_text(t)->Some_0.1)->Some_0),
{
    lemma_take_text_sound(t);
    let rest = take_text(t)->Some_0.1;
    lemma_take_text_sound(rest);
    let p = take_text(rest)->Some_0.0;
    assert(rest =~= text_field(p) + Seq::<u8>::empty());
}

#[verifier::rlimit(30)]
proof fn lemma_decode_sound_auth_request(b: Seq<u8>, a: AuthAction)
    requires
        b.len() > 1,
        b[0] == TAG_AUTH_REQUEST,
        action_of(b[1]) == Some(a),
        take_text(b.subrange(2, b.len() as int)) is Some,
        whole_text(take_text(b.subrange(2, b.len() as int))->Some_0.1) is Some,
    ensures
        ({
            let u = take_text(b.subrange(2, b.len() as int))->Some_0.0;
            let p = whole_text(take_text(b.subrange(2, b.len() as int))->Some_0.1)->Some_0;
            &&& field_fits(encode_utf8(u))
            &&& field_fits(encode_utf8(p))
            &&& b == encode_spec(MessageView::AuthRequest(a, u, p))
        }),
{
    let t = b.subrange(2, b.len() as int);
    lemma_two_texts_sound(t);
    let u = take_text(t)->Some_0.0;
    let p = whole_text(take_text(t)->Some_0.1)->Some_0;
    assert(action_byte(a) == b[1]);
    assert(b =~= seq![b[0], b[1]] + t);
    assert(seq![b[0], b[1]] + t =~= seq![b[0], b[1]] + text_field(u) + text_field(p));
}

proof fn lemma_decode_sound_auth_response(b: Seq<u8>)
    requires
        b.len() > 1,
        b[0] == TAG_AUTH_RESPONSE,
        decode_spec(b) is Some,
    ensures
        encodable(decode_spec(b)->Some_0),
        encode_spec(decode_spec(b)->Some_0) == b,
{
    let t = b.subrange(2, b.len() as int);
    lemma_take_text_sound(t);
    let d = take_text(t)->Some_0.0;
    let ok = bool_of(b[1])->Some_0;
    assert(bool_byte(ok) == b[1]);
    assert(t =~= text_field(d) + Seq::<u8>::empty());
    assert(decode_spec(b) == Some(MessageView::AuthResponse(ok, d)));
    assert(b =~= seq![b[0], b[1]] + text_field(d));
}

/// The decoder accepts only encodings: whatever it reads from `b` encodes
/// back to exactly `b`.
pub proof fn lemma_decode_sound(b: Seq<u8>)
    requires
        decode_spec(b) is Some,
    ensures
        encodable(decode_spec(b)->Some_0),
        encode_spec(decode_spec(b)->Some_0) == b,
{
    if b[0] == TAG_TEXT {
        lemma_decode_sound_text(b);
    } else if b[0] == TAG_IMAGE {
        lemma_decode_sound_image(b);
    } else if b[0] == TAG_FILE {
        lemma_decode_sound_file(b);
    } else if b[0] == TAG_AUTH_REQUEST {
        lemma_decode_sound_auth_request(b, action_of(b[1])->Some_0);
    } else {
        lemma_decode_sound_auth_response(b);
    }
}

/// Relies on `String::from_utf8`: it accepts exactly the valid UTF-8 byte
/// sequences and yields the characters they encode.
#[verifier::external_body]
fn string_from_utf8(bytes: Vec<u8>) -> (r: Option<String>)
    ensures
        r is Some <==> valid_utf8(bytes@),
        r matches Some(s) ==> s@ == decode_utf8(bytes@),
{
    String::from_utf8(bytes).ok()
}

/// The UTF-8 bytes of `s`.
fn utf8_bytes(s: &String) -> (r: &[u8])
    ensures
        r@ == encode_utf8(s@),
{
    s.as_str().as_bytes()
}

/// Appends `x` with its length in front.
fn push_field(out: &mut Vec<u8>, x: &[u8])
    requires
        x@.len() <= MAX_FRAME_LEN,
    ensures
        final(out)@ == old(out)@ + frame_of(x@),
{
    let h = be32_encode(x.len() as u32);
    push_all(out, &h);
    push_all(out, x);
    assert(final(out)@ =~= old(out)@ + frame_of(x@));
}

/// The binary encoding of `m`; refused when it would not fit in one frame.
pub fn encode_message(m: &MessageType) -> (r: Result<Vec<u8>, MessageError>)
    ensures
        encode_spec(m@).len() <= MAX_FRAME_LEN ==> (r matches Ok(b) && b@ == encode_spec(m@)),
        encode_spec(m@).len() > MAX_FRAME_LEN ==> r == Err::<Vec<u8>, MessageError>(
            MessageError::TooLarge,
        ),
{
    let mut out: Vec<u8> = Vec::new();
    match m {
        MessageType::Text(s) => {
            let sb = utf8_bytes(s);
            if sb.len() > MAX_FRAME_LEN - 5 {
                return Err(MessageError::TooLarge);
            }
            out.push(TAG_TEXT);
            push_field(&mut out, sb);
        },
        MessageType::Image(d) => {
            if d.len() > MAX_FRAME_LEN - 5 {
                return Err(MessageError::TooLarge);
            }
            out.push(TAG_IMAGE);
            push_field(&mut out, d.as_slice());
        },
        MessageType::File(n, d) => {
            let nb = utf8_bytes(n);
            if nb.len() > MAX_FRAME_LEN || d.len() > MAX_FRAME_LEN || nb.len() + d.len() > MAX_FRAME_LEN - 9 {
                return Err(MessageError::TooLarge);
            }
            out.push(TAG_FILE);
            push_field(&mut out, nb);
            push_field(&mut out, d.as_slice());
        },
        MessageType::AuthRequest(a, u, p) => {
            let ub = utf8_bytes(u);
            let pb = utf8_bytes(p);
            if ub.len() > MAX_FRAME_LEN || pb.len() > MAX_FRAME_LEN || ub.len() + pb.len() > MAX_FRAME_LEN - 10 {
                return Err(MessageError::TooLarge);
            }
            out.push(TAG_AUTH_REQUEST);
            out.push(
                match a {
                    AuthAction::Register => 0u8,
                    AuthAction::Login => 1u8,
                },
            );
            push_field(&mut out, ub);
            push_field(&mut out, pb);
        },
        MessageType::AuthResponse(ok, d) => {
            let db = utf8_bytes(d);
            if db.len() > MAX_FRAME_LEN - 6 {
                return Err(MessageError::TooLarge);
            }
            out.push(TAG_AUTH_RESPONSE);
            out.push(if *ok { 1u8 } else { 0u8 });
            push_field(&mut out, db);
        },
    }
    assert(out@ =~= encode_spec(m@));
    Ok(out)
}

/// One length-prefixed field starting at `pos`, and where the next one starts.
fn read_field(b: &[u8], pos: usize) -> (r: Option<(Vec<u8>, usize)>)
    requires
        pos <= b@.len(),
    ensures
        match (r, take_field(b@.subrange(pos as int, b@.len() as int))) {
            (Some((x, next)), Some((y, rest))) => x@ == y && pos <= next <= b@.len() && rest
                == b@.subrange(next as int, b@.len() as int),
            (None, None) => true,
            _ => false,
        },
{
    let ghost t = b@.subrange(pos as int, b@.len() as int);
    if b.len() - pos < 4 {
        return None;
    }
    let h: [u8; 4] = [b[pos], b[pos + 1], b[pos + 2], b[pos + 3]];
    assert(be32_value(h@) == be32_value(t));
    let n = be32_decode(&h);
    if b.len() - pos - 4 < n as usize {
        return None;
    }
    let x = copy_range(b, pos + 4, pos + 4 + n as usize);
    assert(x@ =~= t.subrange(4, 4 + n as int));
    assert(b@.subrange((pos + 4 + n as usize) as int, b@.len() as int) =~= t.subrange(
        4 + n as int,
        t.len() as int,
    ));
    Some((x, pos + 4 + n as usize))
}

/// One string field starting at `pos`, and where the next field starts.
fn read_text(b: &[u8], pos: usize) -> (r: Option<(String, usize)>)
    requires
        pos <= b@.len(),
    ensures
        match (r, take_text(b@.subrange(pos as int, b@.len() as int))) {
            (Some((x, next)), Some((y, rest))) => x@ == y && pos <= next <= b@.len() && rest
                == b@.subrange(next as int, b@.len() as int),
            (None, None) => true,
            _ => false,
        },
{
    match read_field(b, pos) {
        Some((x, next)) => match string_from_utf8(x) {
            Some(s) => Some((s, next)),
            None => None,
        },
        None => None,
    }
}

/// The message that `b` encodes. Fails with `Malformed` on an unknown tag, a
/// missing or truncated field, invalid UTF-8 or bytes left over.
pub fn decode_message(b: &[u8]) -> (r: Result<MessageType, MessageError>)
    ensures
        match r {
            Ok(m) => decode_spec(b@) == Some(m@),
            Err(e) => decode_spec(b@) is None && e == MessageError::Malformed,
        },
{
    let len = b.len();
    if len == 0 {
        return Err(MessageError::Malformed);
    }
    assert(b@.drop_first() =~= b@.subrange(1, len as int));
    let tag = b[0];
    if tag == TAG_TEXT {
        match read_text(b, 1) {
            Some((s, next)) => {
                if next == len {
                    assert(b@.subrange(next as int, len as int).len() == 0);
                    return Ok(MessageType::Text(s));
                }
                Err(MessageError::Malformed)
            },
            None => Err(MessageError::Malformed),
        }
    } else if tag == TAG_IMAGE {
        match read_field(b, 1) {
            Some((d, next)) => {
                if next == len {
                    assert(b@.subrange(next as int, len as int).len() == 0);
                    return Ok(MessageType::Image(d));
                }
                Err(MessageError::Malformed)
            },
            None => Err(MessageError::Malformed),
        }
    } else if tag == TAG_FILE {
        match read_text(b, 1) {
            Some((n, next)) => match read_field(b, next) {
                Some((d, last)) => {
                    assert(b@.subrange(next as int, len as int).subrange(0, len - next) =~= b@.subrange(
                        next as int,
                        len as int,
                    ));
                    if last == len {
                        assert(b@.subrange(last as int, len as int).len() == 0);
                        return Ok(MessageType::File(n, d));
                    }
                    Err(MessageError::Malformed)
                },
                None => Err(MessageError::Malformed),
            },
            None => Err(MessageError::Malformed),
        }
    } else if tag == TAG_AUTH_REQUEST || tag == TAG_AUTH_RESPONSE {
        if len < 2 {
            return Err(MessageError::Malformed);
        }
        let flag = b[1];
        if flag > 1 {
            return Err(MessageError::Malformed);
        }
        if tag == TAG_AUTH_REQUEST {
            let action = if flag == 0 { AuthAction::Register } else { AuthAction::Login };
            match read_text(b, 2) {
                Some((u, next)) => match read_text(b, next) {
                    Some((p, last)) => {
                        if last == len {
                            assert(b@.subrange(last as int, len as int).len() == 0);
                            return Ok(MessageType::AuthRequest(action, u, p));
                        }
                        Err(MessageError::Malformed)
                    },
                    None => Err(MessageError::Malformed),
                },
                None => Err(MessageError::Malformed),
            }
        } else {
            match read_text(b, 2) {
                Some((d, next)) => {
                    if next == len {
                        assert(b@.subrange(next as int, len as int).len() == 0);
                        return Ok(MessageType::AuthResponse(flag == 1, d));
                    }
                    Err(MessageError::Malformed)
                },
                None => Err(MessageError::Malformed),
            }
        }
    } else {
        Err(MessageError::Malformed)
    }
}

} // verus!
