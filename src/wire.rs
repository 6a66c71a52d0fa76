//! Frames: a 4-byte big-endian length followed by exactly that many bytes.

use vstd::prelude::*;

verus! {

/// Largest payload one frame may carry. A peer announcing more is refused
/// before anything is allocated for it.
pub const MAX_FRAME_LEN: usize = 64 * 1024 * 1024;

/// Errors of the channel layer.
#[derive(Debug, Clone, Copy, PartialEq, Eq, Structural)]
pub enum BytesSendReceiveError {
    /// Writing to the peer failed.
    SendFailed,
    /// Reading from the peer failed.
    ReceiveFailed,
    /// The stream ended before a whole frame arrived.
    ConnectionClosed,
    /// A frame longer than `MAX_FRAME_LEN` was announced or requested.
    FrameTooLarge,
}

/// The four big-endian bytes of `n` (for `n < 2^32`).
pub open spec fn be32_bytes(n: nat) -> Seq<u8> {
    seq![
        (n / 0x100_0000) as u8,
        ((n / 0x1_0000) % 0x100) as u8,
        ((n / 0x100) % 0x100) as u8,
        (n % 0x100) as u8,
    ]
}

/// The number that the first four bytes of `b` spell, most significant first.
pub open spec fn be32_value(b: Seq<u8>) -> nat {
    (b[0] as nat) * 0x100_0000 + (b[1] as nat) * 0x1_0000 + (b[2] as nat) * 0x100 + (b[3] as nat)
}

/// A payload together with its length prefix.
pub open spec fn frame_of(payload: Seq<u8>) -> Seq<u8> {
    be32_bytes(payload.len()) + payload
}

/// What reading one frame from the front of `b` yields: the payload and the
/// number of bytes the frame took.
pub open spec fn frame_decode(b: Seq<u8>) -> Result<(Seq<u8>, nat), BytesSendReceiveError> {
    if b.len() < 4 {
        Err(BytesSendReceiveError::ConnectionClosed)
    } else if be32_value(b) > MAX_FRAME_LEN {
        Err(BytesSendReceiveError::FrameTooLarge)
    } else if b.len() < 4 + be32_value(b) {
        Err(BytesSendReceiveError::ConnectionClosed)
    } else {
        Ok((b.subrange(4, 4 + be32_value(b) as int), 4 + be32_value(b)))
    }
}

/// Reading back the prefix of `n` gives `n`.
pub proof fn lemma_be32_value_of_bytes(n: nat)
    requires
        n < 0x1_0000_0000,
    ensures
        be32_bytes(n).len() == 4,
        be32_value(be32_bytes(n)) == n,
{
    let b = be32_bytes(n);
    let q1 = n / 0x100;
    let q2 = q1 / 0x100;
    let q3 = q2 / 0x100;
    assert(n == 0x100 * q1 + n % 0x100);
    assert(q1 == 0x100 * q2 + q1 % 0x100);
    assert(q2 == 0x100 * q3 + q2 % 0x100);
    assert(n / 0x1_0000 == q2) by {
        vstd::arithmetic::div_mod::lemma_div_denominator(n as int, 0x100, 0x100);
    }
    assert(n / 0x100_0000 == q3) by {
        vstd::arithmetic::div_mod::lemma_div_denominator(n as int, 0x1_0000, 0x100);
    }
    assert(q3 < 0x100);
    assert(b[0] as nat == q3);
    assert(b[1] as nat == q2 % 0x100);
    assert(b[2] as nat == q1 % 0x100);
    assert(b[3] as nat == n % 0x100);
}

/// The frame of a payload is its prefix followed by the payload.
pub proof fn lemma_frame_layout(p: Seq<u8>, rest: Seq<u8>)
    requires
        p.len() < 0x1_0000_0000,
    ensures
        (frame_of(p) + rest).len() == 4 + p.len() + rest.len(),
        be32_value(frame_of(p) + rest) == p.len(),
        (frame_of(p) + rest).subrange(4, 4 + p.len() as int) == p,
        (frame_of(p) + rest).subrange(4 + p.len() as int, (frame_of(p) + rest).len() as int) == rest,
{
    lemma_be32_value_of_bytes(p.len());
    let b = frame_of(p) + rest;
    assert(b.subrange(0, 4) =~= be32_bytes(p.len()));
    assert(b[0] == be32_bytes(p.len())[0]);
    assert(b[1] == be32_bytes(p.len())[1]);
    assert(b[2] == be32_bytes(p.len())[2]);
    assert(b[3] == be32_bytes(p.len())[3]);
    assert(b.subrange(4, 4 + p.len() as int) =~= p);
    assert(b.subrange(4 + p.len() as int, b.len() as int) =~= rest);
}

/// Any payload within the size limit, framed and then read back, is the same
/// payload, and the frame is consumed exactly.
pub proof fn lemma_frame_round_trip(p: Seq<u8>)
    requires
        p.len() <= MAX_FRAME_LEN,
    ensures
        frame_decode(frame_of(p)) == Ok::<(Seq<u8>, nat), BytesSendReceiveError>((p, 4 + p.len())),
{
    lemma_frame_layout(p, Seq::empty());
    assert(frame_of(p) + Seq::<u8>::empty() =~= frame_of(p));
}

/// A frame cut short anywhere is reported as a closed connection, never as a
/// shorter payload.
pub proof fn lemma_truncated_frame(p: Seq<u8>, k: nat)
    requires
        p.len() <= MAX_FRAME_LEN,
        k < frame_of(p).len(),
    ensures
        frame_decode(frame_of(p).subrange(0, k as int)) == Err::<(Seq<u8>, nat), BytesSendReceiveError>(
            BytesSendReceiveError::ConnectionClosed,
        ),
{
    lemma_frame_layout(p, Seq::empty());
    assert(frame_of(p) + Seq::<u8>::empty() =~= frame_of(p));
    let t = frame_of(p).subrange(0, k as int);
    if k >= 4 {
        assert(t[0] == frame_of(p)[0]);
        assert(t[1] == frame_of(p)[1]);
        assert(t[2] == frame_of(p)[2]);
        assert(t[3] == frame_of(p)[3]);
        assert(be32_value(t) == be32_value(frame_of(p)));
    }
}

/// The four big-endian bytes of `n`.
pub fn be32_encode(n: u32) -> (r: [u8; 4])
    ensures
        r@ == be32_bytes(n as nat),
{
    let r = [(n / 0x100_0000) as u8, ((n / 0x1_0000) % 0x100) as u8, ((n / 0x100) % 0x100) as u8, (n % 0x100) as u8];
    assert(r@ =~= be32_bytes(n as nat));
    r
}

/// The number spelled by four big-endian bytes.
pub fn be32_decode(b: &[u8; 4]) -> (r: u32)
    ensures
        r as nat == be32_value(b@),
{
    (b[0] as u32) * 0x100_0000 + (b[1] as u32) * 0x1_0000 + (b[2] as u32) * 0x100 + (b[3] as u32)
}

/// Appends all of `src` to `out`.
pub fn push_all(out: &mut Vec<u8>, src: &[u8])
    ensures
        final(out)@ == old(out)@ + src@,
{
    let mut i: usize = 0;
    while i < src.len()
        invariant
            i <= src@.len(),
            out@ == old(out)@ + src@.subrange(0, i as int),
        decreases src@.len() - i,
    {
        out.push(src[i]);
        i = i + 1;
        assert(out@ =~= old(out)@ + src@.subrange(0, i as int));
    }
    assert(src@.subrange(0, i as int) =~= src@);
}

/// The bytes `b[from..to]` as a vector of their own.
pub fn copy_range(b: &[u8], from: usize, to: usize) -> (r: Vec<u8>)
    requires
        from <= to <= b@.len(),
    ensures
        r@ == b@.subrange(from as int, to as int),
{
    let mut r: Vec<u8> = Vec::new();
    let mut i: usize = from;
    while i < to
        invariant
            from <= i <= to <= b@.len(),
            r@ == b@.subrange(from as int, i as int),
        decreases to - i,
    {
        r.push(b[i]);
        i = i + 1;
        assert(r@ =~= b@.subrange(from as int, i as int));
    }
    r
}

/// Prepends the 4-byte big-endian length to `payload`. Payloads longer than
/// `MAX_FRAME_LEN` are refused.
pub fn encode_frame(payload: &[u8]) -> (r: Result<Vec<u8>, BytesSendReceiveError>)
    ensures
        payload@.len() <= MAX_FRAME_LEN ==> (r matches Ok(f) && f@ == frame_of(payload@)),
        payload@.len() > MAX_FRAME_LEN ==> r == Err::<Vec<u8>, BytesSendReceiveError>(
            BytesSendReceiveError::FrameTooLarge,
        ),
{
    if payload.len() > MAX_FRAME_LEN {
        return Err(BytesSendReceiveError::FrameTooLarge);
    }
    let header = be32_encode(payload.len() as u32);
    let mut out: Vec<u8> = Vec::new();
    push_all(&mut out, &header);
    push_all(&mut out, payload);
    Ok(out)
}

/// The payload length announced by a frame header; lengths over
/// `MAX_FRAME_LEN` are refused.
pub fn frame_length(header: &[u8; 4]) -> (r: Result<usize, BytesSendReceiveError>)
    ensures
        be32_value(header@) <= MAX_FRAME_LEN ==> r == Ok::<usize, BytesSendReceiveError>(
            be32_value(header@) as usize,
        ),
        be32_value(header@) > MAX_FRAME_LEN ==> r == Err::<usize, BytesSendReceiveError>(
            BytesSendReceiveError::FrameTooLarge,
        ),
{
    let n = be32_decode(header);
    if n as usize > MAX_FRAME_LEN {
        Err(BytesSendReceiveError::FrameTooLarge)
    } else {
        Ok(n as usize)
    }
}

/// Reads one frame from the front of `b`: its payload and the number of bytes
/// it took. Bytes after the frame are left alone.
pub fn decode_frame(b: &[u8]) -> (r: Result<(Vec<u8>, usize), BytesSendReceiveError>)
    ensures
        match (r, frame_decode(b@)) {
            (Ok((p, n)), Ok((q, m))) => p@ == q && n as nat == m,
            (Err(e), Err(f)) => e == f,
            _ => false,
        },
{
    if b.len() < 4 {
        return Err(BytesSendReceiveError::ConnectionClosed);
    }
    let header: [u8; 4] = [b[0], b[1], b[2], b[3]];
    assert(be32_value(header@) == be32_value(b@));
    let len = match frame_length(&header) {
        Ok(len) => len,
        Err(e) => {
            return Err(e);
        },
    };
    if b.len() - 4 < len {
        return Err(BytesSendReceiveError::ConnectionClosed);
    }
    let payload = copy_range(b, 4, 4 + len);
    Ok((payload, 4 + len))
}

} // verus!
