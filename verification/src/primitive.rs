//! The primitive encodings of the wire format, as postcard writes and reads
//! them: variable-length integers, zigzag integers, booleans, four raw bytes,
//! and length-prefixed text. Everything else on the wire is these, one after
//! the other.
use vstd::prelude::*;
use vstd::utf8::{decode_utf8, encode_utf8, valid_utf8};

verus! {

/// Bytes of the longest variable-length encoding of a `u16`.
pub const U16_MAX_LEN: usize = 3;

/// Bytes of the longest variable-length encoding of a `u32` or an `i32`.
pub const U32_MAX_LEN: usize = 5;

/// Bytes of the longest variable-length encoding of a `u64`.
pub const U64_MAX_LEN: usize = 10;

/// The shortest variable-length encoding of `n`: seven bits per byte, least
/// significant first, the top bit set on every byte but the last.
pub open spec fn varint(n: nat) -> Seq<u8>
    decreases n,
{
    if n < 128 {
        seq![n as u8]
    } else {
        seq![(n % 128 + 128) as u8] + varint(n / 128)
    }
}

/// Reads a variable-length integer of at most `max_len` bytes off the front of
/// `b`, where a byte in the last of those places may be at most `top`. Longer
/// forms than the shortest are read like it. The rest of `b` comes second.
pub open spec fn read_varint(b: Seq<u8>, max_len: nat, top: nat) -> Option<(nat, Seq<u8>)>
    decreases max_len,
{
    if max_len == 0 || b.len() == 0 {
        None
    } else if b[0] < 128 {
        if max_len == 1 && b[0] > top {
            None
        } else {
            Some((b[0] as nat, b.skip(1)))
        }
    } else {
        match read_varint(b.skip(1), (max_len - 1) as nat, top) {
            Some((v, rest)) => Some(((b[0] - 128 + 128 * v) as nat, rest)),
            None => None,
        }
    }
}

/// How many values `read_varint` can return.
pub open spec fn varint_range(max_len: nat, top: nat) -> nat
    decreases max_len,
{
    if max_len == 0 {
        0
    } else if max_len == 1 {
        top + 1
    } else {
        128 * varint_range((max_len - 1) as nat, top)
    }
}

pub open spec fn read_u16(b: Seq<u8>) -> Option<(u16, Seq<u8>)> {
    match read_varint(b, 3, 3) {
        Some((v, rest)) => Some((v as u16, rest)),
        None => None,
    }
}

pub open spec fn read_u32(b: Seq<u8>) -> Option<(u32, Seq<u8>)> {
    match read_varint(b, 5, 15) {
        Some((v, rest)) => Some((v as u32, rest)),
        None => None,
    }
}

pub open spec fn read_u64(b: Seq<u8>) -> Option<(u64, Seq<u8>)> {
    match read_varint(b, 10, 1) {
        Some((v, rest)) => Some((v as u64, rest)),
        None => None,
    }
}

/// A length: a variable-length integer of the machine's address width.
pub open spec fn read_len(b: Seq<u8>) -> Option<(nat, Seq<u8>)> {
    if usize::BITS == 32 {
        read_varint(b, 5, 15)
    } else {
        read_varint(b, 10, 1)
    }
}

/// Signed integers interleaved with unsigned ones: 0, -1, 1, -2, 2 and so on.
pub open spec fn zigzag(n: i32) -> nat {
    if n >= 0 {
        (2 * n) as nat
    } else {
        (-2 * n - 1) as nat
    }
}

pub open spec fn unzigzag(u: u32) -> i32 {
    if u % 2 == 0 {
        (u / 2) as i32
    } else {
        (-(u / 2) - 1) as i32
    }
}

pub open spec fn read_i32(b: Seq<u8>) -> Option<(i32, Seq<u8>)> {
    match read_u32(b) {
        Some((u, rest)) => Some((unzigzag(u), rest)),
        None => None,
    }
}

pub open spec fn flag(v: bool) -> Seq<u8> {
    if v {
        seq![1u8]
    } else {
        seq![0u8]
    }
}

pub open spec fn read_bool(b: Seq<u8>) -> Option<(bool, Seq<u8>)> {
    if b.len() == 0 || b[0] > 1 {
        None
    } else {
        Some((b[0] == 1, b.skip(1)))
    }
}

pub open spec fn read_four(b: Seq<u8>) -> Option<(Seq<u8>, Seq<u8>)> {
    if b.len() < 4 {
        None
    } else {
        Some((b.take(4), b.skip(4)))
    }
}

/// Text: its length in UTF-8 bytes, then the bytes.
pub open spec fn text(s: Seq<char>) -> Seq<u8> {
    varint(encode_utf8(s).len()) + encode_utf8(s)
}

pub open spec fn read_text(b: Seq<u8>) -> Option<(Seq<char>, Seq<u8>)> {
    match read_len(b) {
        Some((n, rest)) => if n <= rest.len() && valid_utf8(rest.take(n as int)) {
            Some((decode_utf8(rest.take(n as int)), rest.skip(n as int)))
        } else {
            None
        },
        None => None,
    }
}

// ---------------------------------------------------------------------------
// Reading undoes writing
// ---------------------------------------------------------------------------

pub proof fn lemma_varint_round_trip(n: nat, max_len: nat, top: nat, rest: Seq<u8>)
    requires
        n < varint_range(max_len, top),
        top < 128,
    ensures
        read_varint(varint(n) + rest, max_len, top) == Some((n, rest)),
        1 <= varint(n).len() <= max_len,
    decreases max_len,
{
    let b = varint(n) + rest;
    if n < 128 {
        assert(b.skip(1) =~= rest);
    } else {
        assert(max_len > 1);
        lemma_varint_round_trip(n / 128, (max_len - 1) as nat, top, rest);
        assert(b.skip(1) =~= varint(n / 128) + rest);
        assert(b[0] == (n % 128 + 128) as u8);
    }
}

pub proof fn lemma_read_varint_bounds(b: Seq<u8>, max_len: nat, top: nat)
    requires
        top < 128,
    ensures
        read_varint(b, max_len, top) matches Some((v, rest)) ==> {
            &&& v < varint_range(max_len, top)
            &&& rest.len() < b.len()
            &&& rest =~= b.skip(b.len() - rest.len())
        },
    decreases max_len,
{
    if max_len > 0 && b.len() > 0 && b[0] >= 128 {
        lemma_read_varint_bounds(b.skip(1), (max_len - 1) as nat, top);
    } else if max_len > 1 && b.len() > 0 {
        lemma_varint_range_at_least(max_len, top);
    }
}

proof fn lemma_varint_range_at_least(max_len: nat, top: nat)
    requires
        max_len > 1,
    ensures
        varint_range(max_len, top) >= 128,
    decreases max_len,
{
    reveal_with_fuel(varint_range, 2);
    if max_len > 2 {
        lemma_varint_range_at_least((max_len - 1) as nat, top);
    }
}

pub proof fn lemma_ranges()
    ensures
        varint_range(3, 3) == 0x1_0000,
        varint_range(5, 15) == 0x1_0000_0000,
        varint_range(10, 1) == 0x1_0000_0000_0000_0000,
{
    reveal_with_fuel(varint_range, 11);
}

pub proof fn lemma_u16(v: u16, rest: Seq<u8>)
    ensures
        read_u16(varint(v as nat) + rest) == Some((v, rest)),
        1 <= varint(v as nat).len() <= U16_MAX_LEN,
{
    lemma_ranges();
    lemma_varint_round_trip(v as nat, 3, 3, rest);
}

pub proof fn lemma_u32(v: u32, rest: Seq<u8>)
    ensures
        read_u32(varint(v as nat) + rest) == Some((v, rest)),
        1 <= varint(v as nat).len() <= U32_MAX_LEN,
{
    lemma_ranges();
    lemma_varint_round_trip(v as nat, 5, 15, rest);
}

pub proof fn lemma_u64(v: u64, rest: Seq<u8>)
    ensures
        read_u64(varint(v as nat) + rest) == Some((v, rest)),
        1 <= varint(v as nat).len() <= U64_MAX_LEN,
{
    lemma_ranges();
    lemma_varint_round_trip(v as nat, 10, 1, rest);
}

pub proof fn lemma_len(n: nat, rest: Seq<u8>)
    requires
        n <= u32::MAX,
    ensures
        read_len(varint(n) + rest) == Some((n, rest)),
{
    lemma_ranges();
    lemma_varint_round_trip(n, 5, 15, rest);
    lemma_varint_round_trip(n, 10, 1, rest);
}

pub proof fn lemma_i32(v: i32, rest: Seq<u8>)
    ensures
        read_i32(varint(zigzag(v)) + rest) == Some((v, rest)),
        1 <= varint(zigzag(v)).len() <= U32_MAX_LEN,
{
    lemma_u32(zigzag(v) as u32, rest);
}

pub proof fn lemma_bool(v: bool, rest: Seq<u8>)
    ensures
        read_bool(flag(v) + rest) == Some((v, rest)),
{
    assert((flag(v) + rest).skip(1) =~= rest);
}

pub proof fn lemma_text(s: Seq<char>, rest: Seq<u8>)
    requires
        encode_utf8(s).len() <= u32::MAX,
    ensures
        read_text(text(s) + rest) == Some((s, rest)),
{
    let bytes = encode_utf8(s);
    let n = bytes.len();
    lemma_len(n, bytes + rest);
    assert(text(s) + rest =~= varint(n) + (bytes + rest));
    assert((bytes + rest).take(n as int) =~= bytes);
    assert((bytes + rest).skip(n as int) =~= rest);
    vstd::utf8::encode_utf8_valid_utf8(s);
    vstd::utf8::encode_utf8_decode_utf8(s);
}

// ---------------------------------------------------------------------------
// postcard
// ---------------------------------------------------------------------------

/// `postcard::take_from_bytes::<u16>`: a variable-length integer of at most
/// three bytes, and the bytes after it.
#[verifier::external_body]
pub(crate) fn take_u16(bytes: &[u8]) -> (r: Option<(u16, &[u8])>)
    ensures
        match r {
            Some((v, rest)) => read_u16(bytes@) == Some((v, rest@)),
            None => read_u16(bytes@) is None,
        },
{
    postcard::take_from_bytes::<u16>(bytes).ok()
}

/// `postcard::take_from_bytes::<u32>`: a variable-length integer of at most
/// five bytes, and the bytes after it.
#[verifier::external_body]
pub(crate) fn take_u32(bytes: &[u8]) -> (r: Option<(u32, &[u8])>)
    ensures
        match r {
            Some((v, rest)) => read_u32(bytes@) == Some((v, rest@)),
            None => read_u32(bytes@) is None,
        },
{
    postcard::take_from_bytes::<u32>(bytes).ok()
}

/// `postcard::take_from_bytes::<u64>`: a variable-length integer of at most
/// ten bytes, and the bytes after it.
#[verifier::external_body]
pub(crate) fn take_u64(bytes: &[u8]) -> (r: Option<(u64, &[u8])>)
    ensures
        match r {
            Some((v, rest)) => read_u64(bytes@) == Some((v, rest@)),
            None => read_u64(bytes@) is None,
        },
{
    postcard::take_from_bytes::<u64>(bytes).ok()
}

/// `postcard::take_from_bytes::<i32>`: a zigzag integer, and the bytes after
/// it.
#[verifier::external_body]
pub(crate) fn take_i32(bytes: &[u8]) -> (r: Option<(i32, &[u8])>)
    ensures
        match r {
            Some((v, rest)) => read_i32(bytes@) == Some((v, rest@)),
            None => read_i32(bytes@) is None,
        },
{
    postcard::take_from_bytes::<i32>(bytes).ok()
}

/// `postcard::take_from_bytes::<bool>`: one byte, zero or one, and the bytes
/// after it.
#[verifier::external_body]
pub(crate) fn take_bool(bytes: &[u8]) -> (r: Option<(bool, &[u8])>)
    ensures
        match r {
            Some((v, rest)) => read_bool(bytes@) == Some((v, rest@)),
            None => read_bool(bytes@) is None,
        },
{
    postcard::take_from_bytes::<bool>(bytes).ok()
}

/// `postcard::take_from_bytes::<[u8; 4]>`: four bytes as they stand, and the
/// bytes after them.
#[verifier::external_body]
pub(crate) fn take_four(bytes: &[u8]) -> (r: Option<([u8; 4], &[u8])>)
    ensures
        match r {
            Some((v, rest)) => read_four(bytes@) == Some((v@, rest@)),
            None => read_four(bytes@) is None,
        },
{
    postcard::take_from_bytes::<[u8; 4]>(bytes).ok()
}

/// `postcard::take_from_bytes::<&str>`: a length, that many bytes of UTF-8
/// borrowed from the input, and the bytes after them.
#[verifier::external_body]
pub(crate) fn take_text<'a>(bytes: &'a [u8]) -> (r: Option<(&'a str, &'a [u8])>)
    ensures
        match r {
            Some((v, rest)) => read_text(bytes@) == Some((v@, rest@)),
            None => read_text(bytes@) is None,
        },
{
    postcard::take_from_bytes::<&str>(bytes).ok()
}

/// What a successful write of `written` at the front of a buffer leaves there.
pub open spec fn overwritten(before: Seq<u8>, written: Seq<u8>) -> Seq<u8> {
    written + before.skip(written.len() as int)
}

/// `postcard::to_slice` of a `u16`: its shortest variable-length encoding at the front of `buf`;
/// `None` where it does not fit, with part of it perhaps written.
#[verifier::external_body]
pub(crate) fn put_u16(v: u16, buf: &mut [u8]) -> (r: Option<usize>)
    ensures
        final(buf)@.len() == old(buf)@.len(),
        match r {
            Some(n) => {
                &&& n == varint(v as nat).len()
                &&& n <= old(buf)@.len()
                &&& final(buf)@ == overwritten(old(buf)@, varint(v as nat))
            },
            None => varint(v as nat).len() > old(buf)@.len(),
        },
{
    postcard::to_slice(&v, buf).ok().map(|used| used.len())
}

/// `postcard::to_slice` of a `u32`: its shortest variable-length encoding at the front of `buf`;
/// `None` where it does not fit, with part of it perhaps written.
#[verifier::external_body]
pub(crate) fn put_u32(v: u32, buf: &mut [u8]) -> (r: Option<usize>)
    ensures
        final(buf)@.len() == old(buf)@.len(),
        match r {
            Some(n) => {
                &&& n == varint(v as nat).len()
                &&& n <= old(buf)@.len()
                &&& final(buf)@ == overwritten(old(buf)@, varint(v as nat))
            },
            None => varint(v as nat).len() > old(buf)@.len(),
        },
{
    postcard::to_slice(&v, buf).ok().map(|used| used.len())
}

/// `postcard::to_slice` of a `u64`: its shortest variable-length encoding at the front of `buf`;
/// `None` where it does not fit, with part of it perhaps written.
#[verifier::external_body]
pub(crate) fn put_u64(v: u64, buf: &mut [u8]) -> (r: Option<usize>)
    ensures
        final(buf)@.len() == old(buf)@.len(),
        match r {
            Some(n) => {
                &&& n == varint(v as nat).len()
                &&& n <= old(buf)@.len()
                &&& final(buf)@ == overwritten(old(buf)@, varint(v as nat))
            },
            None => varint(v as nat).len() > old(buf)@.len(),
        },
{
    postcard::to_slice(&v, buf).ok().map(|used| used.len())
}

/// `postcard::to_slice` of an `i32`: its zigzag encoding at the front of `buf`;
/// `None` where it does not fit, with part of it perhaps written.
#[verifier::external_body]
pub(crate) fn put_i32(v: i32, buf: &mut [u8]) -> (r: Option<usize>)
    ensures
        final(buf)@.len() == old(buf)@.len(),
        match r {
            Some(n) => {
                &&& n == varint(zigzag(v)).len()
                &&& n <= old(buf)@.len()
                &&& final(buf)@ == overwritten(old(buf)@, varint(zigzag(v)))
            },
            None => varint(zigzag(v)).len() > old(buf)@.len(),
        },
{
    postcard::to_slice(&v, buf).ok().map(|used| used.len())
}

/// `postcard::to_slice` of a `bool`: one byte at the front of `buf`;
/// `None` where it does not fit, with part of it perhaps written.
#[verifier::external_body]
pub(crate) fn put_bool(v: bool, buf: &mut [u8]) -> (r: Option<usize>)
    ensures
        final(buf)@.len() == old(buf)@.len(),
        match r {
            Some(n) => {
                &&& n == flag(v).len()
                &&& n <= old(buf)@.len()
                &&& final(buf)@ == overwritten(old(buf)@, flag(v))
            },
            None => flag(v).len() > old(buf)@.len(),
        },
{
    postcard::to_slice(&v, buf).ok().map(|used| used.len())
}

/// `postcard::to_slice` of a `[u8; 4]`: the four bytes as they stand at the front of `buf`;
/// `None` where it does not fit, with part of it perhaps written.
#[verifier::external_body]
pub(crate) fn put_four(v: [u8; 4], buf: &mut [u8]) -> (r: Option<usize>)
    ensures
        final(buf)@.len() == old(buf)@.len(),
        match r {
            Some(n) => {
                &&& n == v@.len()
                &&& n <= old(buf)@.len()
                &&& final(buf)@ == overwritten(old(buf)@, v@)
            },
            None => v@.len() > old(buf)@.len(),
        },
{
    postcard::to_slice(&v, buf).ok().map(|used| used.len())
}

/// `postcard::to_slice` of a `str`: its length and its UTF-8 bytes at the front of `buf`;
/// `None` where it does not fit, with part of it perhaps written.
#[verifier::external_body]
pub(crate) fn put_text(v: &str, buf: &mut [u8]) -> (r: Option<usize>)
    ensures
        final(buf)@.len() == old(buf)@.len(),
        match r {
            Some(n) => {
                &&& n == text(v@).len()
                &&& n <= old(buf)@.len()
                &&& final(buf)@ == overwritten(old(buf)@, text(v@))
            },
            None => text(v@).len() > old(buf)@.len(),
        },
{
    postcard::to_slice(v, buf).ok().map(|used| used.len())
}

// ---------------------------------------------------------------------------
// Reading and writing inside a longer run of bytes
// ---------------------------------------------------------------------------

/// Reads a length.
pub fn take_len(bytes: &[u8]) -> (r: Option<(usize, &[u8])>)
    ensures
        match r {
            Some((n, rest)) => read_len(bytes@) == Some((n as nat, rest@)),
            None => read_len(bytes@) is None,
        },
{
    proof {
        lemma_ranges();
        lemma_read_varint_bounds(bytes@, 5, 15);
        lemma_read_varint_bounds(bytes@, 10, 1);
    }
    if usize::BITS == 32 {
        match take_u32(bytes) {
            Some((n, rest)) => Some((n as usize, rest)),
            None => None,
        }
    } else {
        match take_u64(bytes) {
            Some((n, rest)) => Some((n as usize, rest)),
            None => None,
        }
    }
}

/// `after` is `before` with `written` put in at `at`.
pub open spec fn wrote_at(before: Seq<u8>, after: Seq<u8>, at: int, written: Seq<u8>) -> bool {
    &&& at + written.len() <= before.len()
    &&& after.len() == before.len()
    &&& after.take(at + written.len()) == before.take(at) + written
    &&& after.skip(at + written.len()) == before.skip(at + written.len())
}

proof fn lemma_wrote_at(before: Seq<u8>, after: Seq<u8>, at: int, written: Seq<u8>)
    requires
        0 <= at,
        at + written.len() <= before.len(),
        after == before.subrange(0, at) + overwritten(
            before.subrange(at, before.len() as int),
            written,
        ),
    ensures
        wrote_at(before, after, at, written),
{
    assert(after.take(at + written.len()) =~= before.take(at) + written);
    assert(after.skip(at + written.len()) =~= before.skip(at + written.len()));
}

pub(crate) fn write_u16(v: u16, buf: &mut [u8], at: usize) -> (end: usize)
    requires
        at + U16_MAX_LEN <= old(buf)@.len(),
    ensures
        end == at + varint(v as nat).len(),
        end <= at + U16_MAX_LEN,
        wrote_at(old(buf)@, final(buf)@, at as int, varint(v as nat)),
{
    proof {
        lemma_u16(v, seq![]);
    }
    let _total: usize = buf.len();
    let (_head, tail) = buf.split_at_mut(at);
    let written: Option<usize> = put_u16(v, tail);
    proof {
        lemma_wrote_at(old(buf)@, buf@, at as int, varint(v as nat));
    }
    match written {
        Some(n) => at + n,
        None => at,
    }
}

pub(crate) fn write_u32(v: u32, buf: &mut [u8], at: usize) -> (end: usize)
    requires
        at + U32_MAX_LEN <= old(buf)@.len(),
    ensures
        end == at + varint(v as nat).len(),
        end <= at + U32_MAX_LEN,
        wrote_at(old(buf)@, final(buf)@, at as int, varint(v as nat)),
{
    proof {
        lemma_u32(v, seq![]);
    }
    let _total: usize = buf.len();
    let (_head, tail) = buf.split_at_mut(at);
    let written: Option<usize> = put_u32(v, tail);
    proof {
        lemma_wrote_at(old(buf)@, buf@, at as int, varint(v as nat));
    }
    match written {
        Some(n) => at + n,
        None => at,
    }
}

pub(crate) fn write_u64(v: u64, buf: &mut [u8], at: usize) -> (end: usize)
    requires
        at + U64_MAX_LEN <= old(buf)@.len(),
    ensures
        end == at + varint(v as nat).len(),
        end <= at + U64_MAX_LEN,
        wrote_at(old(buf)@, final(buf)@, at as int, varint(v as nat)),
{
    proof {
        lemma_u64(v, seq![]);
    }
    let _total: usize = buf.len();
    let (_head, tail) = buf.split_at_mut(at);
    let written: Option<usize> = put_u64(v, tail);
    proof {
        lemma_wrote_at(old(buf)@, buf@, at as int, varint(v as nat));
    }
    match written {
        Some(n) => at + n,
        None => at,
    }
}

pub(crate) fn write_i32(v: i32, buf: &mut [u8], at: usize) -> (end: usize)
    requires
        at + U32_MAX_LEN <= old(buf)@.len(),
    ensures
        end == at + varint(zigzag(v)).len(),
        end <= at + U32_MAX_LEN,
        wrote_at(old(buf)@, final(buf)@, at as int, varint(zigzag(v))),
{
    proof {
        lemma_i32(v, seq![]);
    }
    let _total: usize = buf.len();
    let (_head, tail) = buf.split_at_mut(at);
    let written: Option<usize> = put_i32(v, tail);
    proof {
        lemma_wrote_at(old(buf)@, buf@, at as int, varint(zigzag(v)));
    }
    match written {
        Some(n) => at + n,
        None => at,
    }
}

pub(crate) fn write_bool(v: bool, buf: &mut [u8], at: usize) -> (end: usize)
    requires
        at + 1 <= old(buf)@.len(),
    ensures
        end == at + flag(v).len(),
        end <= at + 1,
        wrote_at(old(buf)@, final(buf)@, at as int, flag(v)),
{
    let _total: usize = buf.len();
    let (_head, tail) = buf.split_at_mut(at);
    let written: Option<usize> = put_bool(v, tail);
    proof {
        lemma_wrote_at(old(buf)@, buf@, at as int, flag(v));
    }
    match written {
        Some(n) => at + n,
        None => at,
    }
}

pub(crate) fn write_four(v: [u8; 4], buf: &mut [u8], at: usize) -> (end: usize)
    requires
        at + 4 <= old(buf)@.len(),
    ensures
        end == at + v@.len(),
        end <= at + 4,
        wrote_at(old(buf)@, final(buf)@, at as int, v@),
{
    let _total: usize = buf.len();
    let (_head, tail) = buf.split_at_mut(at);
    let written: Option<usize> = put_four(v, tail);
    proof {
        lemma_wrote_at(old(buf)@, buf@, at as int, v@);
    }
    match written {
        Some(n) => at + n,
        None => at,
    }
}

pub(crate) fn write_text(v: &str, buf: &mut [u8], at: usize) -> (end: usize)
    requires
        at + text(v@).len() <= old(buf)@.len(),
    ensures
        end == at + text(v@).len(),
        wrote_at(old(buf)@, final(buf)@, at as int, text(v@)),
{
    let _total: usize = buf.len();
    let (_head, tail) = buf.split_at_mut(at);
    let written: Option<usize> = put_text(v, tail);
    proof {
        lemma_wrote_at(old(buf)@, buf@, at as int, text(v@));
    }
    match written {
        Some(n) => at + n,
        None => at,
    }
}

} // verus!
