//! Encode and decode [`Message`]. This is the recognizer: bytes come in, a
//! fully decoded message or a typed error comes out, nothing in between.
//!
//! Decoding is canonical: the input must be exactly the bytes [`encode`]
//! produces for the message it parsed to. postcard's varints accept overlong
//! forms, so without this check one message would have many encodings and the
//! byte-identical round trip would not hold. Every error carries a stable
//! reason code the lab can grep.
mod extend;
pub mod format;
pub mod laws;
mod read;
mod write;

use crate::decimal::{append_decimal, decimal};
use crate::schema::{Message, MessageView};
use extend::lemma_parse_more;
use format::{encoding, lemma_over_capacity, lemma_parse_encoding, lemma_parse_valid, parse};
use read::take_message;
use vstd::prelude::*;
use vstd::string::StringExecFns;
use write::write_message;

verus! {

/// Decode failures. Reason codes are stable and greppable in lab logs.
#[derive(Clone, Copy, Debug, PartialEq, Eq, Structural)]
pub enum WireError {
    /// Input longer than any legal message; refused before it is read.
    TooLong {
        /// Length received.
        len: usize,
        /// [`Message::MAX_ENCODED_LEN`].
        max: usize,
    },
    /// Not a message: bad variant id, truncated field, over-capacity collection.
    Malformed,
    /// A complete message followed by extra bytes.
    Trailing(usize),
    /// Parsed, but not the canonical encoding of what it parsed to.
    NonCanonical,
}

impl WireError {
    /// The text of an error: its reason code and what it counted.
    pub open spec fn text(self) -> Seq<char> {
        match self {
            WireError::TooLong { len, max } => "E_WIRE_TOO_LONG: "@ + decimal(len as nat) + " > "@
                + decimal(max as nat),
            WireError::Malformed => "E_WIRE_MALFORMED"@,
            WireError::Trailing(n) => "E_WIRE_TRAILING: "@ + decimal(n as nat)
                + " bytes after message"@,
            WireError::NonCanonical => "E_WIRE_NONCANONICAL"@,
        }
    }

    /// The error as it is logged.
    pub fn to_string(&self) -> (r: String)
        ensures
            r@ == self.text(),
    {
        match *self {
            WireError::TooLong { len, max } => {
                let mut out = "E_WIRE_TOO_LONG: ".to_owned();
                append_decimal(&mut out, len as u64);
                out.append(" > ");
                append_decimal(&mut out, max as u64);
                out
            },
            WireError::Malformed => "E_WIRE_MALFORMED".to_owned(),
            WireError::Trailing(n) => {
                let mut out = "E_WIRE_TRAILING: ".to_owned();
                append_decimal(&mut out, n as u64);
                out.append(" bytes after message");
                out
            },
            WireError::NonCanonical => "E_WIRE_NONCANONICAL".to_owned(),
        }
    }
}

/// What decoding `b` comes to.
pub open spec fn decoded(b: Seq<u8>) -> Result<MessageView, WireError> {
    if b.len() > Message::MAX_ENCODED_LEN {
        Err(WireError::TooLong { len: b.len() as usize, max: Message::MAX_ENCODED_LEN })
    } else {
        match parse(b) {
            None => Err(WireError::Malformed),
            Some((m, rest)) => if rest.len() > 0 {
                Err(WireError::Trailing(rest.len() as usize))
            } else if encoding(m) != b {
                Err(WireError::NonCanonical)
            } else {
                Ok(m)
            },
        }
    }
}

pub(crate) fn same_bytes(a: &[u8], b: &[u8]) -> (r: bool)
    ensures
        r == (a@ == b@),
{
    if a.len() != b.len() {
        return false;
    }
    let mut i: usize = 0;
    while i < a.len()
        invariant
            i <= a@.len(),
            a@.len() == b@.len(),
            a@.take(i as int) == b@.take(i as int),
        decreases a@.len() - i,
    {
        if a[i] != b[i] {
            return false;
        }
        i = i + 1;
        assert(a@.take(i as int) =~= a@.take(i - 1).push(a@[i - 1]));
        assert(b@.take(i as int) =~= b@.take(i - 1).push(b@[i - 1]));
    }
    assert(a@.take(i as int) =~= a@);
    assert(b@.take(i as int) =~= b@);
    true
}

/// Decode one message. Refuses over-long inputs before touching them, refuses
/// trailing bytes after the message, and refuses non-canonical encodings.
pub fn decode(bytes: &[u8]) -> (r: Result<Message, WireError>)
    ensures
        match r {
            Ok(msg) => decoded(bytes@) == Ok::<MessageView, WireError>(msg@),
            Err(e) => decoded(bytes@) == Err::<MessageView, WireError>(e),
        },
{
    let max: usize = Message::MAX_ENCODED_LEN;
    if bytes.len() > max {
        return Err(WireError::TooLong { len: bytes.len(), max });
    }
    let (msg, rest) = match take_message(bytes) {
        Some(parsed) => parsed,
        None => {
            return Err(WireError::Malformed);
        },
    };
    if rest.len() > 0 {
        return Err(WireError::Trailing(rest.len()));
    }
    let mut buf: Vec<u8> = vec![0u8; max];
    match encode(&msg, buf.as_mut_slice()) {
        Ok(canonical) => {
            if !same_bytes(canonical, bytes) {
                return Err(WireError::NonCanonical);
            }
        },
        Err(e) => {
            return Err(e);
        },
    }
    Ok(msg)
}

/// Encode one message into a caller-provided buffer; returns the used slice.
/// The buffer must be at least [`Message::MAX_ENCODED_LEN`] bytes; a shorter
/// buffer yields `Malformed` and is left as it was.
pub fn encode<'a>(msg: &Message, buf: &'a mut [u8]) -> (r: Result<&'a [u8], WireError>)
    ensures
        msg@.valid(),
        match r {
            Ok(used) => {
                &&& old(buf)@.len() >= Message::MAX_ENCODED_LEN
                &&& used@ == encoding(msg@)
                &&& final(buf)@ == used@ + old(buf)@.skip(used@.len() as int)
            },
            Err(e) => {
                &&& old(buf)@.len() < Message::MAX_ENCODED_LEN
                &&& e == WireError::Malformed
                &&& final(buf)@ == old(buf)@
            },
        },
{
    msg.within_capacities();
    if buf.len() < Message::MAX_ENCODED_LEN {
        return Err(WireError::Malformed);
    }
    let end: usize = write_message(msg, buf);
    let (used, _unused) = buf.split_at(end);
    Ok(used)
}

/// Every message decodes from its own encoding, and comes back as it was.
pub proof fn law_decode_undoes_encode(m: MessageView)
    requires
        m.valid(),
    ensures
        decoded(encoding(m)) == Ok::<MessageView, WireError>(m),
{
    lemma_parse_encoding(m, seq![]);
    assert(encoding(m) + seq![] =~= encoding(m));
}

/// Decoding accepts canonical bytes only: what it accepts is the encoding of
/// the message it returns, so encoding the message again gives the same bytes.
pub proof fn law_encode_undoes_decode(b: Seq<u8>)
    ensures
        decoded(b) matches Ok(m) ==> encoding(m) == b && m.valid(),
{
    lemma_parse_valid(b);
}

/// One message has one encoding: two accepted inputs that decode alike are
/// alike.
pub proof fn law_one_encoding(a: Seq<u8>, b: Seq<u8>)
    requires
        decoded(a) is Ok,
        decoded(a) == decoded(b),
    ensures
        a == b,
{
    law_encode_undoes_decode(a);
    law_encode_undoes_decode(b);
}

/// Different messages have different encodings.
pub proof fn law_encoding_is_injective(m: MessageView, n: MessageView)
    requires
        m.valid(),
        n.valid(),
        encoding(m) == encoding(n),
    ensures
        m == n,
{
    law_decode_undoes_encode(m);
    law_decode_undoes_encode(n);
}

/// No message is longer than the cap, and none is empty.
pub proof fn law_encoding_is_bounded(m: MessageView)
    requires
        m.valid(),
    ensures
        1 <= encoding(m).len() <= Message::MAX_ENCODED_LEN,
{
    lemma_parse_encoding(m, seq![]);
}

/// A complete message with anything after it is refused, with the number of
/// bytes too many, or as over-long where the whole is longer than the cap.
pub proof fn law_trailing_bytes_are_refused(m: MessageView, extra: Seq<u8>)
    requires
        m.valid(),
        extra.len() > 0,
    ensures
        decoded(encoding(m) + extra) == Err::<MessageView, WireError>(
            if encoding(m).len() + extra.len() > Message::MAX_ENCODED_LEN {
                WireError::TooLong {
                    len: (encoding(m).len() + extra.len()) as usize,
                    max: Message::MAX_ENCODED_LEN,
                }
            } else {
                WireError::Trailing(extra.len() as usize)
            },
        ),
{
    lemma_parse_encoding(m, extra);
}

/// A message cut short is malformed, wherever it is cut.
pub proof fn law_truncated_messages_are_malformed(m: MessageView, k: int)
    requires
        m.valid(),
        0 <= k < encoding(m).len(),
    ensures
        decoded(encoding(m).take(k)) == Err::<MessageView, WireError>(WireError::Malformed),
{
    let whole = encoding(m);
    let kept = whole.take(k);
    let cut = whole.skip(k);
    lemma_parse_encoding(m, seq![]);
    assert(whole + seq![] =~= whole);
    assert(kept + cut =~= whole);
    lemma_parse_more(kept, cut);
    if let Some((_, rest)) = parse(kept) {
        assert((rest + cut).len() > 0);
    }
}

/// A collection over its capacity fails at decode, never later: written out in
/// full it is malformed, or over-long already.
pub proof fn law_over_capacity_fails_at_decode(m: MessageView)
    requires
        !m.valid(),
    ensures
        decoded(encoding(m)) == Err::<MessageView, WireError>(
            if encoding(m).len() > Message::MAX_ENCODED_LEN {
                WireError::TooLong {
                    len: encoding(m).len() as usize,
                    max: Message::MAX_ENCODED_LEN,
                }
            } else {
                WireError::Malformed
            },
        ),
{
    if encoding(m).len() <= Message::MAX_ENCODED_LEN {
        lemma_over_capacity(m);
    }
}

} // verus!
