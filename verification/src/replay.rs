//! What replay does with the values recorded for a call: the values written
//! back into output arguments, the return value, and the extra state that a
//! few calls carry (the last error, the callback context, the status
//! notifications).
use vstd::prelude::*;
use crate::utf16::{le_units, lemma_le_units_roundtrip, lemma_utf16_decode_then_encode, utf16_decode};
use crate::values::{
    Encoding, LogValueView, RowValue, RowValueView,
    buffer_encodable, buffer_replay, buffer_replayable, buffer_text, c_string_bytes, pointer_log,
    take_at_most, wide_string_units, replay_buffer,
};
use crate::values::base64_decode;
use crate::radix64::{base64_bytes, lemma_base64_round_trip};
use vstd::arithmetic::power::{lemma_pow_increases, lemma_pow_positive, pow};
use vstd::arithmetic::div_mod::lemma_mod_breakdown;
use vstd::layout::{size_of, unsigned_int_max_values};
use vstd::utf8::{decode_utf8, decode_utf8_encode_utf8};

verus! {

/// The error that replay sets for a header query that reported failure.
#[derive(Clone, Copy, Debug, PartialEq, Eq, Structural)]
pub enum LastError {
    /// The caller passed no buffer: it asked for the size it needs.
    InsufficientBuffer,
    /// The caller passed a buffer: the header was not there.
    HeaderNotFound,
}

/// The value written back into a `*mut u32` output argument: the recorded
/// integer truncated to 32 bits, or 0 where none was recorded; nothing where
/// the argument is null.
pub open spec fn u32_replay(dest_present: bool, value: RowValueView) -> Option<u32> {
    if !dest_present {
        None
    } else {
        match value {
            RowValueView::Integer(v) => Some(v as u32),
            _ => Some(0u32),
        }
    }
}

/// The value to write back into a `*mut u32` output argument, or `None`
/// where the argument is null.
pub fn replay_u32(dest_present: bool, value: &RowValue) -> (out: Option<u32>)
    ensures
        out == u32_replay(dest_present, value@),
{
    if !dest_present {
        None
    } else {
        match value {
            RowValue::Integer(v) => Some(*v as u32),
            _ => Some(0u32),
        }
    }
}

/// The pointer returned by a replayed call: the recorded address, or null.
pub open spec fn pointer_replay(value: RowValueView) -> usize {
    match value {
        RowValueView::Integer(v) => v as usize,
        _ => 0usize,
    }
}

/// The pointer that a replayed call returns.
pub fn replay_pointer(value: &RowValue) -> (p: usize)
    ensures
        p == pointer_replay(value@),
{
    match value {
        RowValue::Integer(v) => *v as usize,
        _ => 0,
    }
}

/// The callback that a replayed call returns: the recorded address, or none.
pub open spec fn callback_replay(value: RowValueView) -> Option<usize> {
    match value {
        RowValueView::Integer(v) => Some(v as usize),
        _ => None,
    }
}

/// The callback address that a replayed call returns, if any.
pub fn replay_callback(value: &RowValue) -> (cb: Option<usize>)
    ensures
        cb == callback_replay(value@),
{
    match value {
        RowValue::Integer(v) => Some(*v as usize),
        _ => None,
    }
}

/// The success flag that a replayed call returns: a recorded non-zero
/// integer, else failure.
pub open spec fn bool_replay(value: RowValueView) -> bool {
    match value {
        RowValueView::Integer(v) => v != 0,
        _ => false,
    }
}

/// The success flag that a replayed call returns.
pub fn replay_bool(value: &RowValue) -> (b: bool)
    ensures
        b == bool_replay(value@),
{
    match value {
        RowValue::Integer(v) => *v != 0,
        _ => false,
    }
}

/// The error that replay sets after a header query: where the recorded
/// result is 0 (failure), the buffer recorded for the call tells which; for
/// any other result, none.
pub open spec fn last_error_replay(result: RowValueView, buffer: RowValueView) -> Option<LastError> {
    match result {
        RowValueView::Integer(v) => if v == 0 {
            if buffer is Null {
                Some(LastError::InsufficientBuffer)
            } else {
                Some(LastError::HeaderNotFound)
            }
        } else {
            None
        },
        _ => None,
    }
}

/// Where nothing usable was recorded, replay gives back nothing: a
/// non-integer value replays as a null pointer, a failure, and 0 in a
/// `*mut u32` output; a null output gets nothing written; and only a
/// recorded non-zero integer is a success.
pub proof fn lemma_replay_without_integer(value: RowValueView, dest_present: bool)
    ensures
        !(value is Integer) ==> pointer_replay(value) == 0,
        !(value is Integer) ==> !bool_replay(value),
        !(value is Integer) ==> callback_replay(value) is None,
        bool_replay(value) <==> (value is Integer && value != RowValueView::Integer(0)),
        !dest_present ==> u32_replay(dest_present, value) is None,
        dest_present && !(value is Integer) ==> u32_replay(dest_present, value) == Some(0u32),
        dest_present ==> u32_replay(dest_present, value) is Some,
{
}

/// An error is set only after a header query whose recorded result is 0
/// (failure), whatever buffer was recorded: a null buffer means it was too
/// small, any other that the header was not found. A query that succeeded
/// leaves the last error alone.
pub proof fn lemma_last_error_only_after_failure(result: RowValueView, buffer: RowValueView)
    ensures
        result != RowValueView::Integer(0) ==> last_error_replay(result, buffer) is None,
        result == RowValueView::Integer(0) && buffer is Null ==> last_error_replay(result, buffer)
            == Some(LastError::InsufficientBuffer),
        result == RowValueView::Integer(0) && !(buffer is Null) ==> last_error_replay(result, buffer)
            == Some(LastError::HeaderNotFound),
{
}

/// The error to set after a replayed header query, if any.
pub fn replay_last_error(result: &RowValue, buffer: &RowValue) -> (e: Option<LastError>)
    ensures
        e == last_error_replay(result@, buffer@),
        result@ != RowValueView::Integer(0) ==> e is None,
        result@ == RowValueView::Integer(0) ==> e is Some,
        result@ == RowValueView::Integer(0) ==> (e == Some(LastError::InsufficientBuffer) <==> buffer@ is Null),
{
    match result {
        RowValue::Integer(v) => {
            if *v == 0 {
                match buffer {
                    RowValue::Null => Some(LastError::InsufficientBuffer),
                    _ => Some(LastError::HeaderNotFound),
                }
            } else {
                None
            }
        },
        _ => None,
    }
}

/// The number of bytes of a `usize`, as the context value takes them.
pub open spec fn word_size() -> nat {
    size_of::<usize>()
}

/// The number whose little-endian bytes are `s`, the lowest first.
pub open spec fn le_value(s: Seq<u8>) -> nat
    decreases s.len(),
{
    if s.len() == 0 {
        0
    } else {
        s[0] as nat + 256 * le_value(s.drop_first())
    }
}

/// The `n` lowest bytes of `x`, little-endian.
pub open spec fn le_bytes(x: nat, n: nat) -> Seq<u8>
    decreases n,
{
    if n == 0 {
        seq![]
    } else {
        seq![(x % 256) as u8] + le_bytes(x / 256, (n - 1) as nat)
    }
}

/// Reading `n` little-endian bytes of `x` back gives `x` modulo `256^n`.
pub proof fn lemma_le_value_of_bytes(x: nat, n: nat)
    ensures
        le_bytes(x, n).len() == n,
        le_value(le_bytes(x, n)) == x % (pow(256, n) as nat),
    decreases n,
{
    reveal(pow);
    if n > 0 {
        lemma_le_value_of_bytes(x / 256, (n - 1) as nat);
        let rest = le_bytes(x / 256, (n - 1) as nat);
        assert(le_bytes(x, n).drop_first() =~= rest);
        lemma_pow_positive(256, (n - 1) as nat);
        let p = pow(256, (n - 1) as nat);
        lemma_mod_breakdown(x as int, 256, p);
        assert(pow(256, n) == 256 * p);
    }
}

proof fn lemma_le_value_step(s: Seq<u8>, i: int, w: int)
    requires
        0 < i <= w <= s.len(),
    ensures
        le_value(s.subrange(i - 1, w)) == s[i - 1] as nat + 256 * le_value(s.subrange(i, w)),
{
    assert(s.subrange(i - 1, w).drop_first() =~= s.subrange(i, w));
}

/// The `usize` whose little-endian bytes begin `b`.
fn le_word(b: &[u8]) -> (v: usize)
    requires
        b@.len() >= word_size(),
    ensures
        v as nat == le_value(b@.take(word_size() as int)),
{
    let w = core::mem::size_of::<usize>();
    proof {
        unsigned_int_max_values();
        reveal(pow);
        assert(b@.subrange(w as int, w as int) =~= Seq::<u8>::empty());
    }
    let mut acc: usize = 0;
    let mut i: usize = w;
    while i > 0
        invariant
            i <= w,
            w as nat == word_size(),
            w <= b@.len(),
            acc as nat == le_value(b@.subrange(i as int, w as int)),
            (acc as nat) < pow(256, (w - i) as nat),
            usize::MAX as nat == pow(256, w as nat) - 1,
        decreases i,
    {
        proof {
            lemma_le_value_step(b@, i as int, w as int);
            lemma_pow_increases(256, (w - i + 1) as nat, w as nat);
            reveal(pow);
            assert(pow(256, (w - i + 1) as nat) == 256 * pow(256, (w - i) as nat));
        }
        acc = acc * 256 + b[i - 1] as usize;
        i = i - 1;
    }
    proof {
        assert(b@.subrange(0, w as int) =~= b@.take(w as int));
    }
    acc
}

/// What a replayed option call does to the callback context.
#[derive(Debug, PartialEq, Eq)]
pub enum ContextUpdate {
    /// The option is not the context option: the context is not touched,
    /// nor created where it does not exist yet.
    Untouched,
    /// The context option with a buffer that gives no context value: the
    /// context is created as 0 where it does not exist, else kept.
    Keep,
    /// The context option: the context becomes this value.
    SetTo(usize),
}

/// What a replayed option call does to the callback context. Where the
/// option recorded is `context_option`, the buffer holds the context value
/// that replay passes to the status callback: a buffer recorded as base64
/// text of at least a `usize`'s bytes gives the `usize` of its first bytes,
/// little-endian; an integer gives itself and a null buffer 0. Any other
/// option leaves the context alone.
pub open spec fn context_replay(option: RowValueView, buffer: RowValueView, context_option: u32) -> ContextUpdate {
    if option == RowValueView::Integer(context_option as i64) {
        match buffer {
            RowValueView::Integer(v) => ContextUpdate::SetTo(v as usize),
            RowValueView::Null => ContextUpdate::SetTo(0usize),
            RowValueView::Text(t) => match base64_bytes(t) {
                Some(b) => if b.len() >= word_size() {
                    ContextUpdate::SetTo(le_value(b.take(word_size() as int)) as usize)
                } else {
                    ContextUpdate::Keep
                },
                None => ContextUpdate::Keep,
            },
            _ => ContextUpdate::Keep,
        }
    } else {
        ContextUpdate::Untouched
    }
}

/// What a replayed option call does to the callback context.
pub fn replay_callback_context(option: &RowValue, buffer: &RowValue, context_option: u32) -> (u: ContextUpdate)
    ensures
        u == context_replay(option@, buffer@, context_option),
{
    let is_context = match option {
        RowValue::Integer(v) => *v == context_option as i64,
        _ => false,
    };
    if is_context {
        match buffer {
            RowValue::Integer(v) => ContextUpdate::SetTo(*v as usize),
            RowValue::Null => ContextUpdate::SetTo(0),
            RowValue::Text(t) => match base64_decode(t.as_str()) {
                Ok(b) => {
                    if b.len() >= core::mem::size_of::<usize>() {
                        ContextUpdate::SetTo(le_word(b.as_slice()))
                    } else {
                        ContextUpdate::Keep
                    }
                },
                Err(_) => ContextUpdate::Keep,
            },
            _ => ContextUpdate::Keep,
        }
    } else {
        ContextUpdate::Untouched
    }
}

/// The stored callback context after an update, `None` where none has been
/// created yet.
pub open spec fn context_after(current: Option<usize>, u: ContextUpdate) -> Option<usize> {
    match u {
        ContextUpdate::Untouched => current,
        ContextUpdate::Keep => match current {
            Some(c) => Some(c),
            None => Some(0usize),
        },
        ContextUpdate::SetTo(v) => Some(v),
    }
}

/// The stored callback context after an update.
pub fn apply_context_update(current: Option<usize>, u: ContextUpdate) -> (after: Option<usize>)
    ensures
        after == context_after(current, u),
{
    match u {
        ContextUpdate::Untouched => current,
        ContextUpdate::Keep => match current {
            Some(c) => Some(c),
            None => Some(0),
        },
        ContextUpdate::SetTo(v) => Some(v),
    }
}

/// Whether a recorded request handle can be turned back into a handle: it
/// must be an integer.
pub open spec fn is_integer(value: RowValueView) -> bool {
    value is Integer
}

/// Whether a value read back is an integer.
pub fn row_is_integer(value: &RowValue) -> (b: bool)
    ensures
        b == is_integer(value@),
{
    match value {
        RowValue::Integer(_) => true,
        _ => false,
    }
}

/// The handle recorded for a request, for the status notifications that a
/// replayed send or write raises on it.
pub fn replay_request_handle(value: &RowValue) -> (h: usize)
    requires
        is_integer(value@),
    ensures
        h == pointer_replay(value@),
{
    match value {
        RowValue::Integer(v) => *v as usize,
        _ => 0,
    }
}


/// What the database gives back of a value stored in it.
pub open spec fn stored(v: LogValueView) -> RowValueView {
    match v {
        LogValueView::Null => RowValueView::Null,
        LogValueView::Integer(i) => RowValueView::Integer(i),
        LogValueView::Text(t) => RowValueView::Text(t),
    }
}

/// A buffer recorded in its encoding and replayed into a buffer of the same
/// length gets back the bytes it held (UTF-16 less a last odd byte). For
/// UTF-8 it needs a buffer without NUL, as replay writes a C string.
pub proof fn lemma_buffer_round_trip(bytes: Seq<u8>, encoding: Encoding)
    requires
        buffer_encodable(bytes, encoding),
        bytes.len() <= u32::MAX,
        encoding == Encoding::Utf8 ==> !bytes.contains(0u8),
    ensures
        buffer_replayable(
            true,
            RowValueView::Text(buffer_text(bytes, encoding)),
            encoding,
            bytes.len() as u32,
        ),
        buffer_replay(true, RowValueView::Text(buffer_text(bytes, encoding)), encoding, bytes.len() as u32)
            == Some(
            if encoding == Encoding::Utf16 {
                bytes.subrange(0, 2 * (bytes.len() / 2) as int)
            } else {
                bytes
            },
        ),
{
    let len = bytes.len() as u32;
    match encoding {
        Encoding::Base64 => {
            lemma_base64_round_trip(bytes);
        },
        Encoding::Utf8 => {
            decode_utf8_encode_utf8(bytes);
            assert(c_string_bytes(decode_utf8(bytes)).take(len as int) =~= bytes);
        },
        Encoding::Utf16 => {
            let units = le_units(bytes);
            lemma_utf16_decode_then_encode(units);
            lemma_le_units_roundtrip(bytes);
            let w = wide_string_units(utf16_decode(units));
            assert(w == units.push(0u16));
            assert((len / 2) as int == units.len());
            assert(take_at_most(w, (len / 2) as int) =~= units);
        },
    }
}

/// A `*mut u32` argument recorded and replayed gets back its value.
pub proof fn lemma_u32_round_trip(x: u32)
    ensures
        u32_replay(true, stored(LogValueView::Integer(x as i64))) == Some(x),
{
}

/// A pointer recorded and replayed as a return value is the same pointer.
pub proof fn lemma_pointer_round_trip(addr: usize)
    ensures
        pointer_replay(stored(pointer_log(addr))) == addr,
{
    assert((addr as i64) as usize == addr) by (bit_vector);
}

/// A callback recorded and replayed as a return value is the same callback.
pub proof fn lemma_callback_round_trip(callback: Option<usize>)
    ensures
        callback_replay(
            stored(
                match callback {
                    None => LogValueView::Null,
                    Some(a) => LogValueView::Integer(a as i64),
                },
            ),
        ) == callback,
{
    if let Some(a) = callback {
        assert((a as i64) as usize == a) by (bit_vector);
    }
}

/// A success flag recorded as an integer and replayed is the same flag.
pub proof fn lemma_bool_round_trip(flag: i32)
    ensures
        bool_replay(stored(LogValueView::Integer(flag as i64))) == (flag != 0),
{
}


/// What replay writes into an output structure of `size` bytes.
#[derive(Debug, PartialEq, Eq)]
pub enum StructWrite {
    /// The structure pointer is null: nothing.
    Nothing,
    /// The first bytes recorded for it, as many as its size.
    Bytes(Vec<u8>),
    /// Nothing was recorded for it: its default value.
    Default,
}

/// Whether a recorded structure can be written back into an output
/// structure of `size` bytes: recorded text must be base64 of at least
/// `size` bytes, as replay copies the whole structure from it.
pub open spec fn struct_replayable(dest_present: bool, value: RowValueView, size: u32) -> bool {
    buffer_replayable(dest_present, value, Encoding::Base64, size)
}

/// What replay writes into an output structure of `size` bytes, from the
/// value recorded for it: the first `size` bytes its base64 text decodes
/// to, or the default structure where no text was recorded.
pub fn replay_struct(dest_present: bool, value: &RowValue, size: u32) -> (w: StructWrite)
    requires
        struct_replayable(dest_present, value@, size),
    ensures
        !dest_present ==> w == StructWrite::Nothing,
        dest_present && value@ is Text ==> (w matches StructWrite::Bytes(b) && buffer_replay(
            true,
            value@,
            Encoding::Base64,
            size,
        ) == Some(b@)),
        dest_present && !(value@ is Text) ==> w == StructWrite::Default,
{
    if !dest_present {
        return StructWrite::Nothing;
    }
    match value {
        RowValue::Text(_) => {
            match replay_buffer(true, value, Encoding::Base64, size) {
                Some(b) => StructWrite::Bytes(b),
                None => StructWrite::Nothing,
            }
        },
        _ => StructWrite::Default,
    }
}

} // verus!
