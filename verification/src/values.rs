//! The values that the hooks record and replay, and the conversions between
//! the arguments of a WinHttp call and the columns that hold them.
//!
//! A recorded argument is a [`LogValue`]; a column read back from the replay
//! database is a [`RowValue`]. Buffers are kept as text in one of three
//! [`Encoding`]s.
use vstd::prelude::*;
use vstd::utf8::{decode_utf8, encode_utf8, valid_utf8};
use crate::radix64::{base64_bytes, base64_text};
use crate::utf16::{
    decode_utf16, decode_utf16_or_empty, encode_utf16, is_valid_utf16, le_units, read_le_units,
    read_utf16_le, units_le_bytes, utf16_decode, utf16_encode, utf16_valid,
};

verus! {

/// How a buffer is kept as text in a column.
#[derive(Clone, Copy, Debug, PartialEq, Eq, Structural)]
pub enum Encoding {
    /// Standard base64, for binary data.
    Base64,
    /// The buffer holds UTF-8 text.
    Utf8,
    /// The buffer holds UTF-16 text in little-endian order.
    Utf16,
}

/// A value written to a column of the capture database.
#[derive(Debug, PartialEq, Eq)]
pub enum LogValue {
    Null,
    Integer(i64),
    Text(String),
}

/// A value read back from a column of the replay database. A floating-point
/// column stands as `Real`, whose number nothing here reads.
#[derive(Debug, PartialEq, Eq)]
pub enum RowValue {
    Null,
    Integer(i64),
    Real,
    Text(String),
    Blob(Vec<u8>),
}

/// The view of a recorded value: its kind and its payload.
pub enum LogValueView {
    Null,
    Integer(i64),
    Text(Seq<char>),
}

impl View for LogValue {
    type V = LogValueView;

    open spec fn view(&self) -> LogValueView {
        match self {
            LogValue::Null => LogValueView::Null,
            LogValue::Integer(i) => LogValueView::Integer(*i),
            LogValue::Text(s) => LogValueView::Text(s@),
        }
    }
}

impl LogValue {
    /// A copy of the value.
    pub fn copy(&self) -> (v: LogValue)
        ensures
            v@ == self@,
    {
        match self {
            LogValue::Null => LogValue::Null,
            LogValue::Integer(i) => LogValue::Integer(*i),
            LogValue::Text(t) => LogValue::Text(t.clone()),
        }
    }
}

/// The view of a value read back: its kind and its payload.
pub enum RowValueView {
    Null,
    Integer(i64),
    Real,
    Text(Seq<char>),
    Blob(Seq<u8>),
}

impl View for RowValue {
    type V = RowValueView;

    open spec fn view(&self) -> RowValueView {
        match self {
            RowValue::Null => RowValueView::Null,
            RowValue::Integer(i) => RowValueView::Integer(*i),
            RowValue::Real => RowValueView::Real,
            RowValue::Text(s) => RowValueView::Text(s@),
            RowValue::Blob(b) => RowValueView::Blob(b@),
        }
    }
}

#[verifier::external_type_specification]
#[verifier::external_body]
pub struct ExDecodeError(base64::DecodeError);

/// Encodes bytes with `base64::engine::general_purpose::STANDARD`
/// (`Engine::encode`): the standard alphabet, padded with `=`. The contract
/// claims that the text is the RFC 4648 base64 text of the bytes.
#[verifier::external_body]
fn base64_encode(bytes: &[u8]) -> (text: String)
    ensures
        text@ == base64_text(bytes@),
{
    base64::Engine::encode(&base64::engine::general_purpose::STANDARD, bytes)
}

/// Decodes text with `base64::engine::general_purpose::STANDARD`
/// (`Engine::decode`), which requires canonical padding and rejects set
/// trailing bits. The contract claims that it accepts exactly the texts
/// that are the base64 text of some bytes, and gives those bytes back.
#[verifier::external_body]
pub(crate) fn base64_decode(text: &str) -> (res: Result<Vec<u8>, base64::DecodeError>)
    ensures
        res is Ok <==> base64_bytes(text@) is Some,
        res matches Ok(bytes) ==> Some(bytes@) == base64_bytes(text@),
{
    base64::Engine::decode(&base64::engine::general_purpose::STANDARD, text)
}

/// The text of UTF-8 bytes, by `std::str::from_utf8`, which by its
/// documentation accepts exactly the valid UTF-8 sequences; `None` where it
/// reports an error.
#[verifier::external_body]
fn utf8_text(bytes: &[u8]) -> (res: Option<String>)
    ensures
        res is Some <==> valid_utf8(bytes@),
        res matches Some(s) ==> s@ == decode_utf8(bytes@),
{
    match std::str::from_utf8(bytes) {
        Ok(s) => Some(s.to_string()),
        Err(_) => None,
    }
}

/// Whether bytes are valid UTF-8.
pub fn is_valid_utf8(bytes: &[u8]) -> (ok: bool)
    ensures
        ok == valid_utf8(bytes@),
{
    utf8_text(bytes).is_some()
}

/// The text of valid UTF-8 bytes.
pub fn read_utf8(bytes: &[u8]) -> (s: String)
    requires
        valid_utf8(bytes@),
    ensures
        s@ == decode_utf8(bytes@),
{
    utf8_text(bytes).unwrap()
}

/// The column value of a pointer argument: `Null` for a null pointer, else
/// its address as an integer.
pub open spec fn pointer_log(addr: usize) -> LogValueView {
    if addr == 0 {
        LogValueView::Null
    } else {
        LogValueView::Integer(addr as i64)
    }
}

/// Records a pointer argument by its address.
pub fn pointer_value(addr: usize) -> (v: LogValue)
    ensures
        v@ == pointer_log(addr),
{
    if addr == 0 {
        LogValue::Null
    } else {
        LogValue::Integer(addr as i64)
    }
}

/// Records a `*mut u32` argument by the value it points to, or `Null` when
/// it is null (`None`).
pub fn u32_pointer_value(target: Option<u32>) -> (v: LogValue)
    ensures
        v@ == match target {
            None => LogValueView::Null,
            Some(x) => LogValueView::Integer(x as i64),
        },
{
    match target {
        None => LogValue::Null,
        Some(x) => LogValue::Integer(x as i64),
    }
}

/// Records a status-callback argument: `Null` for none, else the address of
/// the callback.
pub fn callback_value(callback: Option<usize>) -> (v: LogValue)
    ensures
        v@ == match callback {
            None => LogValueView::Null,
            Some(a) => LogValueView::Integer(a as i64),
        },
{
    match callback {
        None => LogValue::Null,
        Some(a) => LogValue::Integer(a as i64),
    }
}

/// Records an unsigned size argument as an integer.
pub fn usize_value(x: usize) -> (v: LogValue)
    ensures
        v@ == LogValueView::Integer(x as i64),
{
    LogValue::Integer(x as i64)
}

/// Records a wide-string argument: `Null` for a null string, else its text.
pub fn wide_string_value(units: Option<&[u16]>) -> (v: LogValue)
    requires
        units matches Some(u) ==> utf16_valid(u@),
    ensures
        v@ == match units {
            None => LogValueView::Null,
            Some(u) => LogValueView::Text(utf16_decode(u@)),
        },
{
    match units {
        None => LogValue::Null,
        Some(u) => LogValue::Text(decode_utf16(u)),
    }
}

/// Whether a wide-string argument can be recorded: it is null or well-formed.
pub fn wide_string_loggable(units: Option<&[u16]>) -> (ok: bool)
    ensures
        ok == (units matches Some(u) ==> utf16_valid(u@)),
{
    match units {
        None => true,
        Some(u) => is_valid_utf16(u),
    }
}

/// The text of a buffer kept in the given encoding.
pub open spec fn buffer_text(bytes: Seq<u8>, encoding: Encoding) -> Seq<char> {
    match encoding {
        Encoding::Base64 => base64_text(bytes),
        Encoding::Utf8 => decode_utf8(bytes),
        Encoding::Utf16 => utf16_decode(le_units(bytes)),
    }
}

/// Whether a buffer can be kept in the given encoding: UTF-8 text must be
/// valid UTF-8, UTF-16 text well-formed UTF-16.
pub open spec fn buffer_encodable(bytes: Seq<u8>, encoding: Encoding) -> bool {
    match encoding {
        Encoding::Base64 => true,
        Encoding::Utf8 => valid_utf8(bytes),
        Encoding::Utf16 => utf16_valid(le_units(bytes)),
    }
}

/// Whether a buffer argument can be recorded in the given encoding.
pub fn buffer_loggable(bytes: Option<&[u8]>, encoding: Encoding) -> (ok: bool)
    ensures
        ok == (bytes matches Some(b) ==> buffer_encodable(b@, encoding)),
{
    match bytes {
        None => true,
        Some(b) => match encoding {
            Encoding::Base64 => true,
            Encoding::Utf8 => utf8_text(b).is_some(),
            Encoding::Utf16 => {
                let units = read_le_units(b);
                is_valid_utf16(units.as_slice())
            },
        },
    }
}

/// Records a buffer argument: `Null` for a null buffer, else its bytes as
/// text in the given encoding.
pub fn buffer_value(bytes: Option<&[u8]>, encoding: Encoding) -> (v: LogValue)
    requires
        bytes matches Some(b) ==> buffer_encodable(b@, encoding),
    ensures
        v@ == match bytes {
            None => LogValueView::Null,
            Some(b) => LogValueView::Text(buffer_text(b@, encoding)),
        },
{
    match bytes {
        None => LogValue::Null,
        Some(b) => match encoding {
            Encoding::Base64 => LogValue::Text(base64_encode(b)),
            Encoding::Utf8 => LogValue::Text(utf8_text(b).unwrap()),
            Encoding::Utf16 => LogValue::Text(read_utf16_le(b)),
        },
    }
}


/// The text of wide-string units, or the empty text where they are not
/// well-formed.
pub open spec fn utf16_text_or_empty(units: Seq<u16>) -> Seq<char> {
    if utf16_valid(units) {
        utf16_decode(units)
    } else {
        seq![]
    }
}

/// Texts joined by ", ".
pub open spec fn join_comma(parts: Seq<Seq<char>>) -> Seq<char>
    decreases parts.len(),
{
    if parts.len() == 0 {
        seq![]
    } else if parts.len() == 1 {
        parts[0]
    } else {
        join_comma(parts.drop_last()) + ", "@ + parts.last()
    }
}

/// The texts of an array of wide strings, a string that is not well-formed
/// counting as empty.
pub open spec fn csv_parts(list: Seq<Vec<u16>>) -> Seq<Seq<char>> {
    Seq::new(list.len(), |i: int| utf16_text_or_empty(list[i]@))
}

/// Records a null-terminated array of wide strings (such as the accepted
/// media types of a request): `Null` for a null array, else the texts of its
/// strings joined by ", ", a string that is not well-formed counting as
/// empty.
pub fn to_csv(vals: Option<&[Vec<u16>]>) -> (v: LogValue)
    ensures
        vals is None ==> v@ == LogValueView::Null,
        vals matches Some(list) ==> v@ == LogValueView::Text(join_comma(csv_parts(list@))),
{
    match vals {
        None => LogValue::Null,
        Some(list) => {
            let ghost parts = csv_parts(list@);
            let mut out = String::new();
            let mut i: usize = 0;
            while i < list.len()
                invariant
                    0 <= i <= list@.len(),
                    parts == csv_parts(list@),
                    out@ == join_comma(parts.take(i as int)),
                decreases list.len() - i,
            {
                let text = decode_utf16_or_empty(list[i].as_slice());
                assert(text@ == parts[i as int]);
                if i > 0 {
                    out.append(", ");
                }
                out.append(text.as_str());
                assert(parts.take(i + 1).drop_last() =~= parts.take(i as int));
                assert(out@ =~= join_comma(parts.take(i + 1)));
                i = i + 1;
            }
            assert(parts.take(list@.len() as int) =~= parts);
            LogValue::Text(out)
        },
    }
}

/// The first `n` elements of a sequence, or all of it where it is shorter.
pub open spec fn take_at_most<T>(s: Seq<T>, n: int) -> Seq<T> {
    if n < s.len() {
        s.take(n)
    } else {
        s
    }
}

/// Within a sequence's length, cutting at most `n` elements cuts exactly `n`.
proof fn lemma_take_at_most_within<T>(s: Seq<T>, n: int)
    requires
        0 <= n <= s.len(),
    ensures
        take_at_most(s, n) == s.take(n),
{
    assert(s.take(s.len() as int) =~= s);
}

fn prefix_bytes(bytes: &[u8], n: usize) -> (out: Vec<u8>)
    ensures
        out@ == take_at_most(bytes@, n as int),
{
    let m = if n < bytes.len() { n } else { bytes.len() };
    let mut out: Vec<u8> = Vec::new();
    let mut i: usize = 0;
    while i < m
        invariant
            0 <= i <= m,
            m <= bytes@.len(),
            m == if n < bytes@.len() { n as int } else { bytes@.len() as int },
            out@ == bytes@.take(i as int),
        decreases m - i,
    {
        out.push(bytes[i]);
        assert(out@ =~= bytes@.take(i + 1));
        i = i + 1;
    }
    out
}

/// The UTF-8 bytes of a text followed by a NUL, as a C string holds them.
pub open spec fn c_string_bytes(text: Seq<char>) -> Seq<u8> {
    encode_utf8(text).push(0u8)
}

/// The UTF-16 units of a text followed by a NUL unit.
pub open spec fn wide_string_units(text: Seq<char>) -> Seq<u16> {
    utf16_encode(text).push(0u16)
}

/// Whether a recorded buffer can be written back into an output buffer of
/// `len` bytes. A null buffer is left alone, so any value does. Otherwise
/// base64 text must decode to at least `len` bytes, and UTF-8 text must hold
/// no NUL, as a C string cannot, and make a C string of at least `len`
/// bytes: replay copies exactly `len` bytes from what the text gives.
pub open spec fn buffer_replayable(dest_present: bool, value: RowValueView, encoding: Encoding, len: u32) -> bool {
    dest_present ==> match value {
        RowValueView::Text(t) => match encoding {
            Encoding::Base64 => base64_bytes(t) is Some && len <= base64_bytes(
                t,
            )->0.len(),
            Encoding::Utf8 => !encode_utf8(t).contains(0u8) && len <= c_string_bytes(t).len(),
            Encoding::Utf16 => true,
        },
        _ => true,
    }
}

/// The bytes that replay writes into an output buffer of `len` bytes, from
/// the value recorded for it; `None` where nothing is written.
///
/// Recorded text is written back in its encoding: base64 text as the first
/// `len` bytes it decodes to, UTF-8 text as the first `len` bytes of its C
/// string, UTF-16 text as a wide string with its NUL unit, cut to the
/// buffer's whole units. Where nothing was recorded, a buffer of more than
/// one byte gets an empty wide string.
pub open spec fn buffer_replay(dest_present: bool, value: RowValueView, encoding: Encoding, len: u32) -> Option<Seq<u8>> {
    if !dest_present {
        None
    } else {
        match value {
            RowValueView::Text(t) => Some(
                match encoding {
                    Encoding::Base64 => base64_bytes(t)->0.take(len as int),
                    Encoding::Utf8 => c_string_bytes(t).take(len as int),
                    Encoding::Utf16 => units_le_bytes(
                        take_at_most(wide_string_units(t), (len / 2) as int),
                    ),
                },
            ),
            _ => if len > 1 {
                Some(seq![0u8, 0u8])
            } else {
                None
            },
        }
    }
}

fn utf8_bytes(s: &String) -> (out: Vec<u8>)
    ensures
        out@ == encode_utf8(s@),
{
    let b = s.as_str().as_bytes();
    let mut out: Vec<u8> = Vec::new();
    let mut i: usize = 0;
    while i < b.len()
        invariant
            0 <= i <= b@.len(),
            b@ == encode_utf8(s@),
            out@ == b@.take(i as int),
        decreases b.len() - i,
    {
        out.push(b[i]);
        assert(out@ =~= b@.take(i + 1));
        i = i + 1;
    }
    assert(b@.take(b@.len() as int) =~= b@);
    out
}

fn le_bytes_of_units(units: &[u16]) -> (out: Vec<u8>)
    ensures
        out@ == units_le_bytes(units@),
{
    let mut out: Vec<u8> = Vec::new();
    let mut i: usize = 0;
    while i < units.len()
        invariant
            0 <= i <= units@.len(),
            out@.len() == 2 * i,
            forall|j: int| 0 <= j < 2 * i ==> out@[j] == units_le_bytes(units@)[j],
        decreases units.len() - i,
    {
        let u = units[i];
        out.push((u % 256) as u8);
        out.push((u / 256) as u8);
        assert forall|j: int| 0 <= j < 2 * (i + 1) implies out@[j] == units_le_bytes(units@)[j] by {
            if j >= 2 * i {
                assert(j == 2 * i || j == 2 * i + 1);
                assert((2 * i) / 2 == i && (2 * i + 1) / 2 == i && (2 * i) % 2 == 0 && (2 * i + 1) % 2 == 1);
            }
        }
        i = i + 1;
    }
    assert(out@ =~= units_le_bytes(units@));
    out
}

fn has_nul(b: &[u8]) -> (r: bool)
    ensures
        r == b@.contains(0u8),
{
    let mut i: usize = 0;
    while i < b.len()
        invariant
            0 <= i <= b@.len(),
            forall|j: int| 0 <= j < i ==> b@[j] != 0u8,
        decreases b.len() - i,
    {
        if b[i] == 0 {
            assert(b@[i as int] == 0u8);
            return true;
        }
        i = i + 1;
    }
    false
}

/// Whether a recorded buffer value can be written back in the given
/// encoding into an output buffer of `len` bytes, present or not.
pub fn buffer_replay_ok(dest_present: bool, value: &RowValue, encoding: Encoding, len: u32) -> (ok: bool)
    ensures
        ok == buffer_replayable(dest_present, value@, encoding, len),
{
    if !dest_present {
        return true;
    }
    match value {
        RowValue::Text(t) => match encoding {
            Encoding::Base64 => match base64_decode(t.as_str()) {
                Ok(decoded) => len as usize <= decoded.len(),
                Err(_) => false,
            },
            Encoding::Utf8 => {
                let b = utf8_bytes(t);
                if has_nul(b.as_slice()) {
                    false
                } else {
                    (len as usize) <= b.len() || (len as usize) - b.len() == 1
                }
            },
            Encoding::Utf16 => true,
        },
        _ => true,
    }
}

/// The little-endian bytes of a text as a NUL-terminated wide string, cut
/// to at most `max_units` code units.
pub fn wide_string_bytes(source: &str, max_units: usize) -> (out: Vec<u8>)
    ensures
        out@ == units_le_bytes(take_at_most(wide_string_units(source@), max_units as int)),
{
    let mut units = encode_utf16(source);
    units.push(0u16);
    let n = if max_units < units.len() { max_units } else { units.len() };
    let mut kept: Vec<u16> = Vec::new();
    let mut i: usize = 0;
    while i < n
        invariant
            0 <= i <= n,
            n <= units@.len(),
            kept@ == units@.take(i as int),
        decreases n - i,
    {
        kept.push(units[i]);
        assert(kept@ =~= units@.take(i + 1));
        i = i + 1;
    }
    assert(kept@ =~= take_at_most(units@, max_units as int));
    le_bytes_of_units(kept.as_slice())
}

/// The bytes of a text as a C string, cut to at most `max_len` bytes, or
/// nothing where the text holds a NUL and so cannot be a C string.
pub fn c_string_prefix(source: &str, max_len: usize) -> (out: Option<Vec<u8>>)
    ensures
        encode_utf8(source@).contains(0u8) ==> out is None,
        !encode_utf8(source@).contains(0u8) ==> (out matches Some(b) && b@ == take_at_most(
            c_string_bytes(source@),
            max_len as int,
        )),
{
    let owned = String::from_str(source);
    let mut b = utf8_bytes(&owned);
    if has_nul(b.as_slice()) {
        None
    } else {
        b.push(0u8);
        Some(prefix_bytes(b.as_slice(), max_len))
    }
}

/// The bytes to write back into an output buffer of `len` bytes from the
/// value recorded for it, or `None` where nothing is written; see
/// [`buffer_replay`].
pub fn replay_buffer(dest_present: bool, value: &RowValue, encoding: Encoding, len: u32) -> (out: Option<Vec<u8>>)
    requires
        buffer_replayable(dest_present, value@, encoding, len),
    ensures
        match out {
            None => buffer_replay(dest_present, value@, encoding, len) is None,
            Some(b) => buffer_replay(dest_present, value@, encoding, len) == Some(b@),
        },
{
    if !dest_present {
        return None;
    }
    match value {
        RowValue::Text(t) => match encoding {
            Encoding::Base64 => {
                match base64_decode(t.as_str()) {
                    Ok(decoded) => {
                        proof {
                            lemma_take_at_most_within(decoded@, len as int);
                        }
                        Some(prefix_bytes(decoded.as_slice(), len as usize))
                    },
                    Err(_) => None,
                }
            },
            Encoding::Utf8 => {
                proof {
                    lemma_take_at_most_within(c_string_bytes(t@), len as int);
                }
                c_string_prefix(t.as_str(), len as usize)
            },
            Encoding::Utf16 => Some(wide_string_bytes(t.as_str(), (len / 2) as usize)),
        },
        _ => {
            if len > 1 {
                let mut z: Vec<u8> = Vec::new();
                z.push(0u8);
                z.push(0u8);
                assert(z@ =~= seq![0u8, 0u8]);
                Some(z)
            } else {
                None
            }
        },
    }
}

} // verus!
