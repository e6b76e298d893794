//! UTF-16: decoding the wide strings that WinHttp takes and gives, and
//! encoding text back into them.
use vstd::prelude::*;
use vstd::utf8::is_scalar;

verus! {

/// Whether a code unit is a leading (high) surrogate.
pub open spec fn is_high_surrogate(u: u16) -> bool {
    0xD800 <= u <= 0xDBFF
}

/// Whether a code unit is a trailing (low) surrogate.
pub open spec fn is_low_surrogate(u: u16) -> bool {
    0xDC00 <= u <= 0xDFFF
}

/// The scalar value that a surrogate pair stands for.
pub open spec fn pair_value(high: u16, low: u16) -> u32 {
    (0x10000 + (high - 0xD800) * 1024 + (low - 0xDC00)) as u32
}

/// Whether a sequence of code units is well-formed UTF-16: every high
/// surrogate is followed by a low one, and no low surrogate stands alone.
pub open spec fn utf16_valid(units: Seq<u16>) -> bool
    decreases units.len(),
{
    if units.len() == 0 {
        true
    } else if is_high_surrogate(units[0]) {
        units.len() >= 2 && is_low_surrogate(units[1]) && utf16_valid(units.skip(2))
    } else if is_low_surrogate(units[0]) {
        false
    } else {
        utf16_valid(units.skip(1))
    }
}

/// The characters that well-formed UTF-16 code units stand for.
pub open spec fn utf16_decode(units: Seq<u16>) -> Seq<char>
    decreases units.len(),
{
    if units.len() == 0 {
        seq![]
    } else if is_high_surrogate(units[0]) && units.len() >= 2 {
        seq![pair_value(units[0], units[1]) as char] + utf16_decode(units.skip(2))
    } else {
        seq![(units[0] as u32) as char] + utf16_decode(units.skip(1))
    }
}

/// The UTF-16 code units of one character.
pub open spec fn encode_char(c: char) -> Seq<u16> {
    let v = c as u32;
    if v < 0x10000 {
        seq![v as u16]
    } else {
        seq![(0xD800 + (v - 0x10000) / 1024) as u16, (0xDC00 + (v - 0x10000) % 1024) as u16]
    }
}

/// The UTF-16 code units of a sequence of characters.
pub open spec fn utf16_encode(cs: Seq<char>) -> Seq<u16>
    decreases cs.len(),
{
    if cs.len() == 0 {
        seq![]
    } else {
        encode_char(cs[0]) + utf16_encode(cs.drop_first())
    }
}

/// The character with the given scalar value, if there is one.
///
/// Calls `char::from_u32`, which by its documentation returns `None`
/// exactly for values that are not Unicode scalar values (surrogates and
/// values past 0x10FFFF), and otherwise the character of that value.
#[verifier::external_body]
fn char_from_u32(v: u32) -> (c: Option<char>)
    ensures
        c is Some <==> is_scalar(v),
        c matches Some(ch) ==> ch as u32 == v,
{
    char::from_u32(v)
}

/// Appends a character to a string.
///
/// Calls `String::push`, which appends the character to the end of the
/// string.
#[verifier::external_body]
pub(crate) fn push_char(s: &mut String, c: char)
    ensures
        final(s)@ == old(s)@.push(c),
{
    s.push(c)
}

proof fn lemma_scalar_char(v: u32, c: char)
    requires
        c as u32 == v,
    ensures
        v as char == c,
{
    vstd::utf8::char_u32_cast(c, v);
}

/// Whether the code units are well-formed UTF-16.
pub fn is_valid_utf16(units: &[u16]) -> (ok: bool)
    ensures
        ok == utf16_valid(units@),
{
    let n = units.len();
    let mut i: usize = 0;
    assert(units@.subrange(0, n as int) =~= units@);
    while i < n
        invariant
            0 <= i <= n,
            n == units@.len(),
            utf16_valid(units@) == utf16_valid(units@.subrange(i as int, n as int)),
        decreases n - i,
    {
        let ghost rest = units@.subrange(i as int, n as int);
        let u = units[i];
        if 0xD800 <= u && u <= 0xDBFF {
            if i + 1 < n && 0xDC00 <= units[i + 1] && units[i + 1] <= 0xDFFF {
                assert(rest.skip(2) =~= units@.subrange(i + 2, n as int));
                i = i + 2;
            } else {
                return false;
            }
        } else if 0xDC00 <= u && u <= 0xDFFF {
            return false;
        } else {
            assert(rest.skip(1) =~= units@.subrange(i + 1, n as int));
            i = i + 1;
        }
    }
    assert(units@.subrange(n as int, n as int) =~= Seq::<u16>::empty());
    true
}

/// The text that well-formed UTF-16 code units stand for.
pub fn decode_utf16(units: &[u16]) -> (s: String)
    requires
        utf16_valid(units@),
    ensures
        s@ == utf16_decode(units@),
{
    let n = units.len();
    let mut out = String::new();
    let mut i: usize = 0;
    assert(units@.subrange(0, n as int) =~= units@);
    assert(out@ + utf16_decode(units@) =~= utf16_decode(units@));
    while i < n
        invariant
            0 <= i <= n,
            n == units@.len(),
            utf16_valid(units@.subrange(i as int, n as int)),
            out@ + utf16_decode(units@.subrange(i as int, n as int)) == utf16_decode(units@),
        decreases n - i,
    {
        let ghost rest = units@.subrange(i as int, n as int);
        let u = units[i];
        if 0xD800 <= u && u <= 0xDBFF {
            let low = units[i + 1];
            let v: u32 = 0x10000 + ((u - 0xD800) as u32) * 1024 + ((low - 0xDC00) as u32);
            assert(v == pair_value(u, low));
            assert(is_scalar(v));
            let c = char_from_u32(v).unwrap();
            proof {
                lemma_scalar_char(v, c);
                assert(rest.skip(2) =~= units@.subrange(i + 2, n as int));
                assert(utf16_decode(rest) == seq![c] + utf16_decode(rest.skip(2)));
            }
            push_char(&mut out, c);
            assert(out@ + utf16_decode(units@.subrange(i + 2, n as int)) =~= utf16_decode(units@));
            i = i + 2;
        } else {
            let v: u32 = u as u32;
            assert(is_scalar(v));
            let c = char_from_u32(v).unwrap();
            proof {
                lemma_scalar_char(v, c);
                assert(rest.skip(1) =~= units@.subrange(i + 1, n as int));
                assert(utf16_decode(rest) == seq![c] + utf16_decode(rest.skip(1)));
            }
            push_char(&mut out, c);
            assert(out@ + utf16_decode(units@.subrange(i + 1, n as int)) =~= utf16_decode(units@));
            i = i + 1;
        }
    }
    assert(units@.subrange(n as int, n as int) =~= Seq::<u16>::empty());
    assert(out@ + Seq::<char>::empty() =~= out@);
    out
}


proof fn lemma_encode_push(cs: Seq<char>, c: char)
    ensures
        utf16_encode(cs.push(c)) == utf16_encode(cs) + encode_char(c),
    decreases cs.len(),
{
    if cs.len() == 0 {
        assert(cs.push(c).drop_first() =~= Seq::<char>::empty());
        assert(cs.push(c)[0] == c);
        assert(utf16_encode(cs.push(c).drop_first()) == Seq::<u16>::empty());
        assert(utf16_encode(cs) == Seq::<u16>::empty());
        assert(utf16_encode(cs.push(c)) =~= utf16_encode(cs) + encode_char(c));
    } else {
        assert(cs.push(c).drop_first() =~= cs.drop_first().push(c));
        lemma_encode_push(cs.drop_first(), c);
        assert(utf16_encode(cs.push(c)) =~= utf16_encode(cs) + encode_char(c));
    }
}

/// The UTF-16 code units of a text.
pub fn encode_utf16(s: &str) -> (units: Vec<u16>)
    ensures
        units@ == utf16_encode(s@),
{
    let mut out: Vec<u16> = Vec::new();
    let ghost cs = s@;
    for c in it: s.chars()
        invariant
            it.seq() == cs,
            out@ == utf16_encode(cs.take(it.index() as int)),
    {
        let ghost i = it.index() as int;
        let v = c as u32;
        if v < 0x10000 {
            out.push(v as u16);
        } else {
            let w = v - 0x10000;
            out.push((0xD800 + w / 1024) as u16);
            out.push((0xDC00 + w % 1024) as u16);
        }
        proof {
            assert(cs.take(i + 1) =~= cs.take(i).push(c));
            lemma_encode_push(cs.take(i), c);
        }
        assert(out@ =~= utf16_encode(cs.take(i + 1)));
    }
    assert(cs.take(cs.len() as int) =~= cs);
    out
}


proof fn lemma_encode_char_decodes(c: char, rest: Seq<u16>)
    ensures
        utf16_valid(encode_char(c) + rest) == utf16_valid(rest),
        utf16_decode(encode_char(c) + rest) == seq![c] + utf16_decode(rest),
{
    let v = c as u32;
    vstd::utf8::char_is_scalar(c);
    let e = encode_char(c) + rest;
    if v < 0x10000 {
        assert(e.skip(1) =~= rest);
        assert(!is_high_surrogate(e[0]) && !is_low_surrogate(e[0]));
        assert((e[0] as u32) == v);
        lemma_scalar_char(v, c);
    } else {
        let w = v - 0x10000;
        let h = (0xD800 + w / 1024) as u16;
        let l = (0xDC00 + w % 1024) as u16;
        assert(0 <= w / 1024 <= 0x3FF && 0 <= w % 1024 < 1024 && (w / 1024) * 1024 + w % 1024 == w)
            by (nonlinear_arith)
            requires
                0 <= w <= 0xFFFFF,
        ;
        assert(e[0] == h && e[1] == l);
        assert(e.skip(2) =~= rest);
        assert(pair_value(h, l) == v);
        lemma_scalar_char(v, c);
    }
}

/// Encoding text in UTF-16 gives well-formed code units, and decoding them
/// gives the text back.
pub proof fn lemma_utf16_encode_then_decode(cs: Seq<char>)
    ensures
        utf16_valid(utf16_encode(cs)),
        utf16_decode(utf16_encode(cs)) == cs,
    decreases cs.len(),
{
    if cs.len() == 0 {
        assert(utf16_encode(cs) =~= Seq::<u16>::empty());
    } else {
        lemma_utf16_encode_then_decode(cs.drop_first());
        lemma_encode_char_decodes(cs[0], utf16_encode(cs.drop_first()));
        assert(seq![cs[0]] + cs.drop_first() =~= cs);
    }
}

/// Decoding well-formed UTF-16 and encoding the text again gives back the
/// same code units.
pub proof fn lemma_utf16_decode_then_encode(units: Seq<u16>)
    requires
        utf16_valid(units),
    ensures
        utf16_encode(utf16_decode(units)) == units,
    decreases units.len(),
{
    if units.len() == 0 {
        assert(utf16_decode(units) =~= Seq::<char>::empty());
    } else if is_high_surrogate(units[0]) {
        let v = pair_value(units[0], units[1]);
        let rest = units.skip(2);
        lemma_utf16_decode_then_encode(rest);
        assert(0x10000 <= v <= 0x10FFFF);
        assert(is_scalar(v));
        let c = v as char;
        assert(c as u32 == v);
        let ds = utf16_decode(units);
        assert(ds[0] == c);
        assert(ds.drop_first() =~= utf16_decode(rest));
        let w = v - 0x10000;
        assert(w / 1024 == units[0] - 0xD800 && w % 1024 == units[1] - 0xDC00) by (nonlinear_arith)
            requires
                w == (units[0] - 0xD800) * 1024 + (units[1] - 0xDC00),
                0 <= units[1] - 0xDC00 < 1024,
                0 <= units[0] - 0xD800,
        ;
        assert(encode_char(c) =~= units.subrange(0, 2));
        assert(units.subrange(0, 2) + rest =~= units);
    } else {
        let rest = units.skip(1);
        lemma_utf16_decode_then_encode(rest);
        let v = units[0] as u32;
        assert(is_scalar(v));
        let c = v as char;
        assert(c as u32 == v);
        let ds = utf16_decode(units);
        assert(ds[0] == c);
        assert(ds.drop_first() =~= utf16_decode(rest));
        assert(encode_char(c) =~= units.subrange(0, 1));
        assert(units.subrange(0, 1) + rest =~= units);
    }
}


/// The 16-bit little-endian code units of a byte buffer; a last odd byte is
/// left out.
pub open spec fn le_units(bytes: Seq<u8>) -> Seq<u16> {
    Seq::new(bytes.len() / 2, |i: int| (bytes[2 * i] + 256 * bytes[2 * i + 1]) as u16)
}

/// The little-endian bytes of a sequence of 16-bit code units.
pub open spec fn units_le_bytes(units: Seq<u16>) -> Seq<u8> {
    Seq::new(
        2 * units.len(),
        |j: int|
            if j % 2 == 0 {
                (units[j / 2] % 256) as u8
            } else {
                (units[j / 2] / 256) as u8
            },
    )
}

/// Groups a byte buffer into 16-bit little-endian code units.
pub fn read_le_units(bytes: &[u8]) -> (units: Vec<u16>)
    ensures
        units@ == le_units(bytes@),
{
    let n = bytes.len() / 2;
    let ghost len = bytes@.len();
    assert(2 * n <= len) by (nonlinear_arith)
        requires
            n == len / 2,
    ;
    let mut out: Vec<u16> = Vec::new();
    let mut i: usize = 0;
    while i < n
        invariant
            0 <= i <= n,
            n == bytes@.len() / 2,
            2 * n <= bytes.len(),
            out@.len() == i,
            forall|k: int| 0 <= k < i ==> out@[k] == (bytes@[2 * k] + 256 * bytes@[2 * k + 1]) as u16,
        decreases n - i,
    {
        let lo = bytes[2 * i];
        let hi = bytes[2 * i + 1];
        out.push(lo as u16 + (hi as u16) * 256);
        i = i + 1;
    }
    assert(out@ =~= le_units(bytes@));
    out
}

/// The text of a byte buffer that holds UTF-16 in little-endian order; a
/// last odd byte is left out.
pub fn read_utf16_le(bytes: &[u8]) -> (s: String)
    requires
        utf16_valid(le_units(bytes@)),
    ensures
        s@ == utf16_decode(le_units(bytes@)),
{
    let units = read_le_units(bytes);
    decode_utf16(units.as_slice())
}

/// The text of UTF-16 code units, or the empty text where they are not
/// well-formed.
pub fn decode_utf16_or_empty(units: &[u16]) -> (s: String)
    ensures
        utf16_valid(units@) ==> s@ == utf16_decode(units@),
        !utf16_valid(units@) ==> s@ == Seq::<char>::empty(),
{
    if is_valid_utf16(units) {
        decode_utf16(units)
    } else {
        String::new()
    }
}

/// Splitting bytes into little-endian units and writing the units back as
/// bytes gives the bytes back, less a last odd byte.
pub proof fn lemma_le_units_roundtrip(bytes: Seq<u8>)
    ensures
        units_le_bytes(le_units(bytes)) == bytes.subrange(0, 2 * (bytes.len() / 2) as int),
{
    let u = le_units(bytes);
    let b = units_le_bytes(u);
    assert forall|j: int| 0 <= j < b.len() implies b[j] == bytes[j] by {
        let i = j / 2;
        let m = bytes.len() / 2;
        assert(0 <= i < m) by (nonlinear_arith)
            requires
                0 <= j < 2 * m,
                i == j / 2,
        ;
        let lo = bytes[2 * i];
        let hi = bytes[2 * i + 1];
        assert(u[i] == lo + 256 * hi);
        assert(j == 2 * i || j == 2 * i + 1);
        assert((lo + 256 * hi) % 256 == lo && (lo + 256 * hi) / 256 == hi) by (nonlinear_arith)
            requires
                0 <= lo < 256,
                0 <= hi < 256,
        ;
    }
    assert(b =~= bytes.subrange(0, 2 * (bytes.len() / 2) as int));
}

} // verus!
