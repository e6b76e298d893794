//! Standard base64 (RFC 4648, section 4): the text that each three bytes
//! become, with `=` padding at the end, and the bytes a text stands for.
use vstd::prelude::*;

verus! {

/// The character of the standard alphabet for a six-bit value.
pub open spec fn symbol(v: int) -> char {
    if v < 26 {
        (65 + v) as char
    } else if v < 52 {
        (97 + v - 26) as char
    } else if v < 62 {
        (48 + v - 52) as char
    } else if v == 62 {
        '+'
    } else {
        '/'
    }
}

/// The standard base64 text of some bytes, padded with `=` to a multiple
/// of four characters.
pub open spec fn base64_text(bytes: Seq<u8>) -> Seq<char>
    decreases bytes.len(),
{
    if bytes.len() == 0 {
        seq![]
    } else if bytes.len() == 1 {
        let b0 = bytes[0] as int;
        seq![symbol(b0 / 4), symbol((b0 % 4) * 16), '=', '=']
    } else if bytes.len() == 2 {
        let b0 = bytes[0] as int;
        let b1 = bytes[1] as int;
        seq![symbol(b0 / 4), symbol((b0 % 4) * 16 + b1 / 16), symbol((b1 % 16) * 4), '=']
    } else {
        let b0 = bytes[0] as int;
        let b1 = bytes[1] as int;
        let b2 = bytes[2] as int;
        seq![
            symbol(b0 / 4),
            symbol((b0 % 4) * 16 + b1 / 16),
            symbol((b1 % 16) * 4 + b2 / 64),
            symbol(b2 % 64),
        ] + base64_text(bytes.skip(3))
    }
}

/// The bytes whose standard base64 text is `text`, or `None` where no
/// bytes have it: the standard engine takes padded, canonical text only.
pub open spec fn base64_bytes(text: Seq<char>) -> Option<Seq<u8>> {
    if exists|b: Seq<u8>| base64_text(b) == text {
        Some(choose|b: Seq<u8>| base64_text(b) == text)
    } else {
        None
    }
}

proof fn lemma_symbol_injective(v: int, w: int)
    requires
        0 <= v < 64,
        0 <= w < 64,
        symbol(v) == symbol(w),
    ensures
        v == w,
{
}

proof fn lemma_symbol_not_pad(v: int)
    requires
        0 <= v < 64,
    ensures
        symbol(v) != '=',
{
}

proof fn lemma_text_len(bytes: Seq<u8>)
    ensures
        base64_text(bytes).len() == 4 * ((bytes.len() + 2) / 3),
    decreases bytes.len(),
{
    if bytes.len() >= 3 {
        lemma_text_len(bytes.skip(3));
    }
}

/// Different bytes have different base64 texts.
pub proof fn lemma_base64_text_injective(a: Seq<u8>, b: Seq<u8>)
    requires
        base64_text(a) == base64_text(b),
    ensures
        a == b,
    decreases a.len(),
{
    lemma_text_len(a);
    lemma_text_len(b);
    let ta = base64_text(a);
    let tb = base64_text(b);
    if a.len() == 0 || b.len() == 0 {
        assert(a.len() == 0 && b.len() == 0);
        assert(a =~= b);
    } else {
        let a0 = a[0] as int;
        let b0 = b[0] as int;
        assert(ta[0] == tb[0]);
        lemma_symbol_injective(a0 / 4, b0 / 4);
        if a.len() == 1 || b.len() == 1 || a.len() == 2 || b.len() == 2 {
            // the padding shows how many bytes the last group holds
            assert(ta.len() == 4 && tb.len() == 4);
            assert(ta[2] == tb[2] && ta[3] == tb[3] && ta[1] == tb[1]);
            if a.len() == 1 {
                assert(ta[2] == '=');
                if b.len() >= 2 {
                    lemma_symbol_not_pad((b[1] as int % 16) * 4 + (if b.len() >= 3 { b[2] as int / 64 } else { 0 }));
                }
                assert(b.len() == 1);
                lemma_symbol_injective((a0 % 4) * 16, (b0 % 4) * 16);
                assert(a =~= b);
            } else if b.len() == 1 {
                assert(tb[2] == '=');
                lemma_symbol_not_pad((a[1] as int % 16) * 4 + (if a.len() >= 3 { a[2] as int / 64 } else { 0 }));
                assert(false);
            } else if a.len() == 2 {
                assert(ta[3] == '=');
                if b.len() >= 3 {
                    lemma_symbol_not_pad(b[2] as int % 64);
                }
                assert(b.len() == 2);
                let a1 = a[1] as int;
                let b1 = b[1] as int;
                lemma_symbol_injective((a0 % 4) * 16 + a1 / 16, (b0 % 4) * 16 + b1 / 16);
                lemma_symbol_injective((a1 % 16) * 4, (b1 % 16) * 4);
                assert(a =~= b);
            } else {
                assert(tb[3] == '=');
                lemma_symbol_not_pad(a[2] as int % 64);
                assert(false);
            }
        } else {
            let a1 = a[1] as int;
            let b1 = b[1] as int;
            let a2 = a[2] as int;
            let b2 = b[2] as int;
            assert(ta[1] == tb[1] && ta[2] == tb[2] && ta[3] == tb[3]);
            lemma_symbol_injective((a0 % 4) * 16 + a1 / 16, (b0 % 4) * 16 + b1 / 16);
            lemma_symbol_injective((a1 % 16) * 4 + a2 / 64, (b1 % 16) * 4 + b2 / 64);
            lemma_symbol_injective(a2 % 64, b2 % 64);
            assert(a0 == b0 && a1 == b1 && a2 == b2);
            assert(ta.skip(4) =~= base64_text(a.skip(3)));
            assert(tb.skip(4) =~= base64_text(b.skip(3)));
            lemma_base64_text_injective(a.skip(3), b.skip(3));
            assert(a =~= seq![a[0], a[1], a[2]] + a.skip(3));
            assert(b =~= seq![b[0], b[1], b[2]] + b.skip(3));
        }
    }
}

/// The bytes a base64 text stands for are those it was made of.
pub proof fn lemma_base64_round_trip(bytes: Seq<u8>)
    ensures
        base64_bytes(base64_text(bytes)) == Some(bytes),
{
    let t = base64_text(bytes);
    assert(base64_text(bytes) == t);
    let c = choose|b: Seq<u8>| base64_text(b) == t;
    lemma_base64_text_injective(c, bytes);
}

} // verus!
