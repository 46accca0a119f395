//! Percent encoding of path segments.
use vstd::prelude::*;
use vstd::string::*;
use vstd::utf8;

verus! {

/// The upper case hexadecimal digit of a number below sixteen.
pub open spec fn hex_upper(d: int) -> char {
    if d < 10 {
        (48 + d) as char
    } else {
        (55 + d) as char
    }
}

/// The escape of a byte: a percent sign and two hexadecimal digits.
pub open spec fn escaped_byte(b: u8) -> Seq<char> {
    seq!['%', hex_upper(b as int / 16), hex_upper(b as int % 16)]
}

/// The value of a hexadecimal digit, in either case.
pub open spec fn hex_value(b: u8) -> Option<int> {
    if 48 <= b <= 57 {
        Some(b - 48)
    } else if 65 <= b <= 70 {
        Some(b - 55)
    } else if 97 <= b <= 102 {
        Some(b - 87)
    } else {
        None
    }
}

/// The bytes that a percent-encoded text stands for.
pub open spec fn percent_decode(s: Seq<u8>) -> Seq<u8>
    decreases s.len(),
{
    if s.len() == 0 {
        Seq::empty()
    } else if s[0] == 37 && s.len() >= 3 && hex_value(s[1]) is Some && hex_value(s[2]) is Some {
        seq![(hex_value(s[1])->0 * 16 + hex_value(s[2])->0) as u8] + percent_decode(s.skip(3))
    } else {
        seq![s[0]] + percent_decode(s.drop_first())
    }
}

/// The bytes that are escaped in a path segment: controls, everything beyond
/// ASCII, the space and `" # $ % & + , / : ; < = > ? @ [ \ ] ^ { | }` with the
/// grave accent.
pub open spec fn is_escaped(b: u8) -> bool {
    ||| b <= 32
    ||| 34 <= b <= 38
    ||| b == 43
    ||| b == 44
    ||| b == 47
    ||| 58 <= b <= 64
    ||| 91 <= b <= 94
    ||| b == 96
    ||| 123 <= b <= 125
    ||| b >= 127
}

/// The percent encoding of a byte.
pub open spec fn encoded_byte(b: u8) -> Seq<char> {
    if is_escaped(b) {
        escaped_byte(b)
    } else {
        seq![b as char]
    }
}

/// The percent encoding of a sequence of bytes.
pub open spec fn encoded_bytes(s: Seq<u8>) -> Seq<char>
    decreases s.len(),
{
    if s.len() == 0 {
        Seq::empty()
    } else {
        encoded_bytes(s.drop_last()) + encoded_byte(s.last())
    }
}

/// The percent encoding of a text.
pub open spec fn encoded_component(s: Seq<char>) -> Seq<char> {
    encoded_bytes(utf8::encode_utf8(s))
}

/// Whether a byte is escaped in a path segment.
fn needs_escape(b: u8) -> (r: bool)
    ensures
        r == is_escaped(b),
{
    b <= 32 || (34 <= b && b <= 38) || b == 43 || b == 44 || b == 47 || (58 <= b && b <= 64) || (91
        <= b && b <= 94) || b == 96 || (123 <= b && b <= 125) || b >= 127
}

/// The percent encoding of a text.
pub fn encode_component(s: &str) -> (r: String)
    ensures
        r@ == encoded_component(s@),
{
    let bytes = s.as_bytes();
    let mut out = String::new();
    for i in 0..bytes.len()
        invariant
            out@ == encoded_bytes(bytes@.take(i as int)),
    {
        let b = bytes[i];
        let ghost next = bytes@.take(i + 1);
        assert(next.drop_last() == bytes@.take(i as int));
        if needs_escape(b) {
            out.append(percent_encoding::percent_encode_byte(b));
        } else {
            let ghost before = out@;
            out.push(b as char);
            assert(out@ == before + seq![b as char]);
        }
    }
    assert(bytes@.take(bytes@.len() as int) == bytes@);
    out
}

/// ASCII text as bytes.
pub open spec fn ascii_bytes(s: Seq<char>) -> Seq<u8> {
    s.map_values(|c: char| c as u8)
}

/// The UTF-8 encoding of two texts in a row is that of one after the other.
pub proof fn lemma_utf8_concat(a: Seq<char>, b: Seq<char>)
    ensures
        utf8::encode_utf8(a + b) == utf8::encode_utf8(a) + utf8::encode_utf8(b),
    decreases a.len(),
{
    if a.len() == 0 {
        assert(a + b == b);
        assert(utf8::encode_utf8(a) == Seq::<u8>::empty());
    } else {
        assert((a + b).drop_first() == a.drop_first() + b);
        lemma_utf8_concat(a.drop_first(), b);
    }
}

/// Percent encoding gives ASCII text.
pub proof fn lemma_encoded_ascii(s: Seq<u8>)
    ensures
        utf8::is_ascii_chars(encoded_bytes(s)),
        utf8::encode_utf8(encoded_bytes(s)) == ascii_bytes(encoded_bytes(s)),
    decreases s.len(),
{
    let e = encoded_bytes(s);
    if s.len() > 0 {
        lemma_encoded_ascii(s.drop_last());
        let last = encoded_byte(s.last());
        assert(utf8::is_ascii_chars(last));
        assert forall|i: int| 0 <= i < e.len() implies (#[trigger] e[i] as nat) < 128 by {
            if i < encoded_bytes(s.drop_last()).len() {
                assert(e[i] == encoded_bytes(s.drop_last())[i]);
            } else {
                assert(e[i] == last[i - encoded_bytes(s.drop_last()).len()]);
            }
        }
    }
    utf8::is_ascii_chars_encode_utf8(e);
    assert(utf8::encode_utf8(e) =~= ascii_bytes(e));
}

/// Decoding takes the escape of one byte, or the byte itself, back to the byte.
proof fn lemma_decode_byte(b: u8, rest: Seq<u8>)
    ensures
        percent_decode(ascii_bytes(encoded_byte(b)) + rest) == seq![b] + percent_decode(rest),
{
    let s = ascii_bytes(encoded_byte(b)) + rest;
    if is_escaped(b) {
        assert(s[0] == 37 && s[1] == hex_upper(b as int / 16) as u8 && s[2] == hex_upper(
            b as int % 16,
        ) as u8);
        assert(hex_value(s[1]) == Some(b as int / 16));
        assert(hex_value(s[2]) == Some(b as int % 16));
        assert(s.skip(3) == rest);
    } else {
        assert(s[0] == b);
        assert(s.drop_first() == rest);
    }
}

/// Decoding takes encoded bytes back to the bytes, whatever follows them.
pub proof fn lemma_decode_bytes(s: Seq<u8>, rest: Seq<u8>)
    ensures
        percent_decode(ascii_bytes(encoded_bytes(s)) + rest) == s + percent_decode(rest),
    decreases s.len(),
{
    if s.len() == 0 {
        assert(ascii_bytes(encoded_bytes(s)) + rest == rest);
        assert(s + percent_decode(rest) == percent_decode(rest));
    } else {
        let front = ascii_bytes(encoded_bytes(s.drop_last()));
        let last = ascii_bytes(encoded_byte(s.last()));
        assert(ascii_bytes(encoded_bytes(s)) + rest == front + (last + rest));
        lemma_decode_bytes(s.drop_last(), last + rest);
        lemma_decode_byte(s.last(), rest);
        assert(s.drop_last() + (seq![s.last()] + percent_decode(rest)) == s + percent_decode(rest));
    }
}

/// Percent decoding undoes the percent encoding of any text.
pub proof fn law_decode_undoes_encode(s: Seq<char>)
    ensures
        percent_decode(utf8::encode_utf8(encoded_component(s))) == utf8::encode_utf8(s),
{
    let bytes = utf8::encode_utf8(s);
    lemma_encoded_ascii(bytes);
    lemma_decode_bytes(bytes, Seq::empty());
    let e = ascii_bytes(encoded_bytes(bytes));
    assert(e + Seq::<u8>::empty() == e);
    assert(percent_decode(Seq::<u8>::empty()) == Seq::<u8>::empty());
    assert(bytes + Seq::<u8>::empty() == bytes);
}

/// Letters, digits and the marks `! ' ( ) * - . _ ~` stand for themselves in a path
/// segment, and any other byte is a percent sign and the two hexadecimal digits that
/// write it, in upper case and the higher one first.
pub proof fn law_bytes_are_escaped_by_need(b: u8)
    ensures
        ({
            let plain = 48 <= b <= 57 || 65 <= b <= 90 || 97 <= b <= 122 || b == 33 || 39 <= b <= 42
                || b == 45 || b == 46 || b == 95 || b == 126;
            let e = encoded_byte(b);
            &&& plain ==> e == seq![b as char]
            &&& !plain ==> e.len() == 3 && e[0] == '%' && ('0' <= e[1] <= '9' || 'A' <= e[1] <= 'F')
                && ('0' <= e[2] <= '9' || 'A' <= e[2] <= 'F') && hex_value(e[1] as u8) is Some
                && hex_value(e[2] as u8) is Some && 16 * hex_value(e[1] as u8)->0 + hex_value(
                e[2] as u8,
            )->0 == b
        }),
{
    let high = hex_upper(b as int / 16);
    let low = hex_upper(b as int % 16);
    assert(hex_value(high as u8) == Some(b as int / 16));
    assert(hex_value(low as u8) == Some(b as int % 16));
}

/// Bytes are encoded one after another.
pub proof fn law_encoding_goes_byte_by_byte(a: Seq<u8>, b: Seq<u8>, c: u8)
    ensures
        encoded_bytes(a + b) == encoded_bytes(a) + encoded_bytes(b),
        encoded_bytes(seq![c]) == encoded_byte(c),
        encoded_bytes(Seq::empty()) == Seq::<char>::empty(),
    decreases b.len(),
{
    if b.len() == 0 {
        assert(a + b =~= a);
        assert(encoded_bytes(a) + Seq::<char>::empty() =~= encoded_bytes(a));
    } else {
        assert((a + b).drop_last() =~= a + b.drop_last());
        law_encoding_goes_byte_by_byte(a, b.drop_last(), c);
        let x = encoded_bytes(a);
        let y = encoded_bytes(b.drop_last());
        let z = encoded_byte(b.last());
        assert(x + y + z =~= x + (y + z));
    }
    assert(seq![c].drop_last() =~= Seq::<u8>::empty());
    assert(encoded_bytes(seq![c].drop_last()) == Seq::<char>::empty());
    assert(Seq::<char>::empty() + encoded_byte(c) =~= encoded_byte(c));
}

/// A percent sign with two hexadecimal digits behind it, in whatever case, stands for
/// the byte that they write; any other byte stands for itself.
pub proof fn law_escapes_stand_for_bytes(high: u8, low: u8, b: u8, rest: Seq<u8>)
    ensures
        hex_value(high) is Some && hex_value(low) is Some ==> percent_decode(
            seq![37u8, high, low] + rest,
        ) == seq![(16 * hex_value(high)->0 + hex_value(low)->0) as u8] + percent_decode(rest),
        b != 37 ==> percent_decode(seq![b] + rest) == seq![b] + percent_decode(rest),
        hex_value(high) is None || hex_value(low) is None ==> percent_decode(
            seq![37u8, high, low] + rest,
        ) == seq![37u8] + percent_decode(seq![high, low] + rest),
        percent_decode(seq![37u8]) == seq![37u8],
{
    let s = seq![37u8, high, low] + rest;
    assert(s.skip(3) =~= rest);
    assert(s.drop_first() =~= seq![high, low] + rest);
    let t = seq![b] + rest;
    assert(t.drop_first() =~= rest);
    let one = seq![37u8];
    assert(one.drop_first() =~= Seq::<u8>::empty());
    assert(percent_decode(one.drop_first()) == Seq::<u8>::empty());
    assert(percent_decode(one) =~= one);
}

} // verus!
