//! Decoding of the canonical URL-encoded form, and the round-trip law:
//! decoding the encoding of a parameter list yields that list again.

use crate::encoding::encoded_byte;
use crate::encoding::encoded_bytes;
use crate::encoding::encoded_pair;
use crate::encoding::encoded_params;
use crate::encoding::hex_digit;
use crate::encoding::is_unreserved;
use crate::encoding::AMPERSAND;
use crate::encoding::EQUALS;
use crate::encoding::PERCENT;
use crate::encoding::PLUS;
use crate::encoding::SPACE;
use vstd::prelude::*;

verus! {

/// Uppercase hex digits, as the encoder emits them.
pub open spec fn is_hex_digit(b: u8) -> bool {
    (0x30 <= b && b <= 0x39) || (0x41 <= b && b <= 0x46)
}

/// The value of an uppercase hex digit.
pub open spec fn hex_value(b: u8) -> u8
    recommends
        is_hex_digit(b),
{
    if b <= 0x39 {
        (b - 0x30) as u8
    } else {
        ((b - 0x41) + 10) as u8
    }
}

/// Percent-decoding of one form-encoded component: `+` becomes a space, a
/// `%` must introduce two hex digits, and every other byte stands for
/// itself.
pub open spec fn percent_decoded(s: Seq<u8>) -> Option<Seq<u8>>
    decreases s.len(),
{
    if s.len() == 0 {
        Some(Seq::empty())
    } else if s[0] == PLUS {
        match percent_decoded(s.drop_first()) {
            Some(rest) => Some(seq![SPACE] + rest),
            None => None,
        }
    } else if s[0] == PERCENT {
        if s.len() >= 3 && is_hex_digit(s[1]) && is_hex_digit(s[2]) {
            match percent_decoded(s.skip(3)) {
                Some(rest) => Some(seq![(16 * hex_value(s[1]) + hex_value(s[2])) as u8] + rest),
                None => None,
            }
        } else {
            None
        }
    } else {
        match percent_decoded(s.drop_first()) {
            Some(rest) => Some(seq![s[0]] + rest),
            None => None,
        }
    }
}

/// The index of the first occurrence of `b` in `s`, if any.
pub open spec fn find_byte(s: Seq<u8>, b: u8) -> Option<int>
    decreases s.len(),
{
    if s.len() == 0 {
        None
    } else if s[0] == b {
        Some(0)
    } else {
        match find_byte(s.drop_first(), b) {
            Some(i) => Some(i + 1),
            None => None,
        }
    }
}

/// Decoding of one `key=value` segment: split at the first `=` and
/// percent-decode both sides.
pub open spec fn decoded_pair(s: Seq<u8>) -> Option<(Seq<u8>, Seq<u8>)> {
    match find_byte(s, EQUALS) {
        Some(i) => match (percent_decoded(s.take(i)), percent_decoded(s.skip(i + 1))) {
            (Some(k), Some(v)) => Some((k, v)),
            _ => None,
        },
        None => None,
    }
}

/// Decoding of a whole encoded parameter string: the empty string stands
/// for no parameters; otherwise split at the first `&` and decode the
/// leading segment and the remainder.
pub open spec fn decoded_params(s: Seq<u8>) -> Option<Seq<(Seq<u8>, Seq<u8>)>>
    decreases s.len(),
{
    if s.len() == 0 {
        Some(Seq::empty())
    } else {
        match find_byte(s, AMPERSAND) {
            None => match decoded_pair(s) {
                Some(p) => Some(seq![p]),
                None => None,
            },
            Some(i) => if 0 <= i && i < s.len() {
                match (decoded_pair(s.take(i)), decoded_params(s.skip(i + 1))) {
                    (Some(p), Some(rest)) => Some(seq![p] + rest),
                    _ => None,
                }
            } else {
                None
            },
        }
    }
}

/// Where `find_byte` points: at the first occurrence of the byte.
pub proof fn lemma_find_byte_spec(s: Seq<u8>, b: u8)
    ensures
        match find_byte(s, b) {
            Some(i) => 0 <= i < s.len() && s[i] == b && (forall|j: int| 0 <= j < i ==> s[j] != b),
            None => forall|j: int| 0 <= j < s.len() ==> s[j] != b,
        },
    decreases s.len(),
{
    if s.len() == 0 {
    } else if s[0] == b {
    } else {
        lemma_find_byte_spec(s.drop_first(), b);
        assert forall|j: int| 1 <= j < s.len() implies s[j] == s.drop_first()[j - 1] by {}
    }
}

/// Finding a byte beyond a prefix free of it: the first occurrence in
/// `a + [b] + c` is right after `a` when `a` does not hold `b`.
pub proof fn lemma_find_byte_past_prefix(a: Seq<u8>, c: Seq<u8>, b: u8)
    requires
        forall|j: int| 0 <= j < a.len() ==> a[j] != b,
    ensures
        find_byte(a + seq![b] + c, b) == Some(a.len() as int),
    decreases a.len(),
{
    let s = a + seq![b] + c;
    if a.len() == 0 {
        assert(s[0] == b);
    } else {
        assert(s[0] == a[0]);
        assert(s.drop_first() =~= a.drop_first() + seq![b] + c);
        lemma_find_byte_past_prefix(a.drop_first(), c, b);
    }
}

/// The encoding of one byte holds neither `=` nor `&`.
proof fn lemma_encoded_byte_unreserved_free(b: u8)
    ensures
        forall|j: int|
            0 <= j < encoded_byte(b).len() ==> encoded_byte(b)[j] != EQUALS && encoded_byte(b)[j]
                != AMPERSAND,
{
    if b == SPACE {
    } else if is_unreserved(b) {
    } else {
        assert(encoded_byte(b)[0] == PERCENT);
        assert(encoded_byte(b)[1] == hex_digit(b / 16));
        assert(encoded_byte(b)[2] == hex_digit(b % 16));
    }
}

/// The encoding of a byte string holds neither `=` nor `&`.
pub proof fn lemma_encoded_bytes_separator_free(s: Seq<u8>)
    ensures
        forall|j: int|
            0 <= j < encoded_bytes(s).len() ==> encoded_bytes(s)[j] != EQUALS && encoded_bytes(
                s,
            )[j] != AMPERSAND,
    decreases s.len(),
{
    if s.len() == 0 {
    } else {
        lemma_encoded_byte_unreserved_free(s[0]);
        lemma_encoded_bytes_separator_free(s.drop_first());
        assert forall|j: int| 0 <= j < encoded_bytes(s).len() implies encoded_bytes(s)[j] != EQUALS
            && encoded_bytes(s)[j] != AMPERSAND by {
            if j < encoded_byte(s[0]).len() {
                assert(encoded_bytes(s)[j] == encoded_byte(s[0])[j]);
            } else {
                assert(encoded_bytes(s)[j] == encoded_bytes(s.drop_first())[j - encoded_byte(
                    s[0],
                ).len()]);
            }
        }
    }
}

/// Percent-decoding undoes the byte-level encoding.
pub proof fn lemma_percent_decode_of_encoded(s: Seq<u8>)
    ensures
        percent_decoded(encoded_bytes(s)) == Some(s),
    decreases s.len(),
{
    let e = encoded_bytes(s);
    if s.len() == 0 {
        assert(e =~= Seq::<u8>::empty());
    } else {
        let rest = s.drop_first();
        lemma_percent_decode_of_encoded(rest);
        let b = s[0];
        assert(e == encoded_byte(b) + encoded_bytes(rest));
        if b == SPACE {
            assert(e[0] == PLUS);
            assert(e.drop_first() =~= encoded_bytes(rest));
            assert(seq![SPACE] + rest =~= s);
        } else if is_unreserved(b) {
            assert(e[0] == b);
            assert(b != PLUS && b != PERCENT);
            assert(e.drop_first() =~= encoded_bytes(rest));
            assert(seq![b] + rest =~= s);
        } else {
            let hi = hex_digit(b / 16);
            let lo = hex_digit(b % 16);
            assert(e[0] == PERCENT && e[1] == hi && e[2] == lo);
            assert(e.len() >= 3);
            assert(is_hex_digit(hi) && is_hex_digit(lo));
            assert(e.skip(3) =~= encoded_bytes(rest));
            assert(hex_value(hi) == b / 16 && hex_value(lo) == b % 16);
            assert(16 * (b / 16) + (b % 16) == b) by (bit_vector);
            assert(seq![b] + rest =~= s);
        }
    }
}

/// Decoding one encoded `key=value` segment yields the pair again.
pub proof fn lemma_decoded_pair_of_encoded(key: Seq<u8>, value: Seq<u8>)
    ensures
        decoded_pair(encoded_pair(key, value)) == Some((key, value)),
{
    let ek = encoded_bytes(key);
    let ev = encoded_bytes(value);
    let e = encoded_pair(key, value);
    assert(e =~= ek + seq![EQUALS] + ev);
    lemma_encoded_bytes_separator_free(key);
    lemma_find_byte_past_prefix(ek, ev, EQUALS);
    let i = ek.len() as int;
    assert(find_byte(e, EQUALS) == Some(i));
    assert(e.take(i) =~= ek);
    assert(e.skip(i + 1) =~= ev);
    lemma_percent_decode_of_encoded(key);
    lemma_percent_decode_of_encoded(value);
}

/// Encoding round-trip: the canonical URL-encoding of a parameter list is
/// re-derivable by decoding; the decoder recovers exactly the keys and
/// values that were encoded, in their order.
pub proof fn lemma_encoding_round_trip(ps: Seq<(Seq<u8>, Seq<u8>)>)
    ensures
        decoded_params(encoded_params(ps)) == Some(ps),
    decreases ps.len(),
{
    let e = encoded_params(ps);
    if ps.len() == 0 {
    } else if ps.len() == 1 {
        let p = ps[0];
        let ep = encoded_pair(p.0, p.1);
        assert(e == ep);
        assert(ep.len() >= 1);
        lemma_encoded_bytes_separator_free(p.0);
        lemma_encoded_bytes_separator_free(p.1);
        assert(ep =~= encoded_bytes(p.0) + seq![EQUALS] + encoded_bytes(p.1));
        assert forall|j: int| 0 <= j < ep.len() implies ep[j] != AMPERSAND by {
            let ek = encoded_bytes(p.0);
            let ev = encoded_bytes(p.1);
            if j < ek.len() {
                assert(ep[j] == ek[j]);
            } else if j == ek.len() {
                assert(ep[j] == EQUALS);
            } else {
                assert(ep[j] == ev[j - ek.len() - 1]);
            }
        }
        lemma_find_byte_spec(ep, AMPERSAND);
        assert(find_byte(ep, AMPERSAND) is None);
        lemma_decoded_pair_of_encoded(p.0, p.1);
        assert(seq![p] =~= ps);
    } else {
        let p = ps[0];
        let ep = encoded_pair(p.0, p.1);
        let tail = encoded_params(ps.drop_first());
        assert(e == ep + seq![AMPERSAND] + tail);
        lemma_encoded_bytes_separator_free(p.0);
        lemma_encoded_bytes_separator_free(p.1);
        assert forall|j: int| 0 <= j < ep.len() implies ep[j] != AMPERSAND by {
            let ek = encoded_bytes(p.0);
            let ev = encoded_bytes(p.1);
            assert(ep =~= ek + seq![EQUALS] + ev);
            if j < ek.len() {
                assert(ep[j] == ek[j]);
            } else if j == ek.len() {
                assert(ep[j] == EQUALS);
            } else {
                assert(ep[j] == ev[j - ek.len() - 1]);
            }
        }
        lemma_find_byte_past_prefix(ep, tail, AMPERSAND);
        let i = ep.len() as int;
        assert(find_byte(e, AMPERSAND) == Some(i));
        assert(e.len() == ep.len() + 1 + tail.len());
        assert(e.take(i) =~= ep);
        assert(e.skip(i + 1) =~= tail);
        lemma_decoded_pair_of_encoded(p.0, p.1);
        lemma_encoding_round_trip(ps.drop_first());
        assert(seq![p] + ps.drop_first() =~= ps);
    }
}

/// The canonical encoding is injective: two parameter lists with the same
/// encoding are the same list, so changing any key or value, or the order
/// of the pairs, changes the signed payload.
pub proof fn lemma_encoding_injective(ps1: Seq<(Seq<u8>, Seq<u8>)>, ps2: Seq<(Seq<u8>, Seq<u8>)>)
    requires
        encoded_params(ps1) == encoded_params(ps2),
    ensures
        ps1 == ps2,
{
    lemma_encoding_round_trip(ps1);
    lemma_encoding_round_trip(ps2);
}

} // verus!
