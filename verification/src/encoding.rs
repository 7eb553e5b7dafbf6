//! Canonical URL-encoding of request parameters.
//!
//! Parameters are an ordered sequence of `key=value` byte-string pairs,
//! joined by `&`, with standard form-encoding semantics: space becomes `+`,
//! ASCII alphanumerics and `-`, `_`, `.`, `~` pass through unchanged, and
//! every other byte becomes `%` followed by two uppercase hex digits.

use vstd::prelude::*;

verus! {

/// ASCII space.
pub const SPACE: u8 = 0x20;

/// ASCII `+`, the encoding of a space.
pub const PLUS: u8 = 0x2B;

/// ASCII `%`, the escape introducer.
pub const PERCENT: u8 = 0x25;

/// ASCII `=`, the key/value separator.
pub const EQUALS: u8 = 0x3D;

/// ASCII `&`, the pair separator.
pub const AMPERSAND: u8 = 0x26;

/// Bytes that form-encoding passes through unchanged:
/// ASCII alphanumerics and `-`, `_`, `.`, `~`.
pub open spec fn is_unreserved(b: u8) -> bool {
    (0x41 <= b && b <= 0x5A)  // A-Z
     || (0x61 <= b && b <= 0x7A)  // a-z
     || (0x30 <= b && b <= 0x39)  // 0-9
     || b == 0x2D  // -
     || b == 0x5F  // _
     || b == 0x2E  // .
     || b == 0x7E  // ~

}

/// The uppercase hex digit for a value below 16.
pub open spec fn hex_digit(n: u8) -> u8
    recommends
        n < 16,
{
    if n < 10 {
        (0x30 + n) as u8
    } else {
        (0x41 + (n - 10)) as u8
    }
}

/// The form-encoding of one byte: space becomes `+`, unreserved bytes stand
/// as they are, and anything else becomes a three-byte `%XX` escape.
pub open spec fn encoded_byte(b: u8) -> Seq<u8> {
    if b == SPACE {
        seq![PLUS]
    } else if is_unreserved(b) {
        seq![b]
    } else {
        seq![PERCENT, hex_digit(b / 16), hex_digit(b % 16)]
    }
}

/// The form-encoding of a byte string, byte by byte.
pub open spec fn encoded_bytes(s: Seq<u8>) -> Seq<u8>
    decreases s.len(),
{
    if s.len() == 0 {
        Seq::empty()
    } else {
        encoded_byte(s[0]) + encoded_bytes(s.drop_first())
    }
}

/// The form-encoding of one `key=value` pair.
pub open spec fn encoded_pair(key: Seq<u8>, value: Seq<u8>) -> Seq<u8> {
    encoded_bytes(key) + seq![EQUALS] + encoded_bytes(value)
}

/// The canonical form-encoding of a parameter sequence: the encoded pairs
/// joined by `&`, in the order given.
pub open spec fn encoded_params(ps: Seq<(Seq<u8>, Seq<u8>)>) -> Seq<u8>
    decreases ps.len(),
{
    if ps.len() == 0 {
        Seq::empty()
    } else if ps.len() == 1 {
        encoded_pair(ps[0].0, ps[0].1)
    } else {
        encoded_pair(ps[0].0, ps[0].1) + seq![AMPERSAND] + encoded_params(ps.drop_first())
    }
}

/// The mathematical view of an executable parameter list.
pub open spec fn params_view(ps: Seq<(Vec<u8>, Vec<u8>)>) -> Seq<(Seq<u8>, Seq<u8>)> {
    ps.map_values(|p: (Vec<u8>, Vec<u8>)| (p.0@, p.1@))
}

/// Encoding distributes over concatenation of byte strings.
pub proof fn lemma_encoded_bytes_append(a: Seq<u8>, b: Seq<u8>)
    ensures
        encoded_bytes(a + b) == encoded_bytes(a) + encoded_bytes(b),
    decreases a.len(),
{
    if a.len() == 0 {
        assert(a + b =~= b);
        assert(encoded_bytes(a) + encoded_bytes(b) =~= encoded_bytes(b));
    } else {
        assert((a + b).drop_first() =~= a.drop_first() + b);
        lemma_encoded_bytes_append(a.drop_first(), b);
        assert(encoded_byte(a[0]) + (encoded_bytes(a.drop_first()) + encoded_bytes(b)) =~= (
        encoded_byte(a[0]) + encoded_bytes(a.drop_first())) + encoded_bytes(b));
        assert((a + b)[0] == a[0]);
    }
}

/// Extending a byte string by one byte appends that byte's encoding.
pub proof fn lemma_encoded_bytes_push(s: Seq<u8>, i: int)
    requires
        0 <= i < s.len(),
    ensures
        encoded_bytes(s.take(i + 1)) == encoded_bytes(s.take(i)) + encoded_byte(s[i]),
{
    let one = seq![s[i]];
    assert(s.take(i + 1) =~= s.take(i) + one);
    lemma_encoded_bytes_append(s.take(i), one);
    assert(encoded_bytes(one) =~= encoded_byte(s[i])) by {
        reveal_with_fuel(encoded_bytes, 2);
        assert(one.drop_first() =~= Seq::<u8>::empty());
    }
}

/// Appends the form-encoding of one byte to `out`.
fn push_encoded_byte(out: &mut Vec<u8>, b: u8)
    ensures
        final(out)@ == old(out)@ + encoded_byte(b),
{
    if b == SPACE {
        out.push(PLUS);
        assert(out@ =~= old(out)@ + encoded_byte(b));
    } else if (0x41 <= b && b <= 0x5A) || (0x61 <= b && b <= 0x7A) || (0x30 <= b && b <= 0x39)
        || b == 0x2D || b == 0x5F || b == 0x2E || b == 0x7E {
        out.push(b);
        assert(out@ =~= old(out)@ + encoded_byte(b));
    } else {
        let hi: u8 = b / 16;
        let lo: u8 = b % 16;
        out.push(PERCENT);
        out.push(if hi < 10 { 0x30 + hi } else { 0x41 + (hi - 10) });
        out.push(if lo < 10 { 0x30 + lo } else { 0x41 + (lo - 10) });
        assert(out@ =~= old(out)@ + encoded_byte(b));
    }
}

/// Appends the form-encoding of a whole byte string to `out`.
fn append_encoded(out: &mut Vec<u8>, s: &[u8])
    ensures
        final(out)@ == old(out)@ + encoded_bytes(s@),
{
    let mut i: usize = 0;
    while i < s.len()
        invariant
            i <= s.len(),
            out@ == old(out)@ + encoded_bytes(s@.take(i as int)),
        decreases s.len() - i,
    {
        push_encoded_byte(out, s[i]);
        proof {
            lemma_encoded_bytes_push(s@, i as int);
        }
        i += 1;
    }
    assert(s@.take(s@.len() as int) =~= s@);
}

/// Joined encodings: a nonempty parameter sequence extended by one pair
/// appends `&` and that pair's encoding.
pub proof fn lemma_encoded_params_append_one(ps: Seq<(Seq<u8>, Seq<u8>)>, p: (Seq<u8>, Seq<u8>))
    requires
        ps.len() >= 1,
    ensures
        encoded_params(ps.push(p)) == encoded_params(ps) + seq![AMPERSAND] + encoded_pair(
            p.0,
            p.1,
        ),
    decreases ps.len(),
{
    let whole = ps.push(p);
    if ps.len() == 1 {
        assert(whole.len() == 2);
        assert(whole[0] == ps[0]);
        assert(whole.drop_first() =~= seq![p]);
        assert(encoded_params(seq![p]) == encoded_pair(p.0, p.1));
        assert(encoded_params(whole) == encoded_pair(ps[0].0, ps[0].1) + seq![AMPERSAND]
            + encoded_pair(p.0, p.1));
        assert(encoded_pair(ps[0].0, ps[0].1) + seq![AMPERSAND] + encoded_pair(p.0, p.1)
            =~= encoded_params(ps) + seq![AMPERSAND] + encoded_pair(p.0, p.1));
    } else {
        assert(whole.drop_first() =~= ps.drop_first().push(p));
        lemma_encoded_params_append_one(ps.drop_first(), p);
        assert(whole[0] == ps[0]);
        let head = encoded_pair(ps[0].0, ps[0].1);
        let tail = encoded_params(ps.drop_first());
        let amp = seq![AMPERSAND];
        let last = encoded_pair(p.0, p.1);
        assert(encoded_params(whole) == head + amp + (tail + amp + last));
        assert(encoded_params(ps) == head + amp + tail);
        assert(head + amp + (tail + amp + last) =~= (head + amp + tail) + amp + last);
    }
}

/// Produces the canonical URL-encoded form of the parameter list, as the
/// byte string that `encoded_params` specifies.
pub fn form_urlencode(params: &Vec<(Vec<u8>, Vec<u8>)>) -> (r: Vec<u8>)
    ensures
        r@ == encoded_params(params_view(params@)),
{
    let ghost ps = params_view(params@);
    let mut out: Vec<u8> = Vec::new();
    let mut i: usize = 0;
    while i < params.len()
        invariant
            i <= params.len(),
            ps == params_view(params@),
            ps.len() == params@.len(),
            out@ == encoded_params(ps.take(i as int)),
        decreases params.len() - i,
    {
        assert(ps[i as int] == (params@[i as int].0@, params@[i as int].1@));
        if i > 0 {
            out.push(AMPERSAND);
        }
        append_encoded(&mut out, params[i].0.as_slice());
        out.push(EQUALS);
        append_encoded(&mut out, params[i].1.as_slice());
        proof {
            let taken = ps.take(i as int);
            assert(ps.take(i + 1 as int) =~= taken.push(ps[i as int]));
            if i == 0 {
                assert(taken.len() == 0);
                assert(taken.push(ps[0]) =~= seq![ps[0]]);
                assert(encoded_params(seq![ps[0]]) == encoded_pair(ps[0].0, ps[0].1));
                assert(out@ =~= encoded_pair(ps[0].0, ps[0].1));
            } else {
                lemma_encoded_params_append_one(taken, ps[i as int]);
                assert(out@ =~= encoded_params(taken) + seq![AMPERSAND] + encoded_pair(
                    ps[i as int].0,
                    ps[i as int].1,
                ));
            }
        }
        i += 1;
    }
    assert(ps.take(ps.len() as int) =~= ps);
    out
}

} // verus!
