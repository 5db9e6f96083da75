//! Conversion between textual hex (with or without a `0x` prefix, odd or even
//! digit count) and raw byte sequences.

use vstd::prelude::*;

use crate::errors::HarnessError;

verus! {

/// Is `b` the ASCII code of a hex digit?
pub open spec fn is_hex_digit(b: u8) -> bool {
    (0x30 <= b <= 0x39) || (0x61 <= b <= 0x66) || (0x41 <= b <= 0x46)
}

/// The numeric value of the hex digit with ASCII code `b`, or -1 when `b` is
/// no hex digit.
pub open spec fn hex_value(b: u8) -> int {
    if 0x30 <= b <= 0x39 {
        b - 0x30
    } else if 0x61 <= b <= 0x66 {
        b - 0x61 + 10
    } else if 0x41 <= b <= 0x46 {
        b - 0x41 + 10
    } else {
        -1
    }
}

/// Every byte of `s` is the ASCII code of a hex digit.
pub open spec fn all_hex(s: Seq<u8>) -> bool {
    forall|i: int| 0 <= i < s.len() ==> is_hex_digit(s[i])
}

/// Where the hex digits of `s` begin: after an optional leading `0x`.
pub open spec fn hex_body_start(s: Seq<u8>) -> int {
    if s.len() >= 2 && s[0] == 0x30 && s[1] == 0x78 {
        2
    } else {
        0
    }
}

/// The digits of `s`, with an optional leading `0x` stripped.
pub open spec fn hex_body(s: Seq<u8>) -> Seq<u8> {
    s.subrange(hex_body_start(s), s.len() as int)
}

/// The bytes denoted by an even number of hex digits, two digits per byte.
pub open spec fn decoded_pairs(s: Seq<u8>) -> Seq<u8>
    decreases s.len(),
{
    if s.len() < 2 {
        Seq::empty()
    } else {
        seq![(hex_value(s[0]) * 16 + hex_value(s[1])) as u8] + decoded_pairs(s.skip(2))
    }
}

/// The bytes denoted by a prefix-free digit string: an odd-length string's
/// first digit stands alone as the low nibble of the first byte.
pub open spec fn decoded_hex(s: Seq<u8>) -> Seq<u8> {
    if s.len() % 2 == 1 {
        seq![hex_value(s[0]) as u8] + decoded_pairs(s.skip(1))
    } else {
        decoded_pairs(s)
    }
}

/// The ASCII code of the lowercase hex digit with value `v` (`0 <= v < 16`).
pub open spec fn hex_digit_of(v: int) -> u8 {
    if v < 10 {
        (0x30 + v) as u8
    } else {
        (0x61 + v - 10) as u8
    }
}

/// The even-length lowercase digit string denoting `b`, two digits per byte.
pub open spec fn encoded_hex(b: Seq<u8>) -> Seq<u8>
    decreases b.len(),
{
    if b.len() == 0 {
        Seq::empty()
    } else {
        seq![hex_digit_of(b[0] as int / 16), hex_digit_of(b[0] as int % 16)] + encoded_hex(
            b.skip(1),
        )
    }
}

/// `s` with uppercase hex digits folded to lowercase.
pub open spec fn lower_hex(s: Seq<u8>) -> Seq<u8> {
    s.map_values(|b: u8| if 0x41 <= b <= 0x46 { (b + 0x20) as u8 } else { b })
}

/// The numeric value of the hex digit `i`, or -1 when `i` is no hex digit.
pub fn from_hex_char(i: u8) -> (r: i32)
    ensures
        r == hex_value(i),
{
    if i >= 0x30 && i <= 0x39 {
        return (i - 0x30) as i32;
    }
    if i >= 0x61 && i <= 0x66 {
        return (i - 0x61 + 10) as i32;
    }
    if i >= 0x41 && i <= 0x46 {
        return (i - 0x41 + 10) as i32;
    }
    -1
}

/// Decodes a textual hex string into bytes.
///
/// An optional leading `0x` is stripped; when the remaining digit count is
/// odd, the first surviving digit becomes the low nibble of the first output
/// byte. Fails with `MalformedHex` exactly when a surviving character is
/// outside `[0-9a-fA-F]`.
pub fn from_hex(s: &[u8]) -> (r: Result<Vec<u8>, HarnessError>)
    ensures
        match r {
            Ok(v) => all_hex(hex_body(s@)) && v@ == decoded_hex(hex_body(s@)),
            Err(e) => e == HarnessError::MalformedHex && !all_hex(hex_body(s@)),
        },
{
    let n = s.len();
    let start: usize = if n >= 2 && s[0] == 0x30 && s[1] == 0x78 {
        2
    } else {
        0
    };
    let ghost body = hex_body(s@);
    proof {
        assert(body =~= s@.subrange(start as int, n as int));
    }
    let mut ret: Vec<u8> = Vec::new();
    let mut t: usize = start;

    if (n - start) % 2 == 1 {
        let h = from_hex_char(s[start]);
        if h == -1 {
            proof {
                assert(body[0] == s@[start as int]);
                assert(!all_hex(body));
            }
            return Err(HarnessError::MalformedHex);
        }
        ret.push(h as u8);
        t = start + 1;
    }

    let ghost digits = s@.subrange(t as int, n as int);
    let ghost head = ret@;

    let mut i: usize = t;
    while i < n
        invariant
            n == s@.len(),
            start <= t <= i <= n,
            t <= start + 1,
            (n - i) % 2 == 0,
            (n - t) % 2 == 0,
            body == hex_body(s@),
            body == s@.subrange(start as int, n as int),
            body.len() == n - start,
            body.len() % 2 == 1 ==> t == start + 1 && is_hex_digit(body[0]) && head == seq![
                hex_value(body[0]) as u8,
            ],
            body.len() % 2 == 0 ==> t == start && head == Seq::<u8>::empty(),
            digits == s@.subrange(t as int, n as int),
            ret@ == head + decoded_pairs(digits.take(i - t)),
            all_hex(digits.take(i - t)),
        decreases n - i,
    {
        let h = from_hex_char(s[i]);
        let l = from_hex_char(s[i + 1]);
        if h == -1 || l == -1 {
            proof {
                let bad: int = if h == -1 {
                    i as int
                } else {
                    i + 1
                };
                assert(body[bad - start] == s@[bad]);
                assert(!is_hex_digit(body[bad - start]));
                assert(!all_hex(body));
            }
            return Err(HarnessError::MalformedHex);
        }
        let v: u8 = (h * 16 + l) as u8;
        ret.push(v);
        proof {
            let k = i - t;
            assert(digits[k as int] == s@[i as int]);
            assert(digits[k + 1] == s@[i as int + 1]);
            assert(digits.take(k + 2) =~= digits.take(k as int).push(digits[k as int]).push(
                digits[k + 1],
            ));
            lemma_decoded_pairs_snoc(digits.take(k as int), digits[k as int], digits[k + 1]);
            assert(ret@ =~= head + decoded_pairs(digits.take(k + 2)));
            assert(all_hex(digits.take(k + 2))) by {
                assert(forall|j: int|
                    0 <= j < k ==> digits.take(k + 2)[j] == #[trigger] digits.take(k as int)[j]);
            }
        }
        i = i + 2;
    }
    proof {
        assert(digits.take(n - t) =~= digits);
        if body.len() % 2 == 1 {
            assert(body.skip(1) =~= digits);
        } else {
            assert(body =~= digits);
        }
        assert(ret@ == decoded_hex(body));
        assert forall|j: int| 0 <= j < body.len() implies is_hex_digit(body[j]) by {
            if body.len() % 2 == 1 && j == 0 {
            } else {
                let d = t - start;
                assert(body[j] == s@[j + start]);
                assert(digits[j - d] == s@[j + start]);
                assert(all_hex(digits));
            }
        }
        assert(all_hex(body));
    }
    Ok(ret)
}

/// Appending one digit pair to an even-length digit string appends one byte.
proof fn lemma_decoded_pairs_snoc(u: Seq<u8>, a: u8, b: u8)
    requires
        u.len() % 2 == 0,
    ensures
        decoded_pairs(u.push(a).push(b)) == decoded_pairs(u).push(
            (hex_value(a) * 16 + hex_value(b)) as u8,
        ),
    decreases u.len(),
{
    let w = u.push(a).push(b);
    assert(w.len() == u.len() + 2);
    if u.len() == 0 {
        assert(w.skip(2) =~= Seq::<u8>::empty());
        assert(decoded_pairs(w.skip(2)) == Seq::<u8>::empty());
        assert(decoded_pairs(u) == Seq::<u8>::empty());
        assert(w[0] == a && w[1] == b);
        assert(decoded_pairs(w) == seq![(hex_value(w[0]) * 16 + hex_value(w[1])) as u8]
            + decoded_pairs(w.skip(2)));
        assert(decoded_pairs(w) =~= decoded_pairs(u).push(
            (hex_value(a) * 16 + hex_value(b)) as u8,
        ));
    } else {
        assert(w.skip(2) =~= u.skip(2).push(a).push(b));
        lemma_decoded_pairs_snoc(u.skip(2), a, b);
        assert(w[0] == u[0] && w[1] == u[1]);
        assert(decoded_pairs(w) == seq![(hex_value(w[0]) * 16 + hex_value(w[1])) as u8]
            + decoded_pairs(w.skip(2)));
        assert(decoded_pairs(u) == seq![(hex_value(u[0]) * 16 + hex_value(u[1])) as u8]
            + decoded_pairs(u.skip(2)));
        assert(decoded_pairs(w) =~= decoded_pairs(u).push(
            (hex_value(a) * 16 + hex_value(b)) as u8,
        ));
    }
}

/// Encodes bytes as an even-length, lowercase hex string without prefix.
pub fn to_hex(b: &[u8]) -> (r: Vec<u8>)
    ensures
        r@ == encoded_hex(b@),
        r@.len() == 2 * b@.len(),
{
    let mut out: Vec<u8> = Vec::new();
    let mut i: usize = 0;
    proof {
        lemma_encoded_hex_len(b@);
    }
    while i < b.len()
        invariant
            i <= b@.len(),
            out@ == encoded_hex(b@).take(2 * i as int),
            encoded_hex(b@).len() == 2 * b@.len(),
        decreases b@.len() - i,
    {
        let v = b[i];
        let hi = if v / 16 < 10 {
            0x30 + v / 16
        } else {
            0x61 + v / 16 - 10
        };
        let lo = if v % 16 < 10 {
            0x30 + v % 16
        } else {
            0x61 + v % 16 - 10
        };
        out.push(hi);
        out.push(lo);
        proof {
            lemma_encoded_hex_index(b@, i as int);
            assert(out@ =~= encoded_hex(b@).take(2 * (i + 1)));
        }
        i = i + 1;
    }
    proof {
        assert(out@ =~= encoded_hex(b@));
    }
    out
}

/// The digit string for `b` is twice as long as `b`.
pub proof fn lemma_encoded_hex_len(b: Seq<u8>)
    ensures
        encoded_hex(b).len() == 2 * b.len(),
    decreases b.len(),
{
    if b.len() > 0 {
        lemma_encoded_hex_len(b.skip(1));
    }
}

/// The two digits standing for byte `i` of `b`.
pub proof fn lemma_encoded_hex_index(b: Seq<u8>, i: int)
    requires
        0 <= i < b.len(),
    ensures
        encoded_hex(b).len() == 2 * b.len(),
        encoded_hex(b)[2 * i] == hex_digit_of(b[i] as int / 16),
        encoded_hex(b)[2 * i + 1] == hex_digit_of(b[i] as int % 16),
    decreases b.len(),
{
    lemma_encoded_hex_len(b);
    if i > 0 {
        lemma_encoded_hex_index(b.skip(1), i - 1);
    }
}

/// Decoding the digit string for `b` gives `b` back: the two conversions
/// are mutually inverse on canonical strings.
pub proof fn lemma_hex_decode_round_trip(b: Seq<u8>)
    ensures
        decoded_pairs(encoded_hex(b)) == b,
    decreases b.len(),
{
    if b.len() == 0 {
        assert(decoded_pairs(encoded_hex(b)) =~= b);
    } else {
        lemma_hex_decode_round_trip(b.skip(1));
        let e = encoded_hex(b);
        let hi = hex_digit_of(b[0] as int / 16);
        let lo = hex_digit_of(b[0] as int % 16);
        assert(e[0] == hi && e[1] == lo);
        assert(hex_value(hi) == b[0] as int / 16);
        assert(hex_value(lo) == b[0] as int % 16);
        assert(e.skip(2) =~= encoded_hex(b.skip(1)));
        lemma_encoded_hex_len(b);
        assert(decoded_pairs(e) == seq![(hex_value(e[0]) * 16 + hex_value(e[1])) as u8]
            + decoded_pairs(e.skip(2)));
        assert((hex_value(hi) * 16 + hex_value(lo)) as u8 == b[0]);
        assert(decoded_pairs(e) =~= b);
    }
}

/// Encoding the bytes of a valid even-length digit string gives the string
/// back, with its digits folded to lowercase.
pub proof fn lemma_hex_round_trip(s: Seq<u8>)
    requires
        s.len() % 2 == 0,
        all_hex(s),
    ensures
        encoded_hex(decoded_pairs(s)) == lower_hex(s),
    decreases s.len(),
{
    if s.len() == 0 {
        assert(encoded_hex(decoded_pairs(s)) =~= lower_hex(s));
    } else {
        let rest = s.skip(2);
        assert(all_hex(rest)) by {
            assert(forall|i: int| 0 <= i < rest.len() ==> rest[i] == s[i + 2]);
        }
        lemma_hex_round_trip(rest);
        let v = (hex_value(s[0]) * 16 + hex_value(s[1])) as u8;
        assert(v / 16 == hex_value(s[0]) && v % 16 == hex_value(s[1])) by {
            assert(0 <= hex_value(s[0]) < 16);
            assert(0 <= hex_value(s[1]) < 16);
        }
        assert(decoded_pairs(s)[0] == v);
        assert(decoded_pairs(s).skip(1) =~= decoded_pairs(rest));
        assert(encoded_hex(decoded_pairs(s)) == seq![
            hex_digit_of(hex_value(s[0])),
            hex_digit_of(hex_value(s[1])),
        ] + encoded_hex(decoded_pairs(rest)));
        assert(hex_digit_of(hex_value(s[0])) == lower_hex(s)[0]);
        assert(hex_digit_of(hex_value(s[1])) == lower_hex(s)[1]);
        assert(lower_hex(rest) =~= lower_hex(s).skip(2));
        assert(encoded_hex(decoded_pairs(s)) =~= lower_hex(s));
    }
}

} // verus!
