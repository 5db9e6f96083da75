//! Builder for ABI-style call payloads: a 4-byte selector followed by three
//! dynamic arrays (positions, values, flags) in the standard head/tail
//! layout, with one 32-byte word per head offset, array length and element.

use vstd::prelude::*;

verus! {

/// 256 to the power `k`.
pub open spec fn pow256(k: nat) -> nat
    decreases k,
{
    if k == 0 {
        1
    } else {
        256 * pow256((k - 1) as nat)
    }
}

/// The 32-byte big-endian word holding the value `x`.
pub open spec fn abi_word(x: nat) -> Seq<u8> {
    Seq::new(32, |i: int| ((x / pow256((31 - i) as nat)) % 256) as u8)
}

/// One 32-byte tail slot: the element's bytes, left-aligned, zero-padded.
pub open spec fn padded_slot(v: Seq<u8>) -> Seq<u8> {
    v + Seq::new((32 - v.len()) as nat, |i: int| 0u8)
}

/// The tail words of a numeric array: one 32-byte word per element.
pub open spec fn word_seq_u64(xs: Seq<u64>) -> Seq<u8>
    decreases xs.len(),
{
    if xs.len() == 0 {
        Seq::empty()
    } else {
        abi_word(xs[0] as nat) + word_seq_u64(xs.skip(1))
    }
}

/// The tail slots of a byte-blob array: one 32-byte slot per element.
pub open spec fn value_slots(vs: Seq<Seq<u8>>) -> Seq<u8>
    decreases vs.len(),
{
    if vs.len() == 0 {
        Seq::empty()
    } else {
        padded_slot(vs[0]) + value_slots(vs.skip(1))
    }
}

/// The tail words of a boolean array: 1 or 0, one 32-byte word per element.
pub open spec fn flag_words(fs: Seq<bool>) -> Seq<u8>
    decreases fs.len(),
{
    if fs.len() == 0 {
        Seq::empty()
    } else {
        abi_word(if fs[0] {
            1
        } else {
            0
        }) + flag_words(fs.skip(1))
    }
}

/// The byte offset of the first array's data, from the start of the argument
/// area: three head words of 32 bytes each.
pub open spec fn first_tail_offset() -> nat {
    96
}

/// The full payload: selector, three head offset words, then per array a
/// length word and its elements. Each array contributes `32 * (1 + len)`
/// tail bytes, so the second offset is `96 + 32 * (1 + positions)` and the
/// third adds `32 * (1 + values)` more.
pub open spec fn encoded_step_call(
    sel: Seq<u8>,
    ps: Seq<u64>,
    vs: Seq<Seq<u8>>,
    fs: Seq<bool>,
) -> Seq<u8> {
    sel + abi_word(first_tail_offset()) + abi_word(
        first_tail_offset() + 32 * (1 + ps.len()),
    ) + abi_word(first_tail_offset() + 32 * (1 + ps.len()) + 32 * (1 + vs.len())) + abi_word(
        ps.len(),
    ) + word_seq_u64(ps) + abi_word(vs.len()) + value_slots(vs) + abi_word(fs.len()) + flag_words(
        fs,
    )
}

/// The textual signature whose hash yields the step call's selector.
pub fn step_call_signature() -> (r: &'static str)
    ensures
        r@ == "step(uint64[],bytes8[],bool[])"@,
{
    "step(uint64[],bytes8[],bool[])"
}

/// The 4-byte selector cut from a signature hash, as the node's hash call
/// returns it. Fails with `EncodingFailed` exactly when the hash is too
/// short to hold a selector.
pub fn selector_from_hash(hash: &Vec<u8>) -> (r: Result<Vec<u8>, crate::errors::HarnessError>)
    ensures
        match r {
            Ok(s) => hash@.len() >= 4 && s@ == hash@.take(4),
            Err(e) => e == crate::errors::HarnessError::EncodingFailed && hash@.len() < 4,
        },
{
    if hash.len() < 4 {
        return Err(crate::errors::HarnessError::EncodingFailed);
    }
    let mut out: Vec<u8> = Vec::new();
    out.push(hash[0]);
    out.push(hash[1]);
    out.push(hash[2]);
    out.push(hash[3]);
    proof {
        assert(out@ =~= hash@.take(4));
    }
    Ok(out)
}

/// The values of `pow256` up to the width of a 64-bit integer.
pub proof fn lemma_pow256_values()
    ensures
        pow256(0) == 1,
        pow256(1) == 0x100,
        pow256(2) == 0x10000,
        pow256(3) == 0x1000000,
        pow256(4) == 0x100000000,
        pow256(5) == 0x10000000000,
        pow256(6) == 0x1000000000000,
        pow256(7) == 0x100000000000000,
        pow256(8) == 0x10000000000000000,
{
    assert(pow256(1) == 256 * pow256(0));
    assert(pow256(2) == 256 * pow256(1));
    assert(pow256(3) == 256 * pow256(2));
    assert(pow256(4) == 256 * pow256(3));
    assert(pow256(5) == 256 * pow256(4));
    assert(pow256(6) == 256 * pow256(5));
    assert(pow256(7) == 256 * pow256(6));
    assert(pow256(8) == 256 * pow256(7));
}

/// `pow256` grows with its exponent.
proof fn lemma_pow256_increases(a: nat, b: nat)
    requires
        a <= b,
    ensures
        pow256(a) <= pow256(b),
    decreases b,
{
    if a < b {
        lemma_pow256_increases(a, (b - 1) as nat);
        assert(pow256(b) == 256 * pow256((b - 1) as nat));
    }
}

/// The big-endian bytes of a 64-bit value, byte `j` counted from the low end.
proof fn lemma_u64_bytes(x: u64)
    ensures
        ((x >> 56u64) as u8) as nat == (x as nat / pow256(7)) % 256,
        ((x >> 48u64) as u8) as nat == (x as nat / pow256(6)) % 256,
        ((x >> 40u64) as u8) as nat == (x as nat / pow256(5)) % 256,
        ((x >> 32u64) as u8) as nat == (x as nat / pow256(4)) % 256,
        ((x >> 24u64) as u8) as nat == (x as nat / pow256(3)) % 256,
        ((x >> 16u64) as u8) as nat == (x as nat / pow256(2)) % 256,
        ((x >> 8u64) as u8) as nat == (x as nat / pow256(1)) % 256,
        ((x >> 0u64) as u8) as nat == (x as nat / pow256(0)) % 256,
{
    lemma_pow256_values();
    assert((x >> 56u64) as u8 as u64 == (x / 0x100000000000000u64) % 256) by (bit_vector);
    assert((x >> 48u64) as u8 as u64 == (x / 0x1000000000000u64) % 256) by (bit_vector);
    assert((x >> 40u64) as u8 as u64 == (x / 0x10000000000u64) % 256) by (bit_vector);
    assert((x >> 32u64) as u8 as u64 == (x / 0x100000000u64) % 256) by (bit_vector);
    assert((x >> 24u64) as u8 as u64 == (x / 0x1000000u64) % 256) by (bit_vector);
    assert((x >> 16u64) as u8 as u64 == (x / 0x10000u64) % 256) by (bit_vector);
    assert((x >> 8u64) as u8 as u64 == (x / 0x100u64) % 256) by (bit_vector);
    assert((x >> 0u64) as u8 as u64 == (x / 1u64) % 256) by (bit_vector);
}

/// Appends the 32-byte big-endian word holding `x`.
fn push_word_u64(out: &mut Vec<u8>, x: u64)
    ensures
        final(out)@ == old(out)@ + abi_word(x as nat),
{
    let ghost base = out@;
    let mut j: usize = 0;
    while j < 24
        invariant
            j <= 24,
            out@ == base + Seq::new(j as nat, |i: int| 0u8),
        decreases 24 - j,
    {
        out.push(0u8);
        proof {
            assert(out@ =~= base + Seq::new((j + 1) as nat, |i: int| 0u8));
        }
        j = j + 1;
    }
    out.push((x >> 56u64) as u8);
    out.push((x >> 48u64) as u8);
    out.push((x >> 40u64) as u8);
    out.push((x >> 32u64) as u8);
    out.push((x >> 24u64) as u8);
    out.push((x >> 16u64) as u8);
    out.push((x >> 8u64) as u8);
    out.push((x >> 0u64) as u8);
    proof {
        lemma_u64_bytes(x);
        lemma_pow256_values();
        assert forall|i: int| 0 <= i < 24 implies abi_word(x as nat)[i] == 0u8 by {
            lemma_pow256_increases(8, (31 - i) as nat);
            assert((x as nat) < pow256(8));
            assert(x as nat / pow256((31 - i) as nat) == 0) by {
                vstd::arithmetic::div_mod::lemma_basic_div(
                    x as int,
                    pow256((31 - i) as nat) as int,
                );
            }
        }
        assert(out@ =~= base + abi_word(x as nat));
    }
}

/// Appends one 32-byte tail slot: the element left-aligned, zero-padded.
fn push_value_slot(out: &mut Vec<u8>, v: &Vec<u8>)
    requires
        v@.len() <= 32,
    ensures
        final(out)@ == old(out)@ + padded_slot(v@),
{
    let ghost base = out@;
    let mut j: usize = 0;
    while j < v.len()
        invariant
            j <= v@.len(),
            out@ == base + v@.take(j as int),
        decreases v@.len() - j,
    {
        out.push(v[j]);
        proof {
            assert(out@ =~= base + v@.take(j + 1));
        }
        j = j + 1;
    }
    proof {
        assert(v@.take(v@.len() as int) =~= v@);
    }
    let mut k: usize = v.len();
    while k < 32
        invariant
            v@.len() <= k <= 32,
            out@ == base + v@ + Seq::new((k - v@.len()) as nat, |i: int| 0u8),
        decreases 32 - k,
    {
        out.push(0u8);
        proof {
            assert(out@ =~= base + v@ + Seq::new((k + 1 - v@.len()) as nat, |i: int| 0u8));
        }
        k = k + 1;
    }
    proof {
        assert(out@ =~= base + padded_slot(v@));
    }
}

/// One word appended to a numeric tail.
proof fn lemma_word_seq_u64_snoc(xs: Seq<u64>, x: u64)
    ensures
        word_seq_u64(xs.push(x)) == word_seq_u64(xs) + abi_word(x as nat),
    decreases xs.len(),
{
    if xs.len() == 0 {
        assert(xs.push(x).skip(1) =~= Seq::<u64>::empty());
        assert(xs.push(x)[0] == x);
        assert(word_seq_u64(Seq::<u64>::empty()) == Seq::<u8>::empty());
        assert(word_seq_u64(xs.push(x)) == abi_word(xs.push(x)[0] as nat) + word_seq_u64(
            xs.push(x).skip(1),
        ));
        assert(word_seq_u64(xs.push(x)) =~= word_seq_u64(xs) + abi_word(x as nat));
    } else {
        assert(xs.push(x).skip(1) =~= xs.skip(1).push(x));
        lemma_word_seq_u64_snoc(xs.skip(1), x);
        assert(xs.push(x)[0] == xs[0]);
        assert(word_seq_u64(xs.push(x)) =~= word_seq_u64(xs) + abi_word(x as nat));
    }
}

/// One slot appended to a byte-blob tail.
proof fn lemma_value_slots_snoc(vs: Seq<Seq<u8>>, v: Seq<u8>)
    ensures
        value_slots(vs.push(v)) == value_slots(vs) + padded_slot(v),
    decreases vs.len(),
{
    if vs.len() == 0 {
        assert(vs.push(v).skip(1) =~= Seq::<Seq<u8>>::empty());
        assert(vs.push(v)[0] == v);
        assert(value_slots(Seq::<Seq<u8>>::empty()) == Seq::<u8>::empty());
        assert(value_slots(vs.push(v)) == padded_slot(vs.push(v)[0]) + value_slots(
            vs.push(v).skip(1),
        ));
        assert(value_slots(vs.push(v)) =~= value_slots(vs) + padded_slot(v));
    } else {
        assert(vs.push(v).skip(1) =~= vs.skip(1).push(v));
        lemma_value_slots_snoc(vs.skip(1), v);
        assert(vs.push(v)[0] == vs[0]);
        assert(value_slots(vs.push(v)) =~= value_slots(vs) + padded_slot(v));
    }
}

/// One word appended to a boolean tail.
proof fn lemma_flag_words_snoc(fs: Seq<bool>, f: bool)
    ensures
        flag_words(fs.push(f)) == flag_words(fs) + abi_word(
            if f {
                1
            } else {
                0
            },
        ),
    decreases fs.len(),
{
    if fs.len() == 0 {
        assert(fs.push(f).skip(1) =~= Seq::<bool>::empty());
        assert(fs.push(f)[0] == f);
        assert(flag_words(Seq::<bool>::empty()) == Seq::<u8>::empty());
        assert(flag_words(fs.push(f)) == abi_word(
            if fs.push(f)[0] {
                1
            } else {
                0
            },
        ) + flag_words(fs.push(f).skip(1)));
        assert(flag_words(fs.push(f)) =~= flag_words(fs) + abi_word(
            if f {
                1
            } else {
                0
            },
        ));
    } else {
        assert(fs.push(f).skip(1) =~= fs.skip(1).push(f));
        lemma_flag_words_snoc(fs.skip(1), f);
        assert(fs.push(f)[0] == fs[0]);
        assert(flag_words(fs.push(f)) =~= flag_words(fs) + abi_word(
            if f {
                1
            } else {
                0
            },
        ));
    }
}

/// Builds the call payload for a function taking three dynamic arrays.
///
/// The selector is supplied by the caller: deriving it (the first four bytes
/// of the hash of the signature) is the one step that needs a live endpoint.
/// The output is a pure function of the arguments, byte-identical to the
/// standard head/tail dynamic-array layout for this call shape.
pub fn encode_step_call(
    selector: &Vec<u8>,
    positions: &Vec<u64>,
    values: &Vec<Vec<u8>>,
    flags: &Vec<bool>,
) -> (r: Vec<u8>)
    requires
        selector@.len() == 4,
        forall|i: int| 0 <= i < values@.len() ==> #[trigger] values@[i]@.len() <= 32,
        100 + 32 * (positions@.len() + values@.len() + flags@.len() + 3) <= usize::MAX,
    ensures
        r@ == encoded_step_call(selector@, positions@, values.deep_view(), flags@),
{
    let ghost vsview = values.deep_view();
    let np = positions.len();
    let nv = values.len();
    let nf = flags.len();
    let mut out: Vec<u8> = Vec::new();
    out.push(selector[0]);
    out.push(selector[1]);
    out.push(selector[2]);
    out.push(selector[3]);
    proof {
        assert(out@ =~= selector@);
    }

    let positions_offset: usize = 96;
    let values_offset: usize = positions_offset + 32 * (1 + np);
    let flags_offset: usize = values_offset + 32 * (1 + nv);
    push_word_u64(&mut out, positions_offset as u64);
    push_word_u64(&mut out, values_offset as u64);
    push_word_u64(&mut out, flags_offset as u64);
    push_word_u64(&mut out, np as u64);
    let ghost before_positions = out@;

    let mut i: usize = 0;
    while i < np
        invariant
            i <= np,
            np == positions@.len(),
            out@ == before_positions + word_seq_u64(positions@.take(i as int)),
        decreases np - i,
    {
        push_word_u64(&mut out, positions[i]);
        proof {
            assert(positions@.take(i + 1) =~= positions@.take(i as int).push(positions@[i as int]));
            lemma_word_seq_u64_snoc(positions@.take(i as int), positions@[i as int]);
        }
        i = i + 1;
    }
    proof {
        assert(positions@.take(np as int) =~= positions@);
    }

    push_word_u64(&mut out, nv as u64);
    let ghost before_values = out@;
    let mut j: usize = 0;
    while j < nv
        invariant
            j <= nv,
            nv == vsview.len(),
            vsview == values.deep_view(),
            forall|k: int| 0 <= k < vsview.len() ==> #[trigger] vsview[k].len() <= 32,
            out@ == before_values + value_slots(vsview.take(j as int)),
        decreases nv - j,
    {
        proof {
            assert(vsview[j as int] == values@[j as int]@);
        }
        push_value_slot(&mut out, &values[j]);
        proof {
            assert(vsview.take(j + 1) =~= vsview.take(j as int).push(vsview[j as int]));
            lemma_value_slots_snoc(vsview.take(j as int), vsview[j as int]);
        }
        j = j + 1;
    }
    proof {
        assert(vsview.take(nv as int) =~= vsview);
    }

    push_word_u64(&mut out, nf as u64);
    let ghost before_flags = out@;
    let mut k: usize = 0;
    while k < nf
        invariant
            k <= nf,
            nf == flags@.len(),
            out@ == before_flags + flag_words(flags@.take(k as int)),
        decreases nf - k,
    {
        let w: u64 = if flags[k] {
            1
        } else {
            0
        };
        push_word_u64(&mut out, w);
        proof {
            assert(flags@.take(k + 1) =~= flags@.take(k as int).push(flags@[k as int]));
            lemma_flag_words_snoc(flags@.take(k as int), flags@[k as int]);
        }
        k = k + 1;
    }
    proof {
        assert(flags@.take(nf as int) =~= flags@);
        assert(out@ =~= encoded_step_call(selector@, positions@, vsview, flags@));
    }
    out
}

/// Builds the payload of a memory-write call: the selector, two full words
/// holding the target position and the write size, and one 32-byte slot
/// holding the written bytes, left-aligned and zero-padded.
pub fn encode_memory_write_call(selector: &Vec<u8>, position: u64, size: u64, value: &Vec<u8>) -> (r:
    Vec<u8>)
    requires
        selector@.len() == 4,
        value@.len() <= 32,
    ensures
        r@ == selector@ + abi_word(position as nat) + abi_word(size as nat) + padded_slot(value@),
{
    let mut out: Vec<u8> = Vec::new();
    out.push(selector[0]);
    out.push(selector[1]);
    out.push(selector[2]);
    out.push(selector[3]);
    proof {
        assert(out@ =~= selector@);
    }
    push_word_u64(&mut out, position);
    push_word_u64(&mut out, size);
    push_value_slot(&mut out, value);
    out
}

/// Builds the payload of a single-flag call: the selector and one full word
/// holding 1 or 0.
pub fn encode_flag_call(selector: &Vec<u8>, flag: bool) -> (r: Vec<u8>)
    requires
        selector@.len() == 4,
    ensures
        r@ == selector@ + abi_word(
            if flag {
                1
            } else {
                0
            },
        ),
{
    let mut out: Vec<u8> = Vec::new();
    out.push(selector[0]);
    out.push(selector[1]);
    out.push(selector[2]);
    out.push(selector[3]);
    proof {
        assert(out@ =~= selector@);
    }
    let w: u64 = if flag {
        1
    } else {
        0
    };
    push_word_u64(&mut out, w);
    out
}

/// A numeric tail holds one 32-byte word per element.
proof fn lemma_word_seq_u64_len(xs: Seq<u64>)
    ensures
        word_seq_u64(xs).len() == 32 * xs.len(),
    decreases xs.len(),
{
    if xs.len() > 0 {
        lemma_word_seq_u64_len(xs.skip(1));
    }
}

/// A byte-blob tail holds one 32-byte slot per element.
proof fn lemma_value_slots_len(vs: Seq<Seq<u8>>)
    requires
        forall|i: int| 0 <= i < vs.len() ==> #[trigger] vs[i].len() <= 32,
    ensures
        value_slots(vs).len() == 32 * vs.len(),
    decreases vs.len(),
{
    if vs.len() > 0 {
        assert(forall|i: int| 0 <= i < vs.skip(1).len() ==> #[trigger] vs.skip(1)[i].len() <= 32);
        lemma_value_slots_len(vs.skip(1));
        assert(padded_slot(vs[0]).len() == 32);
    }
}

/// A boolean tail holds one 32-byte word per element.
proof fn lemma_flag_words_len(fs: Seq<bool>)
    ensures
        flag_words(fs).len() == 32 * fs.len(),
    decreases fs.len(),
{
    if fs.len() > 0 {
        lemma_flag_words_len(fs.skip(1));
    }
}

/// Equal concatenations with equally long first parts have equal parts.
proof fn lemma_concat_cancel(a: Seq<u8>, b: Seq<u8>, c: Seq<u8>, d: Seq<u8>)
    requires
        a.len() == c.len(),
        a + b == c + d,
    ensures
        a == c,
        b == d,
{
    assert forall|i: int| 0 <= i < a.len() implies a[i] == c[i] by {
        assert((a + b)[i] == a[i]);
        assert((c + d)[i] == c[i]);
    }
    assert(a =~= c);
    assert((a + b).len() == a.len() + b.len());
    assert((c + d).len() == c.len() + d.len());
    assert(b.len() == d.len());
    assert forall|i: int| 0 <= i < b.len() implies b[i] == d[i] by {
        assert((a + b)[i + a.len()] == b[i]);
        assert((c + d)[i + c.len()] == d[i]);
    }
    assert(b =~= d);
}

/// Values below 256^8 with the same low bytes agree modulo `pow256(j)`.
proof fn lemma_word_mod_eq(x: nat, y: nat, j: nat)
    requires
        j <= 8,
        abi_word(x) == abi_word(y),
    ensures
        x % pow256(j) == y % pow256(j),
    decreases j,
{
    if j == 0 {
        assert(x % 1 == 0) by (nonlinear_arith);
        assert(y % 1 == 0) by (nonlinear_arith);
    } else {
        lemma_word_mod_eq(x, y, (j - 1) as nat);
        let p = pow256((j - 1) as nat);
        lemma_pow256_increases(0, (j - 1) as nat);
        assert(p >= 1);
        let i = 32 - j;
        assert(abi_word(x)[i as int] == ((x / p) % 256) as u8);
        assert(abi_word(y)[i as int] == ((y / p) % 256) as u8);
        assert((x / p) % 256 == (y / p) % 256);
        assert(pow256(j) == 256 * p);
        vstd::arithmetic::div_mod::lemma_mod_breakdown(x as int, p as int, 256int);
        vstd::arithmetic::div_mod::lemma_mod_breakdown(y as int, p as int, 256int);
        assert(x % (p * 256) == p * ((x / p) % 256) + x % p);
        assert(y % (p * 256) == p * ((y / p) % 256) + y % p);
        assert(p * 256 == pow256(j));
    }
}

/// Two values below 256^8 with the same word are the same value.
proof fn lemma_abi_word_injective(x: nat, y: nat)
    requires
        x < pow256(8),
        y < pow256(8),
        abi_word(x) == abi_word(y),
    ensures
        x == y,
{
    lemma_word_mod_eq(x, y, 8);
    vstd::arithmetic::div_mod::lemma_small_mod(x, pow256(8));
    vstd::arithmetic::div_mod::lemma_small_mod(y, pow256(8));
}

/// Equally long numeric arrays with the same tail are the same array.
proof fn lemma_word_seq_u64_injective(a: Seq<u64>, b: Seq<u64>)
    requires
        a.len() == b.len(),
        word_seq_u64(a) == word_seq_u64(b),
    ensures
        a == b,
    decreases a.len(),
{
    if a.len() == 0 {
        assert(a =~= b);
    } else {
        lemma_concat_cancel(
            abi_word(a[0] as nat),
            word_seq_u64(a.skip(1)),
            abi_word(b[0] as nat),
            word_seq_u64(b.skip(1)),
        );
        lemma_pow256_values();
        lemma_abi_word_injective(a[0] as nat, b[0] as nat);
        lemma_word_seq_u64_injective(a.skip(1), b.skip(1));
        assert forall|i: int| 0 <= i < a.len() implies a[i] == b[i] by {
            if i > 0 {
                assert(a.skip(1)[i - 1] == a[i]);
                assert(b.skip(1)[i - 1] == b[i]);
            }
        }
        assert(a =~= b);
    }
}

/// Equally long elements with the same slot are the same element.
proof fn lemma_padded_slot_injective(u: Seq<u8>, w: Seq<u8>)
    requires
        u.len() == w.len(),
        u.len() <= 32,
        padded_slot(u) == padded_slot(w),
    ensures
        u == w,
{
    assert forall|i: int| 0 <= i < u.len() implies u[i] == w[i] by {
        assert(padded_slot(u)[i] == u[i]);
        assert(padded_slot(w)[i] == w[i]);
    }
    assert(u =~= w);
}

/// Byte-blob arrays of pointwise equal element widths with the same tail are
/// the same array.
proof fn lemma_value_slots_injective(a: Seq<Seq<u8>>, b: Seq<Seq<u8>>)
    requires
        a.len() == b.len(),
        forall|i: int|
            0 <= i < a.len() ==> #[trigger] a[i].len() == b[i].len() && a[i].len() <= 32,
        value_slots(a) == value_slots(b),
    ensures
        a == b,
    decreases a.len(),
{
    if a.len() == 0 {
        assert(a =~= b);
    } else {
        assert(padded_slot(a[0]).len() == 32 && padded_slot(b[0]).len() == 32);
        lemma_concat_cancel(
            padded_slot(a[0]),
            value_slots(a.skip(1)),
            padded_slot(b[0]),
            value_slots(b.skip(1)),
        );
        lemma_padded_slot_injective(a[0], b[0]);
        assert(forall|i: int|
            0 <= i < a.skip(1).len() ==> #[trigger] a.skip(1)[i].len() == b.skip(1)[i].len()
                && a.skip(1)[i].len() <= 32);
        lemma_value_slots_injective(a.skip(1), b.skip(1));
        assert forall|i: int| 0 <= i < a.len() implies a[i] == b[i] by {
            if i > 0 {
                assert(a.skip(1)[i - 1] == a[i]);
                assert(b.skip(1)[i - 1] == b[i]);
            }
        }
        assert(a =~= b);
    }
}

/// Equally long boolean arrays with the same tail are the same array.
proof fn lemma_flag_words_injective(a: Seq<bool>, b: Seq<bool>)
    requires
        a.len() == b.len(),
        flag_words(a) == flag_words(b),
    ensures
        a == b,
    decreases a.len(),
{
    if a.len() == 0 {
        assert(a =~= b);
    } else {
        let wa = abi_word(
            if a[0] {
                1
            } else {
                0
            },
        );
        let wb = abi_word(
            if b[0] {
                1
            } else {
                0
            },
        );
        lemma_concat_cancel(wa, flag_words(a.skip(1)), wb, flag_words(b.skip(1)));
        assert(wa[31] == ((if a[0] {
            1nat
        } else {
            0nat
        }) % 256) as u8);
        assert(wb[31] == ((if b[0] {
            1nat
        } else {
            0nat
        }) % 256) as u8);
        assert(a[0] == b[0]);
        lemma_flag_words_injective(a.skip(1), b.skip(1));
        assert forall|i: int| 0 <= i < a.len() implies a[i] == b[i] by {
            if i > 0 {
                assert(a.skip(1)[i - 1] == a[i]);
                assert(b.skip(1)[i - 1] == b[i]);
            }
        }
        assert(a =~= b);
    }
}

/// Encoding the same (positions, values, flags) triple twice yields
/// byte-identical output, and — for arrays of the same shape, values keeping
/// their byte widths — changing any single element changes the output.
pub proof fn lemma_step_call_encoding_faithful(
    sel: Seq<u8>,
    ps1: Seq<u64>,
    vs1: Seq<Seq<u8>>,
    fs1: Seq<bool>,
    ps2: Seq<u64>,
    vs2: Seq<Seq<u8>>,
    fs2: Seq<bool>,
)
    requires
        ps1.len() == ps2.len(),
        vs1.len() == vs2.len(),
        fs1.len() == fs2.len(),
        forall|i: int|
            0 <= i < vs1.len() ==> #[trigger] vs1[i].len() == vs2[i].len() && vs1[i].len() <= 32,
    ensures
        encoded_step_call(sel, ps1, vs1, fs1) == encoded_step_call(sel, ps2, vs2, fs2) <==> (ps1
            == ps2 && vs1 == vs2 && fs1 == fs2),
{
    if encoded_step_call(sel, ps1, vs1, fs1) == encoded_step_call(sel, ps2, vs2, fs2) {
        let head1 = sel + abi_word(first_tail_offset()) + abi_word(
            first_tail_offset() + 32 * (1 + ps1.len()),
        ) + abi_word(first_tail_offset() + 32 * (1 + ps1.len()) + 32 * (1 + vs1.len()))
            + abi_word(ps1.len());
        let head2 = sel + abi_word(first_tail_offset()) + abi_word(
            first_tail_offset() + 32 * (1 + ps2.len()),
        ) + abi_word(first_tail_offset() + 32 * (1 + ps2.len()) + 32 * (1 + vs2.len()))
            + abi_word(ps2.len());
        lemma_word_seq_u64_len(ps1);
        lemma_word_seq_u64_len(ps2);
        assert forall|i: int| 0 <= i < vs2.len() implies #[trigger] vs2[i].len() <= 32 by {
            assert(vs1[i].len() == vs2[i].len());
        }
        lemma_value_slots_len(vs1);
        lemma_value_slots_len(vs2);
        lemma_flag_words_len(fs1);
        lemma_flag_words_len(fs2);
        let a1 = head1 + word_seq_u64(ps1) + abi_word(vs1.len()) + value_slots(vs1) + abi_word(
            fs1.len(),
        );
        let a2 = head2 + word_seq_u64(ps2) + abi_word(vs2.len()) + value_slots(vs2) + abi_word(
            fs2.len(),
        );
        lemma_concat_cancel(a1, flag_words(fs1), a2, flag_words(fs2));
        lemma_flag_words_injective(fs1, fs2);
        let b1 = head1 + word_seq_u64(ps1) + abi_word(vs1.len());
        let b2 = head2 + word_seq_u64(ps2) + abi_word(vs2.len());
        lemma_concat_cancel(
            b1 + value_slots(vs1),
            abi_word(fs1.len()),
            b2 + value_slots(vs2),
            abi_word(fs2.len()),
        );
        lemma_concat_cancel(b1, value_slots(vs1), b2, value_slots(vs2));
        lemma_value_slots_injective(vs1, vs2);
        lemma_concat_cancel(
            head1 + word_seq_u64(ps1),
            abi_word(vs1.len()),
            head2 + word_seq_u64(ps2),
            abi_word(vs2.len()),
        );
        lemma_concat_cancel(head1, word_seq_u64(ps1), head2, word_seq_u64(ps2));
        lemma_word_seq_u64_injective(ps1, ps2);
    }
}

} // verus!
