//! Resolution of symbolic library references inside compiled bytecode:
//! placeholders (symbol, byte offset) are overwritten with the resolved
//! 20-byte account address of the named library.

use vstd::prelude::*;

use crate::errors::HarnessError;

verus! {

/// One symbolic reference inside an artifact: the qualified name of the
/// library it stands for, and the byte offset of the address-wide region
/// that linking overwrites.
pub struct LinkPlaceholder {
    pub symbol: Vec<u8>,
    pub offset: usize,
}

/// A named compiled bytecode blob together with its link placeholders.
pub struct BytecodeArtifact {
    pub name: Vec<u8>,
    pub code: Vec<u8>,
    pub placeholders: Vec<LinkPlaceholder>,
}

/// A (symbolic reference, resolved address) pair to apply to one artifact.
pub struct LinkDirective {
    pub symbol: Vec<u8>,
    pub address: Vec<u8>,
}

/// The width of an account address in bytes.
pub open spec fn spec_address_width() -> int {
    20
}

/// The shape of one placeholder: its symbol and its byte offset.
pub open spec fn placeholder_model(p: LinkPlaceholder) -> (Seq<u8>, int) {
    (p.symbol@, p.offset as int)
}

/// The shapes of all placeholders of a list, in order.
pub open spec fn placeholders_model(ps: Seq<LinkPlaceholder>) -> Seq<(Seq<u8>, int)> {
    ps.map_values(|p: LinkPlaceholder| placeholder_model(p))
}

/// Every placeholder region lies inside code of the given length.
pub open spec fn placeholders_in_bounds(pm: Seq<(Seq<u8>, int)>, code_len: int) -> bool {
    forall|k: int|
        0 <= k < pm.len() ==> 0 <= (#[trigger] pm[k]).1 && pm[k].1 + spec_address_width()
            <= code_len
}

/// No two placeholder regions overlap.
pub open spec fn placeholders_disjoint(pm: Seq<(Seq<u8>, int)>) -> bool {
    forall|k1: int, k2: int|
        0 <= k1 < k2 < pm.len() ==> (#[trigger] pm[k1]).1 + spec_address_width()
            <= (#[trigger] pm[k2]).1 || pm[k2].1 + spec_address_width() <= pm[k1].1
}

/// A well-formed artifact: placeholder regions in bounds and disjoint.
pub open spec fn artifact_wf(a: BytecodeArtifact) -> bool {
    placeholders_in_bounds(placeholders_model(a.placeholders@), a.code@.len() as int)
        && placeholders_disjoint(placeholders_model(a.placeholders@))
}

/// Placeholder `p` stands for `sym` and its region holds byte index `i`.
pub open spec fn covers(p: (Seq<u8>, int), sym: Seq<u8>, i: int) -> bool {
    p.0 == sym && p.1 <= i < p.1 + spec_address_width()
}

/// Some placeholder stands for `sym`.
pub open spec fn has_symbol(pm: Seq<(Seq<u8>, int)>, sym: Seq<u8>) -> bool {
    exists|k: int| 0 <= k < pm.len() && (#[trigger] pm[k]).0 == sym
}

/// Byte `i` of the code after `sym`'s placeholders are overwritten with
/// `addr`: an address byte inside a covered region, the old byte elsewhere.
pub open spec fn linked_byte(
    code: Seq<u8>,
    pm: Seq<(Seq<u8>, int)>,
    sym: Seq<u8>,
    addr: Seq<u8>,
    i: int,
) -> u8 {
    if exists|k: int| 0 <= k < pm.len() && covers(#[trigger] pm[k], sym, i) {
        let k = choose|k: int| 0 <= k < pm.len() && covers(#[trigger] pm[k], sym, i);
        addr[i - pm[k].1]
    } else {
        code[i]
    }
}

/// The code after one directive is applied.
pub open spec fn linked_code(
    code: Seq<u8>,
    pm: Seq<(Seq<u8>, int)>,
    sym: Seq<u8>,
    addr: Seq<u8>,
) -> Seq<u8> {
    Seq::new(code.len(), |i: int| linked_byte(code, pm, sym, addr, i))
}

/// At most one placeholder of a disjoint list covers a given byte.
proof fn lemma_cover_unique(pm: Seq<(Seq<u8>, int)>, sym: Seq<u8>, i: int, k1: int, k2: int)
    requires
        placeholders_disjoint(pm),
        0 <= k1 < pm.len(),
        0 <= k2 < pm.len(),
        covers(pm[k1], sym, i),
        covers(pm[k2], sym, i),
    ensures
        k1 == k2,
{
    if k1 < k2 {
        assert(pm[k1].1 + spec_address_width() <= pm[k2].1 || pm[k2].1 + spec_address_width()
            <= pm[k1].1);
    } else if k2 < k1 {
        assert(pm[k2].1 + spec_address_width() <= pm[k1].1 || pm[k1].1 + spec_address_width()
            <= pm[k2].1);
    }
}

/// Reads a textual hex account address into its 20 raw bytes.
///
/// Fails with `MalformedHex` exactly when the text does not decode, and
/// with `AddressWidthMismatch` exactly when it decodes to anything but 20
/// bytes.
pub fn parse_address(text: &[u8]) -> (r: Result<Vec<u8>, HarnessError>)
    ensures
        match r {
            Ok(a) => {
                &&& crate::hexcodec::all_hex(crate::hexcodec::hex_body(text@))
                &&& a@ == crate::hexcodec::decoded_hex(crate::hexcodec::hex_body(text@))
                &&& a@.len() == spec_address_width()
            },
            Err(e) => {
                &&& (e == HarnessError::MalformedHex <==> !crate::hexcodec::all_hex(
                    crate::hexcodec::hex_body(text@),
                ))
                &&& (e == HarnessError::AddressWidthMismatch <==> crate::hexcodec::all_hex(
                    crate::hexcodec::hex_body(text@),
                ) && crate::hexcodec::decoded_hex(crate::hexcodec::hex_body(text@)).len()
                    != spec_address_width())
                &&& (e == HarnessError::MalformedHex || e == HarnessError::AddressWidthMismatch)
            },
        },
{
    match crate::hexcodec::from_hex(text) {
        Ok(bytes) => {
            if bytes.len() == 20 {
                Ok(bytes)
            } else {
                Err(HarnessError::AddressWidthMismatch)
            }
        },
        Err(e) => Err(e),
    }
}

/// Are the two byte strings equal?
pub fn bytes_eq(a: &Vec<u8>, b: &Vec<u8>) -> (r: bool)
    ensures
        r == (a@ == b@),
{
    if a.len() != b.len() {
        return false;
    }
    let mut i: usize = 0;
    while i < a.len()
        invariant
            a@.len() == b@.len(),
            i <= a@.len(),
            forall|j: int| 0 <= j < i ==> a@[j] == b@[j],
        decreases a@.len() - i,
    {
        if a[i] != b[i] {
            return false;
        }
        i = i + 1;
    }
    proof {
        assert(a@ =~= b@);
    }
    true
}

/// A fresh copy of a byte string.
pub fn copy_bytes(src: &Vec<u8>) -> (r: Vec<u8>)
    ensures
        r@ == src@,
{
    let mut out: Vec<u8> = Vec::new();
    let mut i: usize = 0;
    while i < src.len()
        invariant
            i <= src@.len(),
            out@ == src@.take(i as int),
        decreases src@.len() - i,
    {
        out.push(src[i]);
        proof {
            assert(out@ =~= src@.take(i + 1));
        }
        i = i + 1;
    }
    proof {
        assert(src@.take(src@.len() as int) =~= src@);
    }
    out
}

/// The index of a placeholder for `sym` whose region holds byte `i`, if any.
fn find_cover(ps: &Vec<LinkPlaceholder>, sym: &Vec<u8>, i: usize) -> (r: Option<usize>)
    ensures
        match r {
            Some(k) => k < ps@.len() && covers(placeholders_model(ps@)[k as int], sym@, i as int),
            None => forall|k: int|
                0 <= k < ps@.len() ==> !covers(#[trigger] placeholders_model(ps@)[k], sym@, i as int),
        },
{
    let ghost pm = placeholders_model(ps@);
    let mut t: usize = 0;
    while t < ps.len()
        invariant
            t <= ps@.len(),
            pm == placeholders_model(ps@),
            forall|k: int| 0 <= k < t ==> !covers(#[trigger] pm[k], sym@, i as int),
        decreases ps@.len() - t,
    {
        let p = &ps[t];
        proof {
            assert(pm[t as int] == placeholder_model(ps@[t as int]));
        }
        if p.offset <= i && i - p.offset < 20 && bytes_eq(&p.symbol, sym) {
            return Some(t);
        }
        t = t + 1;
    }
    None
}

/// Does some placeholder stand for `sym`?
fn find_symbol(ps: &Vec<LinkPlaceholder>, sym: &Vec<u8>) -> (r: bool)
    ensures
        r == has_symbol(placeholders_model(ps@), sym@),
{
    let ghost pm = placeholders_model(ps@);
    let mut t: usize = 0;
    while t < ps.len()
        invariant
            t <= ps@.len(),
            pm == placeholders_model(ps@),
            forall|k: int| 0 <= k < t ==> (#[trigger] pm[k]).0 != sym@,
        decreases ps@.len() - t,
    {
        proof {
            assert(pm[t as int] == placeholder_model(ps@[t as int]));
        }
        if bytes_eq(&ps[t].symbol, sym) {
            return true;
        }
        t = t + 1;
    }
    false
}

/// A fresh copy of a placeholder list, of the same shape.
pub fn copy_placeholders(ps: &Vec<LinkPlaceholder>) -> (r: Vec<LinkPlaceholder>)
    ensures
        placeholders_model(r@) == placeholders_model(ps@),
{
    let mut out: Vec<LinkPlaceholder> = Vec::new();
    let mut t: usize = 0;
    while t < ps.len()
        invariant
            t <= ps@.len(),
            out@.len() == t,
            forall|k: int| 0 <= k < t ==> (#[trigger] out@[k]).symbol@ == ps@[k].symbol@,
            forall|k: int| 0 <= k < t ==> (#[trigger] out@[k]).offset == ps@[k].offset,
        decreases ps@.len() - t,
    {
        let p = &ps[t];
        out.push(LinkPlaceholder { symbol: copy_bytes(&p.symbol), offset: p.offset });
        t = t + 1;
    }
    proof {
        assert forall|k: int|
            0 <= k < ps@.len() implies #[trigger] placeholders_model(out@)[k]
            == placeholders_model(ps@)[k] by {
            assert(placeholders_model(out@)[k] == placeholder_model(out@[k]));
            assert(placeholders_model(ps@)[k] == placeholder_model(ps@[k]));
        }
        assert(placeholders_model(out@) =~= placeholders_model(ps@));
    }
    out
}

/// A fresh copy of an artifact, of the same name, code and shape.
pub fn copy_artifact(art: &BytecodeArtifact) -> (r: BytecodeArtifact)
    ensures
        r.name@ == art.name@,
        r.code@ == art.code@,
        placeholders_model(r.placeholders@) == placeholders_model(art.placeholders@),
{
    BytecodeArtifact {
        name: copy_bytes(&art.name),
        code: copy_bytes(&art.code),
        placeholders: copy_placeholders(&art.placeholders),
    }
}

/// Applies one directive: overwrites every region of a placeholder bearing
/// the directive's symbol with the resolved address.
///
/// Fails with `AddressWidthMismatch` exactly when the address is not 20
/// bytes, and otherwise with `UnresolvedSymbol` exactly when no placeholder
/// bears the symbol. The placeholders survive in the result, so applying the
/// same directive again rewrites the same bytes.
pub fn apply_directive(art: &BytecodeArtifact, d: &LinkDirective) -> (r: Result<
    BytecodeArtifact,
    HarnessError,
>)
    requires
        artifact_wf(*art),
    ensures
        match r {
            Ok(out) => {
                &&& d.address@.len() == spec_address_width()
                &&& has_symbol(placeholders_model(art.placeholders@), d.symbol@)
                &&& out.name@ == art.name@
                &&& placeholders_model(out.placeholders@) == placeholders_model(art.placeholders@)
                &&& out.code@ == linked_code(
                    art.code@,
                    placeholders_model(art.placeholders@),
                    d.symbol@,
                    d.address@,
                )
                &&& artifact_wf(out)
            },
            Err(e) => {
                &&& (e == HarnessError::AddressWidthMismatch <==> d.address@.len()
                    != spec_address_width())
                &&& (e == HarnessError::UnresolvedSymbol <==> d.address@.len()
                    == spec_address_width() && !has_symbol(
                    placeholders_model(art.placeholders@),
                    d.symbol@,
                ))
                &&& (e == HarnessError::AddressWidthMismatch || e == HarnessError::UnresolvedSymbol)
            },
        },
{
    if d.address.len() != 20 {
        return Err(HarnessError::AddressWidthMismatch);
    }
    if !find_symbol(&art.placeholders, &d.symbol) {
        return Err(HarnessError::UnresolvedSymbol);
    }
    let ghost pm = placeholders_model(art.placeholders@);
    let ghost sym = d.symbol@;
    let ghost addr = d.address@;
    let ghost target = linked_code(art.code@, pm, sym, addr);
    let mut out_code: Vec<u8> = Vec::new();
    let mut i: usize = 0;
    while i < art.code.len()
        invariant
            artifact_wf(*art),
            i <= art.code@.len(),
            pm == placeholders_model(art.placeholders@),
            sym == d.symbol@,
            addr == d.address@,
            addr.len() == spec_address_width(),
            target == linked_code(art.code@, pm, sym, addr),
            out_code@ == target.take(i as int),
        decreases art.code@.len() - i,
    {
        match find_cover(&art.placeholders, &d.symbol, i) {
            Some(k) => {
                proof {
                    assert(covers(pm[k as int], sym, i as int));
                    let k2 = choose|k2: int| 0 <= k2 < pm.len() && covers(#[trigger] pm[k2], sym, i as int);
                    lemma_cover_unique(pm, sym, i as int, k as int, k2);
                    assert(target[i as int] == addr[i - pm[k as int].1]);
                    assert(pm[k as int] == placeholder_model(art.placeholders@[k as int]));
                }
                let off = art.placeholders[k].offset;
                out_code.push(d.address[i - off]);
            },
            None => {
                proof {
                    assert(target[i as int] == art.code@[i as int]);
                }
                out_code.push(art.code[i]);
            },
        }
        proof {
            assert(out_code@ =~= target.take(i + 1));
        }
        i = i + 1;
    }
    proof {
        assert(target.take(art.code@.len() as int) =~= target);
    }
    let out = BytecodeArtifact {
        name: copy_bytes(&art.name),
        code: out_code,
        placeholders: copy_placeholders(&art.placeholders),
    };
    Ok(out)
}

/// Applying the same directive twice gives the bytes one application gives.
pub proof fn lemma_link_idempotent(
    code: Seq<u8>,
    pm: Seq<(Seq<u8>, int)>,
    sym: Seq<u8>,
    addr: Seq<u8>,
)
    requires
        placeholders_disjoint(pm),
    ensures
        linked_code(linked_code(code, pm, sym, addr), pm, sym, addr) == linked_code(
            code,
            pm,
            sym,
            addr,
        ),
{
    let once = linked_code(code, pm, sym, addr);
    let twice = linked_code(once, pm, sym, addr);
    assert forall|i: int| 0 <= i < code.len() implies twice[i] == once[i] by {
        if exists|k: int| 0 <= k < pm.len() && covers(#[trigger] pm[k], sym, i) {
            let k1 = choose|k: int| 0 <= k < pm.len() && covers(#[trigger] pm[k], sym, i);
            assert(twice[i] == addr[i - pm[k1].1]);
            assert(once[i] == addr[i - pm[k1].1]);
        } else {
            assert(twice[i] == once[i]);
        }
    }
    assert(twice =~= once);
}

/// Directives for two distinct symbols may be applied in either order.
pub proof fn lemma_link_commutes(
    code: Seq<u8>,
    pm: Seq<(Seq<u8>, int)>,
    sym1: Seq<u8>,
    addr1: Seq<u8>,
    sym2: Seq<u8>,
    addr2: Seq<u8>,
)
    requires
        placeholders_disjoint(pm),
        sym1 != sym2,
    ensures
        linked_code(linked_code(code, pm, sym1, addr1), pm, sym2, addr2) == linked_code(
            linked_code(code, pm, sym2, addr2),
            pm,
            sym1,
            addr1,
        ),
{
    let ab = linked_code(linked_code(code, pm, sym1, addr1), pm, sym2, addr2);
    let ba = linked_code(linked_code(code, pm, sym2, addr2), pm, sym1, addr1);
    assert forall|i: int| 0 <= i < code.len() implies ab[i] == ba[i] by {
        if exists|k: int| 0 <= k < pm.len() && covers(#[trigger] pm[k], sym2, i) {
            let k2 = choose|k: int| 0 <= k < pm.len() && covers(#[trigger] pm[k], sym2, i);
            assert(ab[i] == addr2[i - pm[k2].1]);
            assert(!exists|k: int| 0 <= k < pm.len() && covers(#[trigger] pm[k], sym1, i)) by {
                if exists|k: int| 0 <= k < pm.len() && covers(#[trigger] pm[k], sym1, i) {
                    let k1 = choose|k: int| 0 <= k < pm.len() && covers(#[trigger] pm[k], sym1, i);
                    if k1 < k2 {
                        assert(pm[k1].1 + spec_address_width() <= pm[k2].1 || pm[k2].1
                            + spec_address_width() <= pm[k1].1);
                    } else if k2 < k1 {
                        assert(pm[k2].1 + spec_address_width() <= pm[k1].1 || pm[k1].1
                            + spec_address_width() <= pm[k2].1);
                    } else {
                        assert(pm[k1].0 == sym1 && pm[k1].0 == sym2);
                    }
                }
            }
            assert(ba[i] == addr2[i - pm[k2].1]);
        } else if exists|k: int| 0 <= k < pm.len() && covers(#[trigger] pm[k], sym1, i) {
            let k1 = choose|k: int| 0 <= k < pm.len() && covers(#[trigger] pm[k], sym1, i);
            assert(ab[i] == addr1[i - pm[k1].1]);
            assert(ba[i] == addr1[i - pm[k1].1]);
        } else {
            assert(ab[i] == code[i] && ba[i] == code[i]);
        }
    }
    assert(ab =~= ba);
}

} // verus!
