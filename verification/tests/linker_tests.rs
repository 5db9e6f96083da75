use step_harness::errors::HarnessError;
use step_harness::linker::{
    apply_directive, parse_address, BytecodeArtifact, LinkDirective, LinkPlaceholder,
};

fn artifact_with_two_symbols() -> BytecodeArtifact {
    // 60 bytes of code; a placeholder for each of two libraries.
    BytecodeArtifact {
        name: b"Dependent".to_vec(),
        code: vec![0xEE; 60],
        placeholders: vec![
            LinkPlaceholder { symbol: b"LibA".to_vec(), offset: 5 },
            LinkPlaceholder { symbol: b"LibB".to_vec(), offset: 30 },
        ],
    }
}

fn addr(byte: u8) -> Vec<u8> {
    vec![byte; 20]
}

#[test]
fn apply_overwrites_the_placeholder_region() {
    let art = artifact_with_two_symbols();
    let d = LinkDirective { symbol: b"LibA".to_vec(), address: addr(0x11) };
    let out = apply_directive(&art, &d).unwrap();
    assert_eq!(out.name, b"Dependent".to_vec());
    assert_eq!(&out.code[0..5], &[0xEE; 5]);
    assert_eq!(&out.code[5..25], addr(0x11).as_slice());
    assert_eq!(&out.code[25..60], &[0xEE; 35]);
}

#[test]
fn apply_twice_equals_apply_once() {
    let art = artifact_with_two_symbols();
    let d = LinkDirective { symbol: b"LibA".to_vec(), address: addr(0x11) };
    let once = apply_directive(&art, &d).unwrap();
    let twice = apply_directive(&once, &d).unwrap();
    assert_eq!(twice.code, once.code);
}

#[test]
fn directives_apply_in_any_order() {
    let art = artifact_with_two_symbols();
    let da = LinkDirective { symbol: b"LibA".to_vec(), address: addr(0x11) };
    let db = LinkDirective { symbol: b"LibB".to_vec(), address: addr(0x22) };
    let ab = apply_directive(&apply_directive(&art, &da).unwrap(), &db).unwrap();
    let ba = apply_directive(&apply_directive(&art, &db).unwrap(), &da).unwrap();
    assert_eq!(ab.code, ba.code);
    assert_eq!(&ab.code[5..25], addr(0x11).as_slice());
    assert_eq!(&ab.code[30..50], addr(0x22).as_slice());
}

#[test]
fn unknown_symbol_is_an_error() {
    let art = artifact_with_two_symbols();
    let d = LinkDirective { symbol: b"LibC".to_vec(), address: addr(0x33) };
    assert_eq!(apply_directive(&art, &d).err(), Some(HarnessError::UnresolvedSymbol));
}

#[test]
fn wrong_address_width_is_an_error() {
    let art = artifact_with_two_symbols();
    let d = LinkDirective { symbol: b"LibA".to_vec(), address: vec![0x11; 19] };
    assert_eq!(apply_directive(&art, &d).err(), Some(HarnessError::AddressWidthMismatch));
    let d2 = LinkDirective { symbol: b"LibA".to_vec(), address: vec![0x11; 21] };
    assert_eq!(apply_directive(&art, &d2).err(), Some(HarnessError::AddressWidthMismatch));
}

#[test]
fn parse_address_reads_twenty_bytes() {
    let text = b"0x00112233445566778899aabbccddeeff00112233".to_vec();
    let a = parse_address(&text).unwrap();
    assert_eq!(a.len(), 20);
    assert_eq!(a[0], 0x00);
    assert_eq!(a[1], 0x11);
    assert_eq!(a[19], 0x33);
}

#[test]
fn parse_address_rejects_bad_input() {
    assert_eq!(parse_address(b"0x1234"), Err(HarnessError::AddressWidthMismatch));
    assert_eq!(
        parse_address(b"zz112233445566778899aabbccddeeff00112233"),
        Err(HarnessError::MalformedHex)
    );
}
