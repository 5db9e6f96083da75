use step_harness::calldata::{
    encode_flag_call, encode_memory_write_call, encode_step_call, selector_from_hash,
    step_call_signature,
};
use step_harness::errors::HarnessError;

fn word(x: u64) -> Vec<u8> {
    let mut w = vec![0u8; 24];
    w.extend_from_slice(&x.to_be_bytes());
    w
}

fn sample_inputs() -> (Vec<u8>, Vec<u64>, Vec<Vec<u8>>, Vec<bool>) {
    let selector = vec![0x01, 0x02, 0x03, 0x04];
    let positions = vec![1u64, 2u64];
    let values = vec![vec![0x01, 0x02, 0x03, 0x04, 0x05, 0x06, 0x07, 0x08], vec![0x00]];
    let flags = vec![true, false];
    (selector, positions, values, flags)
}

#[test]
fn step_signature_text() {
    assert_eq!(step_call_signature(), "step(uint64[],bytes8[],bool[])");
}

#[test]
fn selector_is_the_first_four_hash_bytes() {
    let hash: Vec<u8> = (0u8..32u8).collect();
    assert_eq!(selector_from_hash(&hash).unwrap(), vec![0, 1, 2, 3]);
    assert_eq!(
        selector_from_hash(&vec![1, 2, 3]),
        Err(HarnessError::EncodingFailed)
    );
}

#[test]
fn head_words_hold_running_offsets() {
    let (selector, positions, values, flags) = sample_inputs();
    let out = encode_step_call(&selector, &positions, &values, &flags);
    // Three head words of 32 bytes each: the first array's data begins at
    // 0x60; each array then contributes 32 * (1 + its element count), so the
    // next offsets are 0x60 + 0x60 = 0xC0 and 0xC0 + 0x60 = 0x120.
    assert_eq!(&out[0..4], &[0x01, 0x02, 0x03, 0x04]);
    assert_eq!(&out[4..36], word(0x60).as_slice());
    assert_eq!(&out[36..68], word(0xC0).as_slice());
    assert_eq!(&out[68..100], word(0x120).as_slice());
}

#[test]
fn tail_holds_lengths_and_elements() {
    let (selector, positions, values, flags) = sample_inputs();
    let out = encode_step_call(&selector, &positions, &values, &flags);
    assert_eq!(out.len(), 4 + 3 * 32 + 3 * (32 + 2 * 32));
    // positions: length word, then one right-aligned word per element
    assert_eq!(&out[100..132], word(2).as_slice());
    assert_eq!(&out[132..164], word(1).as_slice());
    assert_eq!(&out[164..196], word(2).as_slice());
    // values: length word, then one left-aligned zero-padded slot per element
    assert_eq!(&out[196..228], word(2).as_slice());
    let mut slot1 = vec![0x01, 0x02, 0x03, 0x04, 0x05, 0x06, 0x07, 0x08];
    slot1.resize(32, 0);
    assert_eq!(&out[228..260], slot1.as_slice());
    assert_eq!(&out[260..292], vec![0u8; 32].as_slice());
    // flags: length word, then 1 or 0 as a full word per element
    assert_eq!(&out[292..324], word(2).as_slice());
    assert_eq!(&out[324..356], word(1).as_slice());
    assert_eq!(&out[356..388], word(0).as_slice());
}

#[test]
fn memory_write_call_holds_position_size_and_slot() {
    let selector = vec![0xaa, 0xbb, 0xcc, 0xdd];
    let value = vec![1, 2, 3, 4, 5, 6, 7, 8];
    let out = encode_memory_write_call(&selector, 0x2000, 8, &value);
    assert_eq!(out.len(), 4 + 3 * 32);
    assert_eq!(&out[0..4], selector.as_slice());
    assert_eq!(&out[4..36], word(0x2000).as_slice());
    assert_eq!(&out[36..68], word(8).as_slice());
    let mut slot = value.clone();
    slot.resize(32, 0);
    assert_eq!(&out[68..100], slot.as_slice());
}

#[test]
fn flag_call_holds_one_full_word() {
    let selector = vec![0x10, 0x20, 0x30, 0x40];
    let on = encode_flag_call(&selector, true);
    assert_eq!(on.len(), 4 + 32);
    assert_eq!(&on[0..4], selector.as_slice());
    assert_eq!(&on[4..36], word(1).as_slice());
    let off = encode_flag_call(&selector, false);
    assert_eq!(&off[4..36], word(0).as_slice());
}

#[test]
fn encoding_is_deterministic() {
    let (selector, positions, values, flags) = sample_inputs();
    let a = encode_step_call(&selector, &positions, &values, &flags);
    let b = encode_step_call(&selector, &positions, &values, &flags);
    assert_eq!(a, b);
}

#[test]
fn changing_one_element_changes_the_output() {
    let (selector, positions, values, flags) = sample_inputs();
    let base = encode_step_call(&selector, &positions, &values, &flags);

    let mut p2 = positions.clone();
    p2[1] = 3;
    assert_ne!(base, encode_step_call(&selector, &p2, &values, &flags));

    let mut v2 = values.clone();
    v2[0][7] = 0x09;
    assert_ne!(base, encode_step_call(&selector, &positions, &v2, &flags));

    let mut f2 = flags.clone();
    f2[0] = false;
    assert_ne!(base, encode_step_call(&selector, &positions, &values, &f2));
}

#[test]
fn empty_arrays_encode_heads_and_zero_lengths() {
    let selector = vec![0xaa, 0xbb, 0xcc, 0xdd];
    let out = encode_step_call(&selector, &Vec::new(), &Vec::new(), &Vec::new());
    assert_eq!(out.len(), 4 + 3 * 32 + 3 * 32);
    assert_eq!(&out[4..36], word(0x60).as_slice());
    assert_eq!(&out[36..68], word(0x80).as_slice());
    assert_eq!(&out[68..100], word(0xA0).as_slice());
    assert_eq!(&out[100..132], word(0).as_slice());
    assert_eq!(&out[132..164], word(0).as_slice());
    assert_eq!(&out[164..196], word(0).as_slice());
}
