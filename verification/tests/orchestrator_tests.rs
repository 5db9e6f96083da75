use step_harness::errors::HarnessError;
use step_harness::orchestrator::{
    check_mode_supported, classify_run, parse_access, parse_mode, partition_accesses,
    preload_chunks, u64_from_be, AccessKind, AccessRecord, Mode, RawAccess, RunDriver, RunPhase,
    PROGRAM_BASE,
};

#[test]
fn mode_words_parse() {
    assert_eq!(parse_mode(&b"run".to_vec()), Ok(Mode::Run));
    assert_eq!(parse_mode(&b"sequence".to_vec()), Ok(Mode::Sequence));
    assert_eq!(parse_mode(&b"proof".to_vec()), Ok(Mode::Proof));
    assert_eq!(parse_mode(&b"walk".to_vec()), Err(HarnessError::ConfigMalformed));
    assert_eq!(parse_mode(&b"".to_vec()), Err(HarnessError::ConfigMalformed));
}

#[test]
fn proof_mode_is_an_unconditional_abort() {
    assert_eq!(check_mode_supported(Mode::Run), Ok(()));
    assert_eq!(check_mode_supported(Mode::Sequence), Ok(()));
    assert_eq!(check_mode_supported(Mode::Proof), Err(HarnessError::UnsupportedMode));
}

#[test]
fn read_access_takes_its_value_from_the_read_field() {
    let raw = RawAccess {
        kind_text: b"read".to_vec(),
        address: 0x100,
        read: Some(b"0x0102030405060708".to_vec()),
        written: None,
    };
    let a = parse_access(&raw).unwrap();
    assert_eq!(a.kind, AccessKind::Read);
    assert_eq!(a.address, 0x100);
    assert_eq!(a.value, vec![1, 2, 3, 4, 5, 6, 7, 8]);
}

#[test]
fn write_access_takes_its_value_from_the_written_field() {
    let raw = RawAccess {
        kind_text: b"write".to_vec(),
        address: 8,
        read: None,
        written: Some(b"ff00000000000001".to_vec()),
    };
    let a = parse_access(&raw).unwrap();
    assert_eq!(a.kind, AccessKind::Write);
    assert_eq!(a.value, vec![0xff, 0, 0, 0, 0, 0, 0, 0x01]);
}

#[test]
fn access_value_must_decode_to_eight_bytes() {
    let short = RawAccess {
        kind_text: b"read".to_vec(),
        address: 0,
        read: Some(b"0xff00".to_vec()),
        written: None,
    };
    assert_eq!(parse_access(&short).err(), Some(HarnessError::ConfigMalformed));
    let long = RawAccess {
        kind_text: b"write".to_vec(),
        address: 0,
        read: None,
        written: Some(b"010203040506070809".to_vec()),
    };
    assert_eq!(parse_access(&long).err(), Some(HarnessError::ConfigMalformed));
}

#[test]
fn malformed_accesses_are_rejected() {
    let missing = RawAccess { kind_text: b"read".to_vec(), address: 0, read: None, written: None };
    assert_eq!(parse_access(&missing).err(), Some(HarnessError::ConfigMalformed));
    let unknown = RawAccess {
        kind_text: b"peek".to_vec(),
        address: 0,
        read: Some(b"00".to_vec()),
        written: Some(b"00".to_vec()),
    };
    assert_eq!(parse_access(&unknown).err(), Some(HarnessError::ConfigMalformed));
    let bad_hex = RawAccess {
        kind_text: b"read".to_vec(),
        address: 0,
        read: Some(b"0xzz".to_vec()),
        written: None,
    };
    assert_eq!(parse_access(&bad_hex).err(), Some(HarnessError::MalformedHex));
}

#[test]
fn partition_splits_accesses_into_parallel_arrays() {
    let accesses = vec![
        AccessRecord { kind: AccessKind::Read, address: 16, value: vec![1, 2] },
        AccessRecord { kind: AccessKind::Write, address: 24, value: vec![3] },
        AccessRecord { kind: AccessKind::Read, address: 32, value: vec![4, 5, 6] },
    ];
    let (positions, values, flags) = partition_accesses(&accesses);
    assert_eq!(positions, vec![16, 24, 32]);
    assert_eq!(values, vec![vec![1, 2], vec![3], vec![4, 5, 6]]);
    assert_eq!(flags, vec![true, false, true]);
}

#[test]
fn big_endian_accumulation() {
    assert_eq!(u64_from_be(&vec![]), 0);
    assert_eq!(u64_from_be(&vec![0x03, 0xe8]), 1000);
    let mut word = vec![0u8; 32];
    word[30] = 0x03;
    word[31] = 0xe8;
    assert_eq!(u64_from_be(&word), 1000);
    assert_eq!(u64_from_be(&vec![0x01, 0x00, 0x00]), 65536);
}

#[test]
fn preload_cuts_images_into_eight_byte_writes() {
    let data: Vec<u8> = (0u8..16u8).collect();
    let writes = preload_chunks(&data, 0x1000);
    assert_eq!(writes.len(), 2);
    assert_eq!(writes[0].address, 0x1000);
    assert_eq!(writes[0].bytes, (0u8..8u8).collect::<Vec<u8>>());
    assert_eq!(writes[1].address, 0x1008);
    assert_eq!(writes[1].bytes, (8u8..16u8).collect::<Vec<u8>>());
    assert_eq!(PROGRAM_BASE, 0x80000000);
}

fn halted_word() -> Vec<u8> {
    let mut w = vec![0u8; 32];
    w[31] = 1;
    w
}

fn counter_word(x: u64) -> Vec<u8> {
    let mut w = vec![0u8; 24];
    w.extend_from_slice(&x.to_be_bytes());
    w
}

#[test]
fn run_reaching_expected_mcycle_is_a_success() {
    let mut driver = RunDriver::new(1000);
    // two steps before the halt flag is seen
    driver.on_step_sent();
    driver.on_halt_read(&vec![0u8; 32]);
    assert_eq!(driver.phase, RunPhase::ResetYield);
    driver.on_yield_reset();
    driver.on_step_sent();
    driver.on_halt_read(&halted_word());
    assert_eq!(driver.phase, RunPhase::ReadCycle);
    driver.on_mcycle_read(&counter_word(1000));
    let report = driver.on_exit_read(&counter_word(0));
    assert!(report.passed);
    assert_eq!(report.expected_mcycle, 1000);
    assert_eq!(report.actual_mcycle, 1000);
    assert_eq!(report.exit_code, 0);
    assert_eq!(driver.step_counter, 2);
}

#[test]
fn run_halting_one_cycle_short_is_a_failure_with_both_values() {
    let mut driver = RunDriver::new(1000);
    driver.on_step_sent();
    driver.on_halt_read(&halted_word());
    driver.on_mcycle_read(&counter_word(999));
    let report = driver.on_exit_read(&counter_word(7));
    assert!(!report.passed);
    assert_eq!(report.expected_mcycle, 1000);
    assert_eq!(report.actual_mcycle, 999);
    assert_eq!(report.exit_code, 7);
}

#[test]
fn rpc_failure_aborts_the_run() {
    let mut driver = RunDriver::new(5);
    driver.on_step_sent();
    assert_eq!(driver.abort_error(), None);
    driver.on_rpc_failure();
    assert_eq!(driver.phase, RunPhase::Aborted);
    assert_eq!(driver.abort_error(), Some(HarnessError::RpcFailure));
}

#[test]
fn classify_keeps_both_values_in_the_report() {
    let r = classify_run(10, 10, 0);
    assert!(r.passed);
    let r = classify_run(10, 9, 3);
    assert!(!r.passed);
    assert_eq!(r.expected_mcycle, 10);
    assert_eq!(r.actual_mcycle, 9);
    assert_eq!(r.exit_code, 3);
}
