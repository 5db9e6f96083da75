//! The test-sequence orchestrator's decisions: test modes, access records
//! parsed from recorded traces, the partition of a step's accesses into the
//! three call arrays, memory preload chunking, big-endian readback of
//! counters, the run-mode polling state machine, and the final verdict.

use vstd::prelude::*;

use crate::calldata::pow256;
use crate::errors::HarnessError;
use crate::hexcodec::all_hex;
use crate::hexcodec::decoded_hex;
use crate::hexcodec::from_hex;
use crate::hexcodec::hex_body;

verus! {

/// The virtual base address reserved for program text: the test program is
/// always loaded last, at this position.
pub const PROGRAM_BASE: u64 = 0x80000000;

/// The three test modes the harness accepts.
#[derive(Clone, Copy, Debug, PartialEq, Eq, Structural)]
pub enum Mode {
    Run,
    Proof,
    Sequence,
}

/// The bytes of the mode word `run`.
pub open spec fn mode_run_text() -> Seq<u8> {
    seq![0x72u8, 0x75u8, 0x6eu8]
}

/// The bytes of the mode word `sequence`.
pub open spec fn mode_sequence_text() -> Seq<u8> {
    seq![0x73u8, 0x65u8, 0x71u8, 0x75u8, 0x65u8, 0x6eu8, 0x63u8, 0x65u8]
}

/// The bytes of the mode word `proof`.
pub open spec fn mode_proof_text() -> Seq<u8> {
    seq![0x70u8, 0x72u8, 0x6fu8, 0x6fu8, 0x66u8]
}

/// Reads a mode word. Fails with `ConfigMalformed` exactly when the text is
/// none of `run`, `sequence` and `proof`.
pub fn parse_mode(text: &Vec<u8>) -> (r: Result<Mode, HarnessError>)
    ensures
        r == Ok::<Mode, HarnessError>(Mode::Run) <==> text@ == mode_run_text(),
        r == Ok::<Mode, HarnessError>(Mode::Sequence) <==> text@ == mode_sequence_text(),
        r == Ok::<Mode, HarnessError>(Mode::Proof) <==> text@ == mode_proof_text(),
        r is Err ==> r == Err::<Mode, HarnessError>(HarnessError::ConfigMalformed),
{
    let mut word: Vec<u8> = Vec::new();
    word.push(0x72);
    word.push(0x75);
    word.push(0x6e);
    proof {
        assert(word@ =~= mode_run_text());
    }
    if crate::linker::bytes_eq(text, &word) {
        return Ok(Mode::Run);
    }
    word.clear();
    word.push(0x73);
    word.push(0x65);
    word.push(0x71);
    word.push(0x75);
    word.push(0x65);
    word.push(0x6e);
    word.push(0x63);
    word.push(0x65);
    proof {
        assert(word@ =~= mode_sequence_text());
    }
    if crate::linker::bytes_eq(text, &word) {
        return Ok(Mode::Sequence);
    }
    word.clear();
    word.push(0x70);
    word.push(0x72);
    word.push(0x6f);
    word.push(0x6f);
    word.push(0x66);
    proof {
        assert(word@ =~= mode_proof_text());
    }
    if crate::linker::bytes_eq(text, &word) {
        return Ok(Mode::Proof);
    }
    Err(HarnessError::ConfigMalformed)
}

/// Whether a mode can be run. Proof mode is reserved and unimplemented:
/// asking for it is an unconditional abort, never a silent no-op.
pub fn check_mode_supported(mode: Mode) -> (r: Result<(), HarnessError>)
    ensures
        r is Ok <==> !(mode is Proof),
        r is Err ==> r == Err::<(), HarnessError>(HarnessError::UnsupportedMode),
{
    match mode {
        Mode::Proof => Err(HarnessError::UnsupportedMode),
        _ => Ok(()),
    }
}

/// The direction of one recorded memory access.
#[derive(Clone, Copy, Debug, PartialEq, Eq, Structural)]
pub enum AccessKind {
    Read,
    Write,
}

/// One memory access within a recorded step: its direction, the target
/// address, and the associated value, already decoded from hex.
pub struct AccessRecord {
    pub kind: AccessKind,
    pub address: u64,
    pub value: Vec<u8>,
}

/// One access as it stands in a trace file: the direction as text, and the
/// value as hex under `read` or `written` according to the direction.
pub struct RawAccess {
    pub kind_text: Vec<u8>,
    pub address: u64,
    pub read: Option<Vec<u8>>,
    pub written: Option<Vec<u8>>,
}

/// The bytes of the access kind `read`.
pub open spec fn kind_read_text() -> Seq<u8> {
    seq![0x72u8, 0x65u8, 0x61u8, 0x64u8]
}

/// The bytes of the access kind `write`.
pub open spec fn kind_write_text() -> Seq<u8> {
    seq![0x77u8, 0x72u8, 0x69u8, 0x74u8, 0x65u8]
}

/// The hex text that carries a raw access's value: `read` for a read,
/// `written` for a write, nothing for an unknown direction or a missing
/// field.
pub open spec fn raw_value_text(raw: RawAccess) -> Option<Seq<u8>> {
    if raw.kind_text@ == kind_read_text() {
        match raw.read {
            Some(v) => Some(v@),
            None => None,
        }
    } else if raw.kind_text@ == kind_write_text() {
        match raw.written {
            Some(v) => Some(v@),
            None => None,
        }
    } else {
        None
    }
}

/// The width of one access's value: the fixed 8-byte payload of a step.
pub open spec fn spec_access_value_width() -> int {
    8
}

/// Parses one recorded access: checks its direction word, demands the value
/// field that direction requires, and decodes the value from hex.
///
/// Fails with `MalformedHex` exactly when the value text does not decode,
/// and with `ConfigMalformed` exactly when the direction is neither `read`
/// nor `write`, its value field is missing, or the value does not decode to
/// the fixed 8-byte payload.
pub fn parse_access(raw: &RawAccess) -> (r: Result<AccessRecord, HarnessError>)
    ensures
        match r {
            Ok(a) => {
                &&& raw_value_text(*raw) is Some
                &&& all_hex(hex_body(raw_value_text(*raw).unwrap()))
                &&& a.kind == (if raw.kind_text@ == kind_read_text() {
                    AccessKind::Read
                } else {
                    AccessKind::Write
                })
                &&& a.address == raw.address
                &&& a.value@ == decoded_hex(hex_body(raw_value_text(*raw).unwrap()))
                &&& a.value@.len() == spec_access_value_width()
            },
            Err(e) => {
                &&& (e == HarnessError::ConfigMalformed <==> raw_value_text(*raw) is None || (
                raw_value_text(*raw) is Some && all_hex(hex_body(raw_value_text(*raw).unwrap()))
                    && decoded_hex(hex_body(raw_value_text(*raw).unwrap())).len()
                    != spec_access_value_width()))
                &&& (e == HarnessError::MalformedHex <==> raw_value_text(*raw) is Some && !all_hex(
                    hex_body(raw_value_text(*raw).unwrap()),
                ))
                &&& (e == HarnessError::ConfigMalformed || e == HarnessError::MalformedHex)
            },
        },
{
    let mut word: Vec<u8> = Vec::new();
    word.push(0x72);
    word.push(0x65);
    word.push(0x61);
    word.push(0x64);
    proof {
        assert(word@ =~= kind_read_text());
    }
    if crate::linker::bytes_eq(&raw.kind_text, &word) {
        match &raw.read {
            Some(hex) => match from_hex(hex.as_slice()) {
                Ok(value) => {
                    if value.len() != 8 {
                        return Err(HarnessError::ConfigMalformed);
                    }
                    return Ok(
                        AccessRecord { kind: AccessKind::Read, address: raw.address, value },
                    );
                },
                Err(e) => {
                    return Err(e);
                },
            },
            None => {
                return Err(HarnessError::ConfigMalformed);
            },
        }
    }
    word.clear();
    word.push(0x77);
    word.push(0x72);
    word.push(0x69);
    word.push(0x74);
    word.push(0x65);
    proof {
        assert(word@ =~= kind_write_text());
        assert(kind_read_text() != kind_write_text());
    }
    if crate::linker::bytes_eq(&raw.kind_text, &word) {
        match &raw.written {
            Some(hex) => match from_hex(hex.as_slice()) {
                Ok(value) => {
                    if value.len() != 8 {
                        return Err(HarnessError::ConfigMalformed);
                    }
                    return Ok(
                        AccessRecord { kind: AccessKind::Write, address: raw.address, value },
                    );
                },
                Err(e) => {
                    return Err(e);
                },
            },
            None => {
                return Err(HarnessError::ConfigMalformed);
            },
        }
    }
    Err(HarnessError::ConfigMalformed)
}

/// The addresses of a step's accesses, in order.
pub open spec fn positions_of(accs: Seq<AccessRecord>) -> Seq<u64> {
    accs.map_values(|a: AccessRecord| a.address)
}

/// The values of a step's accesses, in order.
pub open spec fn values_of(accs: Seq<AccessRecord>) -> Seq<Seq<u8>> {
    accs.map_values(|a: AccessRecord| a.value@)
}

/// Whether each of a step's accesses is a read, in order.
pub open spec fn flags_of(accs: Seq<AccessRecord>) -> Seq<bool> {
    accs.map_values(|a: AccessRecord| a.kind is Read)
}

/// Splits a step's accesses into the three parallel arrays of the step
/// call: target addresses, values, and read flags.
pub fn partition_accesses(accesses: &Vec<AccessRecord>) -> (r: (Vec<u64>, Vec<Vec<u8>>, Vec<bool>))
    ensures
        r.0@ == positions_of(accesses@),
        r.1.deep_view() == values_of(accesses@),
        r.2@ == flags_of(accesses@),
{
    let mut positions: Vec<u64> = Vec::new();
    let mut values: Vec<Vec<u8>> = Vec::new();
    let mut flags: Vec<bool> = Vec::new();
    let mut i: usize = 0;
    while i < accesses.len()
        invariant
            i <= accesses@.len(),
            positions@.len() == i,
            values@.len() == i,
            flags@.len() == i,
            positions@ == positions_of(accesses@).take(i as int),
            values.deep_view() == values_of(accesses@).take(i as int),
            flags@ == flags_of(accesses@).take(i as int),
        decreases accesses@.len() - i,
    {
        let a = &accesses[i];
        positions.push(a.address);
        values.push(crate::linker::copy_bytes(&a.value));
        match a.kind {
            AccessKind::Read => flags.push(true),
            AccessKind::Write => flags.push(false),
        }
        proof {
            assert(positions_of(accesses@)[i as int] == accesses@[i as int].address);
            assert(values_of(accesses@)[i as int] == accesses@[i as int].value@);
            assert(flags_of(accesses@)[i as int] == (accesses@[i as int].kind is Read));
            assert(positions@ =~= positions_of(accesses@).take(i + 1));
            let dv = values.deep_view();
            assert(values@.len() == i + 1);
            assert(dv.len() == values@.len());
            assert forall|k: int|
                0 <= k < i + 1 implies dv[k] == values_of(accesses@).take(i + 1)[k] by {
                assert(dv[k] == values@[k].deep_view());
                assert(values@[k].deep_view() =~= values@[k]@);
                if k < i {
                    assert(values_of(accesses@).take(i as int)[k] == values_of(accesses@)[k]);
                }
            }
            assert(dv =~= values_of(accesses@).take(i + 1));
            assert(flags@ =~= flags_of(accesses@).take(i + 1));
        }
        i = i + 1;
    }
    proof {
        assert(positions_of(accesses@).take(accesses@.len() as int) =~= positions_of(accesses@));
        assert(values_of(accesses@).take(accesses@.len() as int) =~~= values_of(accesses@));
        assert(flags_of(accesses@).take(accesses@.len() as int) =~= flags_of(accesses@));
    }
    (positions, values, flags)
}

/// The big-endian value of a byte string.
pub open spec fn be_value(s: Seq<u8>) -> nat
    decreases s.len(),
{
    if s.len() == 0 {
        0
    } else {
        (256 * be_value(s.drop_last()) + s.last()) as nat
    }
}

/// Reads a big-endian byte string by left-shift accumulation, as the cycle
/// counter and exit code come back from the node: the low 64 bits of the
/// value.
pub fn u64_from_be(bytes: &Vec<u8>) -> (r: u64)
    ensures
        r == be_value(bytes@) % pow256(8),
{
    let mut acc: u64 = 0;
    let mut i: usize = 0;
    proof {
        crate::calldata::lemma_pow256_values();
        assert(be_value(bytes@.take(0)) == 0) by {
            assert(bytes@.take(0) =~= Seq::<u8>::empty());
        }
    }
    while i < bytes.len()
        invariant
            i <= bytes@.len(),
            pow256(8) == 0x10000000000000000,
            acc == be_value(bytes@.take(i as int)) % pow256(8),
        decreases bytes@.len() - i,
    {
        let b = bytes[i];
        let next: u64 = (acc << 8u64) | (b as u64);
        proof {
            let m = pow256(8) as int;
            let prefix = bytes@.take(i as int);
            let v = be_value(prefix) as int;
            assert((acc << 8u64) | (b as u64) == (acc * 256 + b) % 0x10000000000000000int)
                by (bit_vector);
            assert(bytes@.take(i + 1).drop_last() =~= prefix);
            assert(bytes@.take(i + 1).last() == bytes@[i as int]);
            assert(be_value(bytes@.take(i + 1)) == 256 * be_value(prefix) + bytes@[i as int]);
            vstd::arithmetic::div_mod::lemma_mul_mod_noop_left(v, 256int, m);
            vstd::arithmetic::div_mod::lemma_add_mod_noop(v * 256, b as int, m);
            vstd::arithmetic::div_mod::lemma_add_mod_noop((v % m) * 256, b as int, m);
            vstd::arithmetic::div_mod::lemma_small_mod(b as nat, pow256(8));
            assert(next == (v * 256 + b) % m);
        }
        acc = next;
        i = i + 1;
    }
    proof {
        assert(bytes@.take(bytes@.len() as int) =~= bytes@);
    }
    acc
}

/// The node's halt flag, as a read-back word reports it: set exactly when
/// the word reaches its 32nd byte and that byte is 1.
pub open spec fn halt_flag(s: Seq<u8>) -> bool {
    s.len() > 31 && s[31] == 1
}

/// Reads the halt flag out of a read-back word.
pub fn read_halt_flag(bytes: &Vec<u8>) -> (r: bool)
    ensures
        r == halt_flag(bytes@),
{
    bytes.len() > 31 && bytes[31] == 1
}

/// The verdict on one free-running test, with both the expected and the
/// observed values kept for the report.
#[derive(Clone, Copy, Debug, PartialEq, Eq, Structural)]
pub struct RunReport {
    pub expected_mcycle: u64,
    pub actual_mcycle: u64,
    pub exit_code: u64,
    pub passed: bool,
}

/// Judges one free-running test: it passes exactly when the observed cycle
/// counter equals the expected one. A mismatch is reported, with both
/// values, and does not abort later tests.
pub fn classify_run(expected_mcycle: u64, actual_mcycle: u64, exit_code: u64) -> (r: RunReport)
    ensures
        r.expected_mcycle == expected_mcycle,
        r.actual_mcycle == actual_mcycle,
        r.exit_code == exit_code,
        r.passed == (expected_mcycle == actual_mcycle),
{
    RunReport {
        expected_mcycle,
        actual_mcycle,
        exit_code,
        passed: expected_mcycle == actual_mcycle,
    }
}

/// One small memory write of the preload phase.
pub struct MemoryWrite {
    pub address: u64,
    pub bytes: Vec<u8>,
}

/// Cuts a memory image into the 8-byte writes that preload it, addresses
/// running from `base`.
pub fn preload_chunks(data: &Vec<u8>, base: u64) -> (r: Vec<MemoryWrite>)
    requires
        data@.len() % 8 == 0,
        base + data@.len() <= u64::MAX,
    ensures
        r@.len() == data@.len() / 8,
        forall|i: int|
            0 <= i < r@.len() ==> (#[trigger] r@[i]).address == base + 8 * i && r@[i].bytes@
                == data@.subrange(8 * i, 8 * i + 8),
{
    let mut out: Vec<MemoryWrite> = Vec::new();
    let total = data.len();
    let mut i: usize = 0;
    while i < data.len()
        invariant
            data@.len() == total,
            data@.len() % 8 == 0,
            base + data@.len() <= u64::MAX,
            i % 8 == 0,
            i <= data@.len(),
            out@.len() == i / 8,
            forall|k: int|
                0 <= k < out@.len() ==> (#[trigger] out@[k]).address == base + 8 * k
                    && out@[k].bytes@ == data@.subrange(8 * k, 8 * k + 8),
        decreases data@.len() - i,
    {
        proof {
            assert(data@.len() - i >= 8) by {
                assert((data@.len() - i) % 8 == 0) by (nonlinear_arith)
                    requires
                        data@.len() % 8 == 0,
                        i % 8 == 0,
                        i <= data@.len(),
                ;
            }
        }
        let mut chunk: Vec<u8> = Vec::new();
        let mut j: usize = 0;
        while j < 8
            invariant
                data@.len() == total,
                i + 8 <= data@.len(),
                j <= 8,
                chunk@ == data@.subrange(i as int, i + j),
            decreases 8 - j,
        {
            proof {
                assert(i + j < data@.len());
            }
            let idx = i + j;
            chunk.push(data[idx]);
            proof {
                assert(chunk@ =~= data@.subrange(i as int, i + j + 1));
            }
            j = j + 1;
        }
        out.push(MemoryWrite { address: base + i as u64, bytes: chunk });
        i = i + 8;
    }
    out
}

/// The phases of one free-running test against a live node.
#[derive(Clone, Copy, Debug, PartialEq, Eq, Structural)]
pub enum RunPhase {
    /// Send a step call with empty access arrays.
    SendStep,
    /// Read the halt flag back.
    ReadHalt,
    /// The node has not halted: reset the yield flag before stepping again.
    ResetYield,
    /// The node halted: read the cycle counter back.
    ReadCycle,
    /// Read the exit code back.
    ReadExit,
    /// The verdict is in.
    Done,
    /// An RPC failed; the test is abandoned and the node torn down.
    Aborted,
}

/// The run-mode state machine: drives the deployed step contract one call
/// at a time, polls the halt flag, resets the yield flag between steps, and
/// on halt reads the cycle counter and exit code back. Every RPC failure
/// aborts this test without salvage; later tests go on.
pub struct RunDriver {
    pub phase: RunPhase,
    pub expected_mcycle: u64,
    pub step_counter: u64,
    pub mcycle: u64,
}

impl RunDriver {
    /// A driver about to send the first step.
    pub fn new(expected_mcycle: u64) -> (r: Self)
        ensures
            r.phase is SendStep,
            r.expected_mcycle == expected_mcycle,
            r.step_counter == 0,
    {
        RunDriver { phase: RunPhase::SendStep, expected_mcycle, step_counter: 0, mcycle: 0 }
    }

    /// The step transaction went through: read the halt flag next.
    pub fn on_step_sent(&mut self)
        requires
            old(self).phase is SendStep,
            old(self).step_counter < u64::MAX,
        ensures
            final(self).phase is ReadHalt,
            final(self).step_counter == old(self).step_counter + 1,
            final(self).expected_mcycle == old(self).expected_mcycle,
            final(self).mcycle == old(self).mcycle,
    {
        self.phase = RunPhase::ReadHalt;
        self.step_counter = self.step_counter + 1;
    }

    /// The halt flag came back: a halted node moves on to the counter
    /// readback, a running one to the yield reset.
    pub fn on_halt_read(&mut self, bytes: &Vec<u8>)
        requires
            old(self).phase is ReadHalt,
        ensures
            halt_flag(bytes@) ==> final(self).phase is ReadCycle,
            !halt_flag(bytes@) ==> final(self).phase is ResetYield,
            final(self).step_counter == old(self).step_counter,
            final(self).expected_mcycle == old(self).expected_mcycle,
            final(self).mcycle == old(self).mcycle,
    {
        if read_halt_flag(bytes) {
            self.phase = RunPhase::ReadCycle;
        } else {
            self.phase = RunPhase::ResetYield;
        }
    }

    /// The yield flag was reset: step again.
    pub fn on_yield_reset(&mut self)
        requires
            old(self).phase is ResetYield,
        ensures
            final(self).phase is SendStep,
            final(self).step_counter == old(self).step_counter,
            final(self).expected_mcycle == old(self).expected_mcycle,
            final(self).mcycle == old(self).mcycle,
    {
        self.phase = RunPhase::SendStep;
    }

    /// The cycle counter came back: decode it and read the exit code next.
    pub fn on_mcycle_read(&mut self, bytes: &Vec<u8>)
        requires
            old(self).phase is ReadCycle,
        ensures
            final(self).phase is ReadExit,
            final(self).mcycle == be_value(bytes@) % pow256(8),
            final(self).step_counter == old(self).step_counter,
            final(self).expected_mcycle == old(self).expected_mcycle,
    {
        self.mcycle = u64_from_be(bytes);
        self.phase = RunPhase::ReadExit;
    }

    /// The exit code came back: the test is judged.
    pub fn on_exit_read(&mut self, bytes: &Vec<u8>) -> (r: RunReport)
        requires
            old(self).phase is ReadExit,
        ensures
            final(self).phase is Done,
            r.expected_mcycle == old(self).expected_mcycle,
            r.actual_mcycle == old(self).mcycle,
            r.exit_code == be_value(bytes@) % pow256(8),
            r.passed == (old(self).expected_mcycle == old(self).mcycle),
    {
        let exit_code = u64_from_be(bytes);
        self.phase = RunPhase::Done;
        classify_run(self.expected_mcycle, self.mcycle, exit_code)
    }

    /// The error this run reports: `RpcFailure` exactly when an RPC failure
    /// aborted it.
    pub fn abort_error(&self) -> (r: Option<HarnessError>)
        ensures
            r == (if self.phase is Aborted {
                Some(HarnessError::RpcFailure)
            } else {
                None::<HarnessError>
            }),
    {
        match self.phase {
            RunPhase::Aborted => Some(HarnessError::RpcFailure),
            _ => None,
        }
    }

    /// An RPC failed: abandon this test.
    pub fn on_rpc_failure(&mut self)
        requires
            !(old(self).phase is Done),
        ensures
            final(self).phase is Aborted,
            final(self).step_counter == old(self).step_counter,
            final(self).expected_mcycle == old(self).expected_mcycle,
            final(self).mcycle == old(self).mcycle,
    {
        self.phase = RunPhase::Aborted;
    }
}

} // verus!
