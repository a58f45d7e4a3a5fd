//! Fixed-width trace record codec.
//!
//! A trace is a sequence of 42-byte ASCII records: a 16-digit hexadecimal
//! program counter, a separator, a 16-digit hexadecimal target address, a
//! separator, then single-byte branch-kind, is-direct, is-conditional and
//! is-taken fields, each followed by a separator, the last being the line
//! terminator.
//!
//! A malformed or truncated record is a contract violation, not a
//! recoverable error: decoding and simulation state well-formedness as a
//! precondition, and `validate_trace` checks it exhaustively so that an
//! I/O layer can reject a malformed buffer up front instead of paying for
//! a check on every record of every simulation pass.

use vstd::prelude::*;

verus! {

/// Number of bytes in one fixed-width trace record.
pub const LINE_SIZE: usize = 42;

pub const PROGRAM_COUNTER_OFFSET: usize = 0;
pub const ADDRESS_LENGTH: usize = 16;
pub const TARGET_ADDRESS_OFFSET: usize = 17;
pub const BRANCH_KIND_OFFSET: usize = 34;
pub const IS_DIRECT_OFFSET: usize = 36;
pub const IS_CONDITIONAL_OFFSET: usize = 38;
pub const IS_TAKEN_OFFSET: usize = 40;

/// ASCII '1', the encoding of a set flag.
pub const FLAG_SET: u8 = 49;
/// ASCII '0', the encoding of a cleared flag.
pub const FLAG_CLEAR: u8 = 48;

pub open spec fn is_hex_digit(c: u8) -> bool {
    (48 <= c <= 57) || (65 <= c <= 70) || (97 <= c <= 102)
}

/// Numeric value of one hexadecimal digit (0 for a non-digit).
pub open spec fn hex_digit_val(c: u8) -> nat {
    if 48 <= c <= 57 {
        (c - 48) as nat
    } else if 65 <= c <= 70 {
        (c - 55) as nat
    } else if 97 <= c <= 102 {
        (c - 87) as nat
    } else {
        0
    }
}

pub open spec fn all_hex(s: Seq<u8>) -> bool {
    forall|i: int| 0 <= i < s.len() ==> is_hex_digit(#[trigger] s[i])
}

/// Value of a big-endian string of hexadecimal digits.
pub open spec fn hex_val(s: Seq<u8>) -> nat
    decreases s.len(),
{
    if s.len() == 0 {
        0
    } else {
        hex_val(s.drop_last()) * 16 + hex_digit_val(s.last())
    }
}

/// The byte encoded by two hexadecimal digits, high digit first.
pub open spec fn hex_byte(hi: u8, lo: u8) -> u8 {
    (hex_digit_val(hi) * 16 + hex_digit_val(lo)) as u8
}

pub open spec fn pow16(n: nat) -> nat
    decreases n,
{
    if n == 0 {
        1
    } else {
        16 * pow16((n - 1) as nat)
    }
}

/// The 64-bit address held by a 16-digit hexadecimal field.
pub open spec fn addr_val(s: Seq<u8>) -> u64 {
    hex_val(s) as u64
}

pub proof fn lemma_hex_val_bound(s: Seq<u8>)
    ensures
        hex_val(s) < pow16(s.len()),
    decreases s.len(),
{
    if s.len() == 0 {
    } else {
        lemma_hex_val_bound(s.drop_last());
        assert(hex_digit_val(s.last()) < 16);
    }
}

pub proof fn lemma_pow16_16()
    ensures
        pow16(16) == 0x1_0000_0000_0000_0000,
{
    reveal_with_fuel(pow16, 17);
}

/// Relies on hex_simd::decode: it turns each pair of hexadecimal digits of
/// `hex` into one output byte, case-insensitively, and fails only when a
/// byte of `hex` is not a hexadecimal digit.
#[verifier::external_body]
fn hex_decode_bytes(hex: &[u8]) -> (r: Vec<u8>)
    requires
        hex@.len() == 16,
        all_hex(hex@),
    ensures
        r@.len() == 8,
        forall|i: int| 0 <= i < 8 ==> r@[i] == hex_byte(hex@[2 * i], hex@[2 * i + 1]),
{
    let mut out = vec![0u8; 8];
    hex_simd::decode(hex, hex_simd::Out::from_slice(&mut out)).unwrap();
    out
}

proof fn lemma_hex_val_pair(s: Seq<u8>, n: int)
    requires
        0 <= n,
        2 * n + 2 <= s.len(),
    ensures
        hex_val(s.take(2 * n + 2)) == hex_val(s.take(2 * n)) * 256 + hex_digit_val(
            s[2 * n],
        ) * 16 + hex_digit_val(s[2 * n + 1]),
{
    let t2 = s.take(2 * n + 2);
    let t1 = s.take(2 * n + 1);
    let t0 = s.take(2 * n);
    assert(t2.len() == 2 * n + 2);
    assert(t1.len() == 2 * n + 1);
    assert(t2.drop_last() =~= t1);
    assert(t1.drop_last() =~= t0);
    assert(t2.last() == s[2 * n + 1]);
    assert(t1.last() == s[2 * n]);
    assert(hex_val(t1) == hex_val(t0) * 16 + hex_digit_val(s[2 * n]));
    assert(hex_val(t2) == hex_val(t1) * 16 + hex_digit_val(s[2 * n + 1]));
}

pub open spec fn pow256(n: nat) -> nat
    decreases n,
{
    if n == 0 {
        1
    } else {
        256 * pow256((n - 1) as nat)
    }
}

/// Parses a 16-digit hexadecimal field into the 64-bit address it encodes.
pub fn parse_address(hex: &[u8]) -> (r: u64)
    requires
        hex@.len() == 16,
        all_hex(hex@),
    ensures
        r == addr_val(hex@),
        r == hex_val(hex@),
{
    let bytes = hex_decode_bytes(hex);
    let mut value: u64 = 0;
    let mut i: usize = 0;
    while i < 8
        invariant
            0 <= i <= 8,
            bytes@.len() == 8,
            hex@.len() == 16,
            all_hex(hex@),
            forall|j: int| 0 <= j < 8 ==> bytes@[j] == hex_byte(hex@[2 * j], hex@[2 * j + 1]),
            value == hex_val(hex@.take(2 * i as int)),
            value < pow256(i as nat),
            pow256(i as nat) <= 0x1_0000_0000_0000_0000,
        decreases 8 - i,
    {
        proof {
            lemma_pow256_next(i as nat);
            lemma_hex_val_pair(hex@, i as int);
            assert(hex_digit_val(hex@[2 * i as int]) < 16);
            assert(hex_digit_val(hex@[2 * i as int + 1]) < 16);
            assert(hex_byte(hex@[2 * i as int], hex@[2 * i as int + 1]) == hex_digit_val(
                hex@[2 * i as int],
            ) * 16 + hex_digit_val(hex@[2 * i as int + 1]));
        }
        let b = bytes[i];
        value = value * 256 + (b as u64);
        i = i + 1;
    }
    proof {
        assert(hex@.take(16) =~= hex@);
        lemma_hex_val_bound(hex@);
        lemma_pow16_16();
    }
    value
}

proof fn lemma_pow256_next(n: nat)
    requires
        n < 8,
    ensures
        pow256(n + 1) == 256 * pow256(n),
        pow256(n + 1) <= 0x1_0000_0000_0000_0000,
{
    lemma_pow256_le(n + 1, 8);
    reveal_with_fuel(pow256, 9);
}

proof fn lemma_pow256_le(a: nat, b: nat)
    requires
        a <= b,
    ensures
        pow256(a) <= pow256(b),
    decreases b,
{
    if a < b {
        lemma_pow256_le(a, (b - 1) as nat);
        assert(pow256(b) == 256 * pow256((b - 1) as nat));
    }
}

fn hex_char(d: u8) -> (c: u8)
    requires
        d < 16,
    ensures
        is_hex_digit(c),
        hex_digit_val(c) == d,
{
    if d < 10 {
        48 + d
    } else {
        55 + d
    }
}

proof fn lemma_hex_val_prepend(c: u8, t: Seq<u8>)
    ensures
        hex_val(seq![c] + t) == hex_digit_val(c) * pow16(t.len()) + hex_val(t),
    decreases t.len(),
{
    let s = seq![c] + t;
    if t.len() == 0 {
        assert(s =~= seq![c]);
        assert(s.len() == 1);
        assert(s.last() == c);
        assert(s.drop_last() =~= Seq::<u8>::empty());
        assert(hex_val(s.drop_last()) == 0);
        assert(hex_val(s) == hex_val(s.drop_last()) * 16 + hex_digit_val(s.last()));
        assert(pow16(t.len()) == 1);
        assert(hex_val(s) == hex_digit_val(c) * pow16(t.len()) + hex_val(t));
    } else {
        assert(s.drop_last() =~= seq![c] + t.drop_last());
        assert(s.last() == t.last());
        lemma_hex_val_prepend(c, t.drop_last());
        let p = pow16((t.len() - 1) as nat);
        let dv = hex_digit_val(c);
        assert(hex_val(s) == (dv * p + hex_val(t.drop_last())) * 16 + hex_digit_val(t.last()));
        assert(pow16(t.len()) == 16 * p);
        assert((dv * p) * 16 == dv * (16 * p)) by (nonlinear_arith);
        assert(hex_val(t) == hex_val(t.drop_last()) * 16 + hex_digit_val(t.last()));
        assert(hex_val(s) == dv * pow16(t.len()) + hex_val(t));
    }
}

/// Writes a 64-bit address as 16 uppercase hexadecimal digits, the exact
/// inverse of `parse_address`.
pub fn encode_address(value: u64) -> (r: Vec<u8>)
    ensures
        r@.len() == 16,
        all_hex(r@),
        addr_val(r@) == value,
        hex_val(r@) == value,
{
    let mut digits: Vec<u8> = vec![48u8; 16];
    let mut v: u64 = value;
    let mut i: usize = 0;
    proof {
        assert(digits@.skip(16) =~= Seq::<u8>::empty());
        vstd::arithmetic::div_mod::lemma_div_basics(value as int);
        vstd::arithmetic::div_mod::lemma_mod_self_0(1);
        assert(value as int % 1 == 0) by {
            vstd::arithmetic::div_mod::lemma_fundamental_div_mod(value as int, 1);
        }
    }
    while i < 16
        invariant
            0 <= i <= 16,
            digits@.len() == 16,
            v == value as nat / pow16(i as nat),
            hex_val(digits@.skip(16 - i as int)) == value as nat % pow16(i as nat),
            forall|j: int| 16 - i <= j < 16 ==> is_hex_digit(#[trigger] digits@[j]),
        decreases 16 - i,
    {
        proof {
            lemma_pow16_pos(i as nat);
        }
        let ghost old_digits = digits@;
        let ghost pi = pow16(i as nat);
        let d: u8 = (v % 16) as u8;
        let c = hex_char(d);
        digits.set(15 - i, c);
        proof {
            assert(digits@.skip(15 - i as int) =~= seq![c] + old_digits.skip(16 - i as int));
            lemma_hex_val_prepend(c, old_digits.skip(16 - i as int));
            assert(old_digits.skip(16 - i as int).len() == i as int);
            assert(hex_digit_val(c) == d);
            assert(hex_val(old_digits.skip(16 - i as int)) == value as nat % pi);
            assert(hex_val(seq![c] + old_digits.skip(16 - i as int)) == hex_digit_val(c) * pow16(
                i as nat,
            ) + hex_val(old_digits.skip(16 - i as int)));
            assert(hex_val(digits@.skip(15 - i as int)) == d * pi + value as nat % pi);
            assert(d * pi == pi * d) by (nonlinear_arith);
            vstd::arithmetic::div_mod::lemma_breakdown(value as int, pi as int, 16);
            assert(pow16((i + 1) as nat) == 16 * pi);
            assert(pi as int * 16 == 16 * pi as int);
            assert(d == (value as int / pi as int) % 16);
            assert(hex_val(digits@.skip(15 - i as int)) == pi * d + value as nat % pi);
            assert(value as int % (pi as int * 16) == pi as int * ((value as int / pi as int) % 16)
                + value as int % pi as int);
            vstd::arithmetic::div_mod::lemma_div_denominator(value as int, pi as int, 16);
            assert(value as nat / pow16((i + 1) as nat) == v as nat / 16);
        }
        v = v / 16;
        i = i + 1;
    }
    proof {
        assert(digits@.skip(0) =~= digits@);
        lemma_pow16_16();
        vstd::arithmetic::div_mod::lemma_small_mod(value as nat, pow16(16));
    }
    digits
}

proof fn lemma_pow16_pos(n: nat)
    ensures
        pow16(n) >= 1,
    decreases n,
{
    if n > 0 {
        lemma_pow16_pos((n - 1) as nat);
    }
}

/// One decoded trace record. Ephemeral: decoded per record, never stored.
#[derive(Clone, Copy, PartialEq, Eq, Structural, Debug)]
pub struct TraceRecord {
    pub program_counter: u64,
    pub target_address: u64,
    pub branch_kind: u8,
    pub is_direct: bool,
    pub is_conditional: bool,
    pub taken: bool,
}

pub open spec fn rec_pc(line: Seq<u8>) -> u64 {
    addr_val(line.subrange(0, 16))
}

pub open spec fn rec_target(line: Seq<u8>) -> u64 {
    addr_val(line.subrange(17, 33))
}

pub open spec fn rec_kind(line: Seq<u8>) -> u8 {
    line[34]
}

pub open spec fn rec_direct(line: Seq<u8>) -> bool {
    line[36] == FLAG_SET
}

pub open spec fn rec_conditional(line: Seq<u8>) -> bool {
    line[38] == FLAG_SET
}

pub open spec fn rec_taken(line: Seq<u8>) -> bool {
    line[40] == FLAG_SET
}

/// The record encoded by one 42-byte line.
pub open spec fn rec_of(line: Seq<u8>) -> TraceRecord {
    TraceRecord {
        program_counter: rec_pc(line),
        target_address: rec_target(line),
        branch_kind: rec_kind(line),
        is_direct: rec_direct(line),
        is_conditional: rec_conditional(line),
        taken: rec_taken(line),
    }
}

/// Both address fields hold hexadecimal digits only.
pub open spec fn valid_record(line: Seq<u8>) -> bool {
    line.len() == 42 && all_hex(line.subrange(0, 16)) && all_hex(line.subrange(17, 33))
}

/// The bytes of record `i` within a trace.
pub open spec fn rec_at(trace: Seq<u8>, i: int) -> Seq<u8> {
    trace.subrange(42 * i, 42 * i + 42)
}

pub open spec fn num_records(trace: Seq<u8>) -> int {
    trace.len() as int / 42
}

pub open spec fn trace_aligned(trace: Seq<u8>) -> bool {
    trace.len() as int % 42 == 0
}

/// Every record of the trace is well-formed.
pub open spec fn valid_trace(trace: Seq<u8>) -> bool {
    trace_aligned(trace) && forall|i: int|
        0 <= i < num_records(trace) ==> valid_record(#[trigger] rec_at(trace, i))
}

/// Enough for simulation: every conditional record is well-formed.
/// Non-conditional records are skipped without their addresses being read.
pub open spec fn sim_ready(trace: Seq<u8>) -> bool {
    trace_aligned(trace) && forall|i: int|
        0 <= i < num_records(trace) ==> (rec_conditional(#[trigger] rec_at(trace, i))
            ==> valid_record(rec_at(trace, i)))
}

pub proof fn lemma_valid_trace_sim_ready(trace: Seq<u8>)
    requires
        valid_trace(trace),
    ensures
        sim_ready(trace),
{
}

fn is_hex_digit_exec(c: u8) -> (r: bool)
    ensures
        r == is_hex_digit(c),
{
    (48 <= c && c <= 57) || (65 <= c && c <= 70) || (97 <= c && c <= 102)
}

fn check_hex_field(line: &[u8], start: usize) -> (ok: bool)
    requires
        start + 16 <= line@.len(),
    ensures
        ok == all_hex(line@.subrange(start as int, start as int + 16)),
{
    let ghost f = line@.subrange(start as int, start as int + 16);
    let llen = line.len();
    let mut k: usize = 0;
    while k < 16
        invariant
            0 <= k <= 16,
            llen == line@.len(),
            start + 16 <= line@.len(),
            f == line@.subrange(start as int, start as int + 16),
            forall|m: int| 0 <= m < k ==> is_hex_digit(#[trigger] f[m]),
        decreases 16 - k,
    {
        let c = *vstd::slice::slice_index_get(line, start + k);
        proof {
            assert(f[k as int] == line@[start + k]);
        }
        if !is_hex_digit_exec(c) {
            proof {
                assert(!is_hex_digit(f[k as int]));
            }
            return false;
        }
        k = k + 1;
    }
    true
}

/// Checks one 42-byte line for well-formedness.
pub fn check_record(line: &[u8]) -> (ok: bool)
    requires
        line@.len() == 42,
    ensures
        ok == valid_record(line@),
{
    check_hex_field(line, PROGRAM_COUNTER_OFFSET) && check_hex_field(line, TARGET_ADDRESS_OFFSET)
}

/// Checks a whole trace buffer: record alignment and every record.
pub fn validate_trace(trace: &[u8]) -> (ok: bool)
    ensures
        ok == valid_trace(trace@),
{
    let len = trace.len();
    if len % 42 != 0 {
        return false;
    }
    let n = len / 42;
    let mut i: usize = 0;
    while i < n
        invariant
            0 <= i <= n,
            n == num_records(trace@),
            trace@.len() == len,
            len % 42 == 0,
            n * 42 <= len,
            forall|j: int| 0 <= j < i ==> valid_record(#[trigger] rec_at(trace@, j)),
        decreases n - i,
    {
        proof {
            assert((i + 1) * 42 <= n * 42) by (nonlinear_arith)
                requires
                    i + 1 <= n,
            ;
            assert(42 * i as int == i as int * 42) by (nonlinear_arith);
        }
        let line = vstd::slice::slice_subrange(trace, i * 42, i * 42 + 42);
        if !check_record(line) {
            proof {
                assert(!valid_record(rec_at(trace@, i as int)));
            }
            return false;
        }
        i = i + 1;
    }
    true
}

/// Number of records in an aligned trace buffer.
pub fn record_count(trace: &[u8]) -> (n: usize)
    ensures
        n == num_records(trace@),
{
    trace.len() / 42
}

fn flag_byte(b: bool) -> (c: u8)
    ensures
        (c == FLAG_SET) == b,
{
    if b {
        FLAG_SET
    } else {
        FLAG_CLEAR
    }
}

/// Decodes one 42-byte line into its record.
pub fn decode_record(line: &[u8]) -> (r: TraceRecord)
    requires
        valid_record(line@),
    ensures
        r == rec_of(line@),
{
    let pc_field = vstd::slice::slice_subrange(
        line,
        PROGRAM_COUNTER_OFFSET,
        PROGRAM_COUNTER_OFFSET + ADDRESS_LENGTH,
    );
    let tgt_field = vstd::slice::slice_subrange(
        line,
        TARGET_ADDRESS_OFFSET,
        TARGET_ADDRESS_OFFSET + ADDRESS_LENGTH,
    );
    let program_counter = parse_address(pc_field);
    let target_address = parse_address(tgt_field);
    let branch_kind = *vstd::slice::slice_index_get(line, BRANCH_KIND_OFFSET);
    let is_direct = *vstd::slice::slice_index_get(line, IS_DIRECT_OFFSET) == FLAG_SET;
    let is_conditional = *vstd::slice::slice_index_get(line, IS_CONDITIONAL_OFFSET) == FLAG_SET;
    let taken = *vstd::slice::slice_index_get(line, IS_TAKEN_OFFSET) == FLAG_SET;
    TraceRecord { program_counter, target_address, branch_kind, is_direct, is_conditional, taken }
}

/// Writes a record back as one 42-byte line, comma-separated, newline-ended.
pub fn encode_record(r: &TraceRecord) -> (out: Vec<u8>)
    ensures
        out@.len() == 42,
        valid_record(out@),
        rec_of(out@) == *r,
{
    let mut out = encode_address(r.program_counter);
    let ghost pcv = out@;
    out.push(44);
    let mut tgt = encode_address(r.target_address);
    let ghost tgtv = tgt@;
    out.append(&mut tgt);
    out.push(44);
    out.push(r.branch_kind);
    out.push(44);
    out.push(flag_byte(r.is_direct));
    out.push(44);
    out.push(flag_byte(r.is_conditional));
    out.push(44);
    out.push(flag_byte(r.taken));
    out.push(10);
    proof {
        assert(out@.subrange(0, 16) =~= pcv);
        assert(out@.subrange(17, 33) =~= tgtv);
    }
    out
}

} // verus!
