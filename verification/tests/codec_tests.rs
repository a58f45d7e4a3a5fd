use branchlib::codec::{
    decode_record, encode_address, encode_record, parse_address, record_count, validate_trace,
    TraceRecord, LINE_SIZE,
};

fn record(pc: u64, target: u64, conditional: bool, taken: bool) -> TraceRecord {
    TraceRecord {
        program_counter: pc,
        target_address: target,
        branch_kind: b'C',
        is_direct: true,
        is_conditional: conditional,
        taken,
    }
}

#[test]
fn address_round_trip_zero() {
    let encoded = encode_address(0x0000000000000000);
    assert_eq!(encoded.len(), 16);
    assert_eq!(parse_address(&encoded), 0x0000000000000000);
}

#[test]
fn address_round_trip_max() {
    let encoded = encode_address(0xFFFFFFFFFFFFFFFF);
    assert_eq!(encoded.len(), 16);
    assert_eq!(parse_address(&encoded), 0xFFFFFFFFFFFFFFFF);
}

#[test]
fn parse_address_exact_values() {
    assert_eq!(parse_address(b"00000000000000ff".as_slice()), 255);
    assert_eq!(parse_address(b"000000000000ABCD".as_slice()), 0xABCD);
    assert_eq!(parse_address(b"0123456789abcdef".as_slice()), 0x0123456789abcdef);
    assert_eq!(parse_address(b"8000000000000000".as_slice()), 1u64 << 63);
}

#[test]
fn encode_address_digits() {
    let encoded = encode_address(0xDEADBEEF);
    assert_eq!(&encoded, b"00000000DEADBEEF");
}

#[test]
fn record_round_trip() {
    let r = record(0x1234, 0xFFFFFFFFFFFFFFFF, true, false);
    let line = encode_record(&r);
    assert_eq!(line.len(), LINE_SIZE);
    assert_eq!(line[LINE_SIZE - 1], b'\n');
    let back = decode_record(&line);
    assert_eq!(back, r);
}

#[test]
fn record_round_trip_extremes() {
    for pc in [0u64, u64::MAX] {
        let r = record(pc, pc, true, true);
        let back = decode_record(&encode_record(&r));
        assert_eq!(back.program_counter, pc);
        assert_eq!(back.target_address, pc);
    }
}

#[test]
fn validate_trace_accepts_well_formed() {
    let mut trace = Vec::new();
    trace.extend_from_slice(&encode_record(&record(1, 2, true, true)));
    trace.extend_from_slice(&encode_record(&record(3, 4, false, false)));
    assert!(validate_trace(&trace));
    assert_eq!(record_count(&trace), 2);
}

#[test]
fn validate_trace_rejects_misaligned() {
    let mut trace = Vec::new();
    trace.extend_from_slice(&encode_record(&record(1, 2, true, true)));
    trace.pop();
    assert!(!validate_trace(&trace));
}

#[test]
fn validate_trace_rejects_non_hex_address() {
    let mut trace: Vec<u8> = encode_record(&record(1, 2, true, true));
    trace[3] = b'G';
    assert!(!validate_trace(&trace));
}

#[test]
fn empty_trace_is_valid() {
    let trace: Vec<u8> = Vec::new();
    assert!(validate_trace(&trace));
    assert_eq!(record_count(&trace), 0);
}
