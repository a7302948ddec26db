use k8s_metrics::quantity::{
    format_cpu_millicores, format_memory, parse_cpu, parse_memory, u64_to_string, MemoryUnit,
    Quantity, QuantityParseError,
};

fn q(s: &str) -> Quantity {
    Quantity(s.to_string())
}

#[test]
fn cpu_millicores() {
    assert_eq!(parse_cpu(&q("150m")), Ok(150));
    assert_eq!(parse_cpu(&q("1m")), Ok(1));
    assert_eq!(parse_cpu(&q("0m")), Ok(0));
}

#[test]
fn cpu_whole_and_fractional_cores() {
    assert_eq!(parse_cpu(&q("2")), Ok(2000));
    assert_eq!(parse_cpu(&q("0.5")), Ok(500));
    assert_eq!(parse_cpu(&q("1.25")), Ok(1250));
    assert_eq!(parse_cpu(&q("0.001")), Ok(1));
}

#[test]
fn cpu_negative() {
    assert_eq!(parse_cpu(&q("-250m")), Ok(-250));
    assert_eq!(parse_cpu(&q("-1")), Ok(-1000));
}

#[test]
fn cpu_rejects_precision_finer_than_a_millicore() {
    assert_eq!(parse_cpu(&q("0.0001")), Err(QuantityParseError::NotExact));
    assert_eq!(parse_cpu(&q("0.5m")), Err(QuantityParseError::NotExact));
}

#[test]
fn memory_binary_suffixes() {
    assert_eq!(parse_memory(&q("512Mi")), Ok(512 * 1024 * 1024));
    assert_eq!(parse_memory(&q("1Gi")), Ok(1024 * 1024 * 1024));
    assert_eq!(parse_memory(&q("2Ki")), Ok(2048));
    assert_eq!(parse_memory(&q("3Ti")), Ok(3 * 1024i64.pow(4)));
}

#[test]
fn memory_decimal_suffixes() {
    assert_eq!(parse_memory(&q("1k")), Ok(1000));
    assert_eq!(parse_memory(&q("2M")), Ok(2_000_000));
    assert_eq!(parse_memory(&q("3G")), Ok(3_000_000_000));
    assert_eq!(parse_memory(&q("4T")), Ok(4_000_000_000_000));
}

#[test]
fn memory_bare_bytes_and_fractions() {
    assert_eq!(parse_memory(&q("2048")), Ok(2048));
    assert_eq!(parse_memory(&q("1.5Ki")), Ok(1536));
    assert_eq!(parse_memory(&q("0.5")), Err(QuantityParseError::NotExact));
}

#[test]
fn malformed_numbers_are_rejected() {
    assert_eq!(parse_cpu(&q("")), Err(QuantityParseError::BadNumber));
    assert_eq!(parse_cpu(&q("m")), Err(QuantityParseError::BadNumber));
    assert_eq!(parse_cpu(&q(".")), Err(QuantityParseError::BadNumber));
    assert_eq!(parse_cpu(&q("-")), Err(QuantityParseError::BadNumber));
    assert_eq!(parse_cpu(&q(" 1")), Err(QuantityParseError::BadNumber));
    assert_eq!(
        parse_cpu(&q("12345678901234567890123456")),
        Err(QuantityParseError::BadNumber)
    );
}

#[test]
fn unknown_suffixes_are_rejected() {
    assert_eq!(parse_cpu(&q("1Ki")), Err(QuantityParseError::BadSuffix));
    assert_eq!(parse_cpu(&q("1x")), Err(QuantityParseError::BadSuffix));
    assert_eq!(parse_memory(&q("1m")), Err(QuantityParseError::BadSuffix));
    assert_eq!(parse_memory(&q("1KiB")), Err(QuantityParseError::BadSuffix));
    assert_eq!(parse_memory(&q("1 Gi")), Err(QuantityParseError::BadSuffix));
}

#[test]
fn out_of_range_is_reported() {
    // 2^63 cores in millicores overflows a signed 64-bit count.
    assert_eq!(
        parse_cpu(&q("9223372036854775807")),
        Err(QuantityParseError::OutOfRange)
    );
    assert_eq!(
        parse_memory(&q("9223372036854775808")),
        Err(QuantityParseError::OutOfRange)
    );
    assert_eq!(parse_memory(&q("-9223372036854775808")), Ok(i64::MIN));
}

#[test]
fn formats_digits() {
    assert_eq!(u64_to_string(0), "0");
    assert_eq!(u64_to_string(7), "7");
    assert_eq!(u64_to_string(150), "150");
    assert_eq!(u64_to_string(18446744073709551615), "18446744073709551615");
}

#[test]
fn cpu_round_trip() {
    for mc in [0u64, 1, 150, 999, 1000, 123456789] {
        let s = format_cpu_millicores(mc);
        assert_eq!(parse_cpu(&s), Ok(mc as i64));
    }
}

#[test]
fn memory_round_trip() {
    let units = [
        (MemoryUnit::Bytes, 1i64),
        (MemoryUnit::Kilo, 1000),
        (MemoryUnit::Mega, 1_000_000),
        (MemoryUnit::Giga, 1_000_000_000),
        (MemoryUnit::Tera, 1_000_000_000_000),
        (MemoryUnit::Kibi, 1024),
        (MemoryUnit::Mebi, 1024 * 1024),
        (MemoryUnit::Gibi, 1024 * 1024 * 1024),
        (MemoryUnit::Tebi, 1024i64.pow(4)),
    ];
    for (unit, mult) in units {
        for n in [0u64, 1, 512, 2048] {
            let s = format_memory(n, unit);
            assert_eq!(parse_memory(&s), Ok(n as i64 * mult));
        }
    }
}

#[test]
fn formats_match_kubernetes_spelling() {
    assert_eq!(format_cpu_millicores(150).0, "150m");
    assert_eq!(format_memory(512, MemoryUnit::Mebi).0, "512Mi");
    assert_eq!(format_memory(1, MemoryUnit::Gibi).0, "1Gi");
    assert_eq!(format_memory(2048, MemoryUnit::Bytes).0, "2048");
}
