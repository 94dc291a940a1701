use bitflip_detector::config::parse_size_string;

#[test]
fn size_with_prefixes() {
    assert_eq!(parse_size_string("5kB"), Ok(5000));
    assert_eq!(parse_size_string("2GB"), Ok(2_000_000_000));
    assert_eq!(parse_size_string("7MB"), Ok(7_000_000));
    assert_eq!(parse_size_string("1TB"), Ok(1_000_000_000_000));
    assert_eq!(parse_size_string("1PB"), Ok(1_000_000_000_000_000));
    assert_eq!(parse_size_string("+5kB"), Ok(5000));
}

#[test]
fn size_in_bits() {
    assert_eq!(parse_size_string("3Mb"), Ok(375_000));
    assert_eq!(parse_size_string("1kb"), Ok(125));
}

#[test]
fn plain_number_is_bytes() {
    assert_eq!(parse_size_string("0"), Ok(0));
    assert_eq!(parse_size_string("200"), Ok(200));
    assert_eq!(parse_size_string("5"), Ok(5));
    assert_eq!(parse_size_string("+7"), Ok(7));
    assert_eq!(parse_size_string("18446744073709551615"), Ok(usize::MAX));
}

#[test]
fn size_errors() {
    let err = |s: &str| parse_size_string(s).unwrap_err();
    assert_eq!(err(""), "memory_to_occupy was empty");
    assert_eq!(err("5x0"), "invalid digit found in string");
    assert_eq!(err("+"), "Unable to parse memory_to_occupy");
    assert_eq!(err("18446744073709551616"), "number too large to fit in target type");
    assert_eq!(err("B"), "Unable to parse memory_to_occupy");
    assert_eq!(err("5kX"), "Unable to parse memory_to_occupy");
    assert_eq!(err("5xB"), "Unsupported memory size");
    assert_eq!(err("55B"), "Could not parse memory size");
    assert_eq!(err("kB"), "cannot parse integer from empty string");
    assert_eq!(err("+kB"), "invalid digit found in string");
    assert_eq!(err("1a2kB"), "invalid digit found in string");
    assert_eq!(err("-1kB"), "invalid digit found in string");
    assert_eq!(err("99999999999999999999kB"), "number too large to fit in target type");
    assert_eq!(err("18446744073709551615PB"), "memory size does not fit in usize");
}
