use snarkvm_debug::decimal::{bracketed_index, u64_to_string};

#[test]
fn decimal_text_of_numbers() {
    assert_eq!(u64_to_string(0), "0");
    assert_eq!(u64_to_string(7), "7");
    assert_eq!(u64_to_string(10), "10");
    assert_eq!(u64_to_string(1234567890), "1234567890");
    assert_eq!(u64_to_string(u64::MAX), "18446744073709551615");
}

#[test]
fn decimal_text_reads_back() {
    for n in [0u64, 9, 10, 99, 100, 65535, 4294967296] {
        assert_eq!(u64_to_string(n).parse::<u64>().unwrap(), n);
    }
}

#[test]
fn element_names() {
    assert_eq!(bracketed_index(0), "[0]");
    assert_eq!(bracketed_index(42), "[42]");
}
