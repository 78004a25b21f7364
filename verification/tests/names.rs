use zkbench::names::NameAllocator;
use zkbench::names::decimal_bytes;
use zkbench::names::node_name;

#[test]
fn decimal_single_digits() {
    assert_eq!(decimal_bytes(0), b"0".to_vec());
    assert_eq!(decimal_bytes(7), b"7".to_vec());
    assert_eq!(decimal_bytes(9), b"9".to_vec());
}

#[test]
fn decimal_multi_digits() {
    assert_eq!(decimal_bytes(10), b"10".to_vec());
    assert_eq!(decimal_bytes(100), b"100".to_vec());
    assert_eq!(decimal_bytes(12345), b"12345".to_vec());
    assert_eq!(decimal_bytes(u64::MAX), b"18446744073709551615".to_vec());
}

#[test]
fn node_names_render() {
    assert_eq!(node_name(0), b"node_0".to_vec());
    assert_eq!(node_name(42), b"node_42".to_vec());
    assert_eq!(node_name(1500), b"node_1500".to_vec());
}

#[test]
fn node_names_distinct() {
    let mut seen: Vec<Vec<u8>> = Vec::new();
    for i in 0..200u64 {
        let name = node_name(i);
        assert!(!seen.contains(&name));
        seen.push(name);
    }
}

#[test]
fn allocator_counts_up() {
    let mut counter = NameAllocator::new();
    assert_eq!(counter.next_suffix(), 0);
    assert_eq!(counter.next_suffix(), 1);
    assert_eq!(counter.next_suffix(), 2);
    assert_eq!(counter.next, 3);
}
