use gdb_machine::tools::strdistance;

fn d(a: &str, b: &str) -> u64 {
    strdistance(&a.to_string(), &b.to_string())
}

#[test]
fn distance_to_self_is_zero() {
    assert_eq!(d("", ""), 0);
    assert_eq!(d("node12-0-4711", "node12-0-4711"), 0);
    assert_eq!(d("héllo", "héllo"), 0);
}

#[test]
fn distance_is_symmetric() {
    let pairs = [("abc", "abd"), ("a", ""), ("node1-0-12", "node2-1-7"), ("x", "xyz")];
    for (a, b) in pairs {
        assert_eq!(d(a, b), d(b, a));
    }
}

#[test]
fn distance_sums_code_point_gaps() {
    assert_eq!(d("abc", "abd"), 1);
    assert_eq!(d("a", "c"), 2);
    assert_eq!(d("ac", "ca"), 4);
}

#[test]
fn distance_pads_the_shorter_with_zeros() {
    assert_eq!(d("a", ""), 97);
    assert_eq!(d("ab", "a"), 98);
    assert_eq!(d("", "AB"), 65 + 66);
}

#[test]
fn distance_counts_characters_not_bytes() {
    assert_eq!(d("é", "e"), 0xe9 - 0x65);
    assert_eq!(d("é", ""), 0xe9);
}
