use nx53::entropy::{entropy_millibits, log2_millibits};

#[test]
fn log2_exact_on_powers_of_two() {
    assert_eq!(log2_millibits(0), 0);
    assert_eq!(log2_millibits(1), 0);
    assert_eq!(log2_millibits(2), 1000);
    assert_eq!(log2_millibits(4), 2000);
    assert_eq!(log2_millibits(1024), 10_000);
    assert_eq!(log2_millibits(u64::MAX), 63_999);
}

#[test]
fn log2_between_powers() {
    let l3 = log2_millibits(3);
    assert!(1000 < l3 && l3 < 2000, "log2(3) = {} millibits", l3);
    let l5 = log2_millibits(5);
    assert!(2000 < l5 && l5 < 3000, "log2(5) = {} millibits", l5);
}

#[test]
fn entropy_of_flat_distributions() {
    let none: Vec<String> = Vec::new();
    assert_eq!(entropy_millibits(&none), 0);
    // a single character has no surprise
    assert_eq!(entropy_millibits(&vec!["a.x".to_string()]), 0);
    // two of the same character neither
    assert_eq!(entropy_millibits(&vec!["aa.x".to_string()]), 0);
    // two distinct characters give exactly one bit
    assert_eq!(entropy_millibits(&vec!["ab.x".to_string()]), 1000);
    // four distinct characters give exactly two bits
    assert_eq!(entropy_millibits(&vec!["abcd.x".to_string()]), 2000);
}

#[test]
fn entropy_only_reads_first_labels() {
    // the second label never counts: both inputs share the first label `ab`
    let a = entropy_millibits(&vec!["ab.zzzz".to_string()]);
    let b = entropy_millibits(&vec!["ab.q".to_string()]);
    assert_eq!(a, 1000);
    assert_eq!(a, b);
}
