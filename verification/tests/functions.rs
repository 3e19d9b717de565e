use static_malware_analysis::functions::nearest_seed;

#[test]
fn nearest_seed_finds_the_enclosing_function() {
    let seeds = [0x1000u64, 0x1100, 0x1200];
    assert_eq!(nearest_seed(&seeds, 0x1000), Some(0x1000)); // exactly on a seed
    assert_eq!(nearest_seed(&seeds, 0x1050), Some(0x1000)); // inside the first
    assert_eq!(nearest_seed(&seeds, 0x1100), Some(0x1100)); // on the second
    assert_eq!(nearest_seed(&seeds, 0x9999), Some(0x1200)); // after the last
    assert_eq!(nearest_seed(&seeds, 0x0900), None); // before any seed
    assert_eq!(nearest_seed(&[], 0x1000), None);
}
