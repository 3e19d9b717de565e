use static_malware_analysis::binary::entropy_label;
use static_malware_analysis::entropy::{byte_counts, Entropy, HIGH_ENTROPY};

fn entropy(x: f64) -> Entropy {
    Entropy::from_bits(x.to_bits()).unwrap()
}

#[test]
fn rendering_agrees_with_the_formatter() {
    for i in 0..=8000u32 {
        let x = i as f64 / 1000.0;
        assert_eq!(entropy(x).to_three_places(), format!("{x:.3}"), "{x}");
        assert_eq!(entropy(x).to_two_places(), format!("{x:.2}"), "{x}");
    }
    for i in 0..2000u32 {
        let x = (i as f64 * 0.7390851332151607) % 8.0;
        assert_eq!(entropy(x).to_three_places(), format!("{x:.3}"), "{x}");
        assert_eq!(entropy(x).to_two_places(), format!("{x:.2}"), "{x}");
    }
}

#[test]
fn halves_round_to_the_even_digit() {
    for x in [0.125f64, 0.375, 2.5, 0.0625, 7.0625, 1.0005, 6.9995, 0.0005, 7.9995, 5e-324] {
        assert_eq!(entropy(x).to_three_places(), format!("{x:.3}"), "{x}");
        assert_eq!(entropy(x).to_two_places(), format!("{x:.2}"), "{x}");
    }
}

#[test]
fn only_numbers_from_zero_to_below_sixteen_are_entropies() {
    assert!(Entropy::from_bits((-0.5f64).to_bits()).is_none());
    assert!(Entropy::from_bits(16.0f64.to_bits()).is_none());
    assert!(Entropy::from_bits(f64::NAN.to_bits()).is_none());
    assert!(Entropy::from_bits(f64::INFINITY.to_bits()).is_none());
    assert_eq!(Entropy::from_bits(8.0f64.to_bits()).unwrap().to_bits(), 8.0f64.to_bits());
    assert_eq!(Entropy::zero().to_bits(), 0.0f64.to_bits());
}

#[test]
fn labels_change_at_their_thresholds() {
    assert_eq!(entropy_label(entropy(7.5)), "packed/encrypted?");
    assert_eq!(entropy_label(entropy(7.499999)), "compressed?");
    assert_eq!(entropy_label(entropy(7.0)), "compressed?");
    assert_eq!(entropy_label(entropy(6.999999)), "code/data");
    assert_eq!(entropy_label(entropy(5.0)), "code/data");
    assert_eq!(entropy_label(entropy(4.999999)), "structured");
    assert_eq!(entropy_label(entropy(1.0)), "structured");
    assert_eq!(entropy_label(entropy(0.999999)), "uniform/empty");
    assert!(entropy(7.0).reaches(HIGH_ENTROPY));
    assert!(!entropy(6.9999999).reaches(HIGH_ENTROPY));
}

#[test]
fn byte_values_are_counted() {
    let counts = byte_counts(&[1, 2, 1, 255, 1]);
    assert_eq!(counts.len(), 256);
    assert_eq!((counts[1], counts[2], counts[255], counts[0]), (3, 1, 1, 0));
    assert_eq!(counts.iter().sum::<usize>(), 5);
}
