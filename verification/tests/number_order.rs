//! Numbers by their bits: comparison, whole numbers, order, and text.

use treeboost::float::{F32, F64};
use treeboost::sorting::stable_order;
use treeboost::text::{ends_with, push_decimal, push_hexadecimal, same_text, starts_with, with_number};

fn bits(value: f32) -> F32 {
    F32 { bits: value.to_bits() }
}

fn wide(value: f64) -> F64 {
    F64 { bits: value.to_bits() }
}

const SAMPLES: [f32; 16] = [
    0.0,
    -0.0,
    1.0,
    -1.0,
    0.5,
    1.5,
    f32::MIN_POSITIVE,
    -f32::MIN_POSITIVE,
    f32::MAX,
    f32::MIN,
    f32::INFINITY,
    f32::NEG_INFINITY,
    f32::NAN,
    f32::EPSILON,
    16777216.0,
    1e-45,
];

#[test]
fn comparison_is_that_of_numbers() {
    for a in SAMPLES {
        assert_eq!(bits(a).is_nan(), a.is_nan());
        for b in SAMPLES {
            assert_eq!(bits(a).lt(bits(b)), a < b, "{} < {}", a, b);
            assert_eq!(bits(a).le(bits(b)), a <= b, "{} <= {}", a, b);
            assert_eq!(bits(a).eq_value(bits(b)), a == b, "{} == {}", a, b);
            let (x, y) = (a as f64, b as f64);
            assert_eq!(wide(x).lt(wide(y)), x < y);
            assert_eq!(wide(x).le(wide(y)), x <= y);
            assert_eq!(wide(x).is_nan(), x.is_nan());
        }
    }
}

#[test]
fn whole_numbers_are_converted_as_casts_do() {
    for a in SAMPLES {
        assert_eq!(bits(a).to_index(), a as usize, "{}", a);
    }
    for a in [0.999f32, 1.75, 255.5, 8388607.5, 1e10, 1e18, 1.8446743e19, 1.8446744e19, 3e20] {
        assert_eq!(bits(a).to_index(), a as usize, "{}", a);
    }
    let indices = [
        0,
        1,
        2,
        3,
        1000,
        16777215,
        16777216,
        16777217,
        16777218,
        16777219,
        33554434,
        33554435,
        1 << 40,
        (1 << 40) + 1,
        usize::MAX / 3,
        usize::MAX - 1,
        usize::MAX,
    ];
    for n in indices {
        assert_eq!(F32::from_index(n).bits, (n as f32).to_bits(), "{}", n);
    }
    for n in 0..5000usize {
        assert_eq!(F32::from_index(n).to_index(), n);
    }
}

#[test]
fn equal_keys_keep_their_order() {
    let keys: Vec<F32> = [3.0, 1.0, 2.0, 1.0, -0.0, 0.0].iter().map(|k| bits(*k)).collect();
    assert_eq!(stable_order(&keys, false), vec![4, 5, 1, 3, 2, 0]);
    assert_eq!(stable_order(&keys, true), vec![0, 2, 1, 3, 4, 5]);
    let none: Vec<usize> = Vec::new();
    assert_eq!(stable_order(&[], false), none);

    let values: Vec<f32> = (0..200).map(|i| ((i * 73) % 31) as f32).collect();
    let mut expected: Vec<usize> = (0..200).collect();
    expected.sort_by(|a, b| values[*a].partial_cmp(&values[*b]).unwrap());
    let keys: Vec<F32> = values.iter().map(|v| bits(*v)).collect();
    assert_eq!(stable_order(&keys, false), expected);
}

#[test]
fn numbers_are_written_in_text() {
    for n in [0u64, 7, 10, 99, 100, 12345, u64::MAX] {
        let mut text = String::from("n = ");
        push_decimal(&mut text, n);
        assert_eq!(text, format!("n = {}", n));
        assert_eq!(with_number("n = ", n), text);
        let mut text = String::from("0x");
        push_hexadecimal(&mut text, n);
        assert_eq!(text, format!("{:#x}", n));
    }
    assert!(same_text("abc", "abc") && !same_text("abc", "abd") && !same_text("abc", "ab"));
    assert!(starts_with("iteration_1", "iteration_") && !starts_with("it", "iteration_"));
    assert!(ends_with("a.csv", ".csv") && !ends_with("a.csv.gz", ".csv") && ends_with("abc", ""));
}
