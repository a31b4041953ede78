use conv64::{digit_char, encode, max_value_for_letters};

const TABLE: &str = "0123456789ABCDEFGHIJKLMNOPQRSTUVWXYZabcdefghijklmnopqrstuvwxyz-_";

fn decode(s: &str) -> usize {
    let mut v: usize = 0;
    for c in s.chars() {
        v = v * 64 + TABLE.find(c).unwrap();
    }
    v
}

#[test]
fn test_to_b64() {
    for i in 0..=9 {
        assert_eq!(encode(i), i.to_string());
    }

    for i in 9..64 {
        let c = digit_char(i);
        assert_eq!(encode(i), c.to_string());
        assert_eq!(encode(i).len(), 1);
    }

    assert_eq!(encode(64), "10");
    assert_eq!(encode(65), "11");

    assert_eq!(encode(64 * 2), "20");
    assert_eq!(encode(64 * 2 + 1), "21");
}

#[test]
fn generate() {
    for _ in 0..100 {
        let id = conv64::generate(0..100);
        assert!(id.len() <= 2);
    }
}

#[test]
fn alphabet_matches_table() {
    let chars: Vec<char> = TABLE.chars().collect();
    assert_eq!(chars.len(), 64);
    for d in 0..64 {
        assert_eq!(digit_char(d), chars[d]);
    }
    for a in 0..64 {
        for b in (a + 1)..64 {
            assert_ne!(digit_char(a), digit_char(b));
        }
    }
}

#[test]
fn encode_scenarios() {
    assert_eq!(encode(0), "0");
    assert_eq!(encode(1), "1");
    assert_eq!(encode(63), "_");
    assert_eq!(encode(62), "-");
    assert_eq!(encode(64), "10");
    assert_eq!(encode(145), "2H");
    assert_eq!(encode(4095), "__");
    assert_eq!(encode(4096), "100");
}

#[test]
fn encode_largest_value() {
    let s = encode(usize::MAX);
    assert_eq!(s.len() as u32, (usize::BITS + 5) / 6);
    assert_eq!(decode(&s), usize::MAX);
}

#[test]
fn round_trip() {
    let samples: [usize; 8] = [0, 1, 63, 64, 145, 4095, 4096, 123_456_789];
    for v in samples {
        assert_eq!(decode(&encode(v)), v);
    }
    for v in 0..10_000 {
        assert_eq!(decode(&encode(v)), v);
    }
}

#[test]
fn only_alphabet_symbols() {
    for v in (0..1_000_000).step_by(7) {
        for c in encode(v).chars() {
            assert!(TABLE.contains(c));
        }
    }
}

#[test]
fn no_leading_zero() {
    for v in 1..10_000 {
        assert!(!encode(v).starts_with('0'));
    }
}

#[test]
fn length_never_shrinks() {
    let mut last = 0;
    for v in 0..300_000 {
        let n = encode(v).len();
        assert!(n >= last);
        last = n;
    }
}

#[test]
fn max_value_scenarios() {
    assert_eq!(max_value_for_letters(0), Some(0));
    assert_eq!(max_value_for_letters(1), Some(63));
    assert_eq!(max_value_for_letters(2), Some(4095));
    assert_eq!(max_value_for_letters(3), Some(262_143));
}

#[test]
fn max_value_boundary_lengths() {
    for n in 1..=((usize::BITS - 1) / 6) {
        let m = max_value_for_letters(n).unwrap();
        assert_eq!(encode(m).len() as u32, n);
        assert_eq!(encode(m + 1).len() as u32, n + 1);
    }
}

#[test]
fn max_value_overflow_is_signalled() {
    let first_too_large = usize::BITS / 6 + 1;
    assert!(max_value_for_letters(first_too_large - 1).is_some());
    assert_eq!(max_value_for_letters(first_too_large), None);
    assert_eq!(max_value_for_letters(first_too_large + 1), None);
    assert_eq!(max_value_for_letters(u32::MAX), None);
}

#[test]
fn generate_stays_in_range() {
    for _ in 0..200 {
        let id = conv64::generate(4096..4097);
        assert_eq!(id, "100");
    }
    for _ in 0..200 {
        let v = decode(&conv64::generate(10..20));
        assert!((10..20).contains(&v));
    }
}
