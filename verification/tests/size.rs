use modeldeck::size::human_size;

fn by_double(bytes: u64) -> String {
    const UNITS: [&str; 5] = ["B", "KB", "MB", "GB", "TB"];
    let mut v = bytes as f64;
    let mut u = 0;
    while v >= 1024.0 && u < UNITS.len() - 1 {
        v /= 1024.0;
        u += 1;
    }
    if u == 0 {
        format!("{bytes} B")
    } else {
        format!("{v:.1} {}", UNITS[u])
    }
}

#[test]
fn sizes_are_shown_with_one_decimal() {
    assert_eq!(human_size(0), "0 B");
    assert_eq!(human_size(1023), "1023 B");
    assert_eq!(human_size(1024), "1.0 KB");
    assert_eq!(human_size(1280), "1.2 KB");
    assert_eq!(human_size(1792), "1.8 KB");
    assert_eq!(human_size(154_000_000_000), "143.4 GB");
    assert_eq!(human_size(1_048_575), "1024.0 KB");
    assert_eq!(human_size(u64::MAX), "16777216.0 TB");
}

#[test]
fn a_unit_is_shown_at_most_1024_times() {
    for shift in 10..50 {
        for n in [1u64 << shift, (1u64 << shift) + 1, (2u64 << shift) - 1] {
            let shown = human_size(n);
            let number: f64 = shown.split(' ').next().unwrap().parse().unwrap();
            assert!((1.0..=1024.0).contains(&number), "{shown}");
        }
    }
}

#[test]
fn sizes_agree_with_doubles() {
    let mut n: u64 = 1;
    for _ in 0..200_000 {
        n = n.wrapping_mul(6364136223846793005).wrapping_add(1442695040888963407);
        for shift in [0, 5, 11, 20, 24, 30, 34, 40, 44, 50, 54] {
            let x = n >> shift;
            assert_eq!(human_size(x), by_double(x), "{x}");
        }
    }
}

#[test]
fn ties_agree_with_doubles() {
    for unit in [1u64 << 10, 1 << 20, 1 << 30, 1 << 40] {
        for k in 0..4000u64 {
            let base = unit.wrapping_mul(k / 4).wrapping_add(unit / 4 * (k % 4));
            for d in [0u64, 1, 2] {
                for x in [base.wrapping_add(d), base.wrapping_sub(d)] {
                    assert_eq!(human_size(x), by_double(x), "{x}");
                }
            }
        }
    }
    for p in 50..64 {
        let b = 1u64 << p;
        for d in 0..3000u64 {
            for x in [b.wrapping_add(d), b.wrapping_sub(d)] {
                assert_eq!(human_size(x), by_double(x), "{x}");
            }
        }
    }
}
