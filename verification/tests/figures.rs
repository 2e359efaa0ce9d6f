use unityassetdb::figures::{fmt_bytes, fmt_exact, fmt_short, rate};

fn sample() -> Vec<u64> {
    let mut v: Vec<u64> = Vec::new();
    let mut x: u64 = 88172645463325252;
    let mut i: u32 = 0;
    while i < 60000 {
        x ^= x << 13;
        x ^= x >> 7;
        x ^= x << 17;
        v.push(x >> (i % 64));
        i += 1;
    }
    let mut e: u32 = 0;
    while e < 64 {
        let p: u64 = 1u64 << e;
        v.push(p);
        v.push(p - 1);
        v.push(p.wrapping_add(1));
        e += 1;
    }
    v.push(u64::MAX);
    let mut k: u64 = 0;
    while k < 2000 {
        v.push(1_000_000 + k * 50_000);
        v.push(10_000 + k * 50);
        v.push(1_048_576 + k * 524_288);
        v.push(1024 + k * 512);
        v.push(1_073_741_824 + k * 53_687_091);
        k += 1;
    }
    v
}

#[test]
fn short_agrees_with_floating_point() {
    for n in sample() {
        let expected = if n >= 1_000_000 {
            format!("{:.1}M", n as f64 / 1_000_000.0)
        } else if n >= 100_000 {
            format!("{}K", n / 1_000)
        } else if n >= 10_000 {
            format!("{:.1}K", n as f64 / 1_000.0)
        } else {
            n.to_string()
        };
        assert_eq!(fmt_short(n), expected);
    }
}

#[test]
fn bytes_agree_with_floating_point() {
    for n in sample() {
        let expected = if n >= 1_073_741_824 {
            format!("{:.1} GB", n as f64 / 1_073_741_824.0)
        } else if n >= 1_048_576 {
            format!("{:.0} MB", n as f64 / 1_048_576.0)
        } else if n >= 1024 {
            format!("{:.0} KB", n as f64 / 1024.0)
        } else {
            format!("{} B", n)
        };
        assert_eq!(fmt_bytes(n), expected);
    }
}

#[test]
fn rate_agrees_with_floating_point() {
    let values = sample();
    let mut i: usize = 0;
    while i + 1 < values.len() {
        let count = values[i];
        let nanos = values[i + 1];
        i += 1;
        if nanos == 0 {
            continue;
        }
        let dt = std::time::Duration::from_nanos(nanos).as_secs_f64();
        assert_eq!(rate(count, nanos), (count as f64 / dt) as u64);
    }
}

#[test]
fn exact_figures_read_back() {
    for n in sample() {
        assert_eq!(fmt_exact(n).replace(',', ""), n.to_string());
    }
}

#[test]
fn exact_figures() {
    assert_eq!(fmt_exact(0), "0");
    assert_eq!(fmt_exact(999), "999");
    assert_eq!(fmt_exact(1_000), "1,000");
    assert_eq!(fmt_exact(31_422), "31,422");
    assert_eq!(fmt_exact(1_000_001), "1,000,001");
    assert_eq!(fmt_exact(u64::MAX), "18,446,744,073,709,551,615");
}
