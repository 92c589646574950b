use atmoq::seconds::{push_seconds_millis, push_seconds_tenths};

fn tenths(ms: u64) -> String {
    let mut out = String::new();
    push_seconds_tenths(&mut out, ms);
    out
}

fn millis(ms: u64) -> String {
    let mut out = String::new();
    push_seconds_millis(&mut out, ms);
    out
}

fn check(ms: u64) {
    assert_eq!(tenths(ms), format!("{:.1}", ms as f64 / 1000.0), "{ms}");
    assert_eq!(millis(ms), format!("{:.3}", ms as f64 / 1000.0), "{ms}");
}

#[test]
fn seconds_are_what_floats_show() {
    for ms in 0..20_000 {
        check(ms);
    }
    for ms in (20_000..200_000_000).step_by(9_973) {
        check(ms);
    }
}

#[test]
fn ties_go_to_the_float() {
    // Halfway in decimal, not always halfway in binary.
    assert_eq!(tenths(250), "0.2");
    assert_eq!(tenths(350), "0.3");
    assert_eq!(tenths(450), "0.5");
    assert_eq!(tenths(60_250), "60.2");
    assert_eq!(tenths(60_750), "60.8");
    assert_eq!(millis(1), "0.001");
    assert_eq!(millis(0), "0.000");
}

#[test]
fn large_spans_round_as_floats_do() {
    let mut n: u64 = 1;
    while n < u64::MAX / 3 {
        for d in [0, 1, 2, 3, 49, 50, 51, 499, 500, 501, 999] {
            check(n + d);
            check(n.saturating_sub(d));
        }
        n *= 3;
    }
    for d in 0..3_000 {
        check(u64::MAX - d);
        check((1 << 53) + d);
        check((1 << 52) + d * 7);
    }
}
