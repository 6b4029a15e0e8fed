use std::cmp::Ordering;
use yt_dlp_rs::json::JsonNumber;
use yt_dlp_rs::rate::kbps_order_key;

fn as_f64(n: JsonNumber) -> f64 {
    match n {
        JsonNumber::PosInt(u) => u as f64,
        JsonNumber::NegInt(i) => i as f64,
        JsonNumber::Float(bits) => f64::from_bits(bits),
    }
}

fn kbps(r: Option<JsonNumber>) -> f64 {
    r.map(as_f64).map(|b| b / 1000.0).unwrap_or(0.0)
}

fn samples() -> Vec<Option<JsonNumber>> {
    let floats = [
        0.0f64, -0.0, 1.0, 0.5, 999.9999, 1000.0, 1000.0000000000001, 1000.0000000000002,
        130000.5, 130000.50000000001, -1.0, -130000.5, 5e-324, 1e-310, 2.2250738585072014e-308,
        1e300, f64::MAX, -f64::MAX, 123456789.123, 4.0e15, 9007199254740993.0,
    ];
    let mut v: Vec<Option<JsonNumber>> = vec![None];
    for f in floats {
        v.push(Some(JsonNumber::Float(f.to_bits())));
    }
    for u in [0u64, 1, 499, 500, 501, 1000, 130000, 9007199254740993, u64::MAX, u64::MAX - 1] {
        v.push(Some(JsonNumber::PosInt(u)));
    }
    for i in [-1i64, -500, -130000, i64::MIN, i64::MIN + 1] {
        v.push(Some(JsonNumber::NegInt(i)));
    }
    v
}

#[test]
fn key_orders_as_kilobit_figures() {
    let s = samples();
    for a in &s {
        for b in &s {
            let expected = kbps(*a).partial_cmp(&kbps(*b)).unwrap_or(Ordering::Equal);
            let got = kbps_order_key(*a).cmp(&kbps_order_key(*b));
            assert_eq!(got, expected, "{:?} vs {:?}", a, b);
        }
    }
}

#[test]
fn adjacent_doubles_that_divide_to_one_figure_tie() {
    let mut x = 1000.0f64;
    let mut found = false;
    for _ in 0..64 {
        let y = f64::from_bits(x.to_bits() + 1);
        if x / 1000.0 == y / 1000.0 {
            let a = kbps_order_key(Some(JsonNumber::Float(x.to_bits())));
            let b = kbps_order_key(Some(JsonNumber::Float(y.to_bits())));
            assert_eq!(a, b);
            found = true;
        }
        x = y;
    }
    assert!(found);
}
