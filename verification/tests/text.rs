use bg_driver::text::{push_decimal_i64, push_decimal_u64};

#[test]
fn decimal_rendering_matches_display() {
    for x in [0i64, 7, -7, 10, 99, -100, 123456789, i64::MAX, i64::MIN] {
        let mut s = String::from("<");
        push_decimal_i64(&mut s, x);
        assert_eq!(s, format!("<{}", x));
    }
    for n in [0u64, 9, 10, 1000, u64::MAX] {
        let mut s = String::new();
        push_decimal_u64(&mut s, n);
        assert_eq!(s, n.to_string());
    }
}
