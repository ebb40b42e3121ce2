use mcproton::{Underlying, SCALE};

#[test]
fn test_underlying_creation() {
    let underlying = Underlying::new("TEST".to_string(), 100 * SCALE, SCALE / 5);
    assert_eq!(underlying.name, "TEST");
    assert_eq!(underlying.spot_price, 100 * SCALE);
    assert_eq!(underlying.volatility, SCALE / 5);
}

#[test]
fn underlying_test_underlying_creation() {
    let underlying = Underlying::new("TEST".to_string(), 100 * SCALE, SCALE / 5);
    assert_eq!(underlying.name, "TEST");
    assert_eq!(underlying.spot_price, 100 * SCALE);
    assert_eq!(underlying.volatility, SCALE / 5);
}
