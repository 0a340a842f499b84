use lucent_lang::value::{flip_sign, DataType, TypeError, Value, ValueArray, DECIMAL_PLACES};

fn compare_floats(a: u64, b: u64, decimal_places: u8) -> bool {
    let factor = 10.0f64.powi(i32::from(decimal_places));
    let a = (f64::from_bits(a) * factor).trunc();
    let b = (f64::from_bits(b) * factor).trunc();
    (a - b).abs() <= 0.0
}

fn show(bits: u64) -> String {
    f64::from_bits(bits).to_string()
}

fn float(val: f64) -> Value {
    Value::float(val.to_bits())
}

#[test]
fn float_is_a_float_and_unit_is_not() {
    let f = float(0.0);
    assert!(f.is_float());
    assert!(!f.is_unit());

    let u = Value::unit();
    assert!(!u.is_float());
    assert!(u.is_unit());
}

#[test]
fn float_holds_the_encoding() {
    assert_eq!(DataType::Float(0x3ff0_0000_0000_0000), float(1.0).data);
    assert_eq!(DataType::Unit, Value::unit().data);
    assert_eq!(1.0, f64::from_bits(float(1.0).as_float().unwrap()));
    assert_eq!(Ok(0), float(0.0).as_float());
    assert_eq!(Ok(0x4000_0000_0000_0000), float(2.0).as_float());
}

#[test]
fn as_float_of_a_float() {
    let f = float(1.0);

    if f.is_float() {
        assert_eq!(Ok(1.0), f.as_float().map(f64::from_bits));
    } else {
        panic!("f is not a float");
    }
}

#[test]
fn the_unit_value_is_no_float() {
    assert_eq!(Err(TypeError), Value::unit().as_float());
    assert_eq!(Err(TypeError), Value::unit().map_float(|a| a));
    assert_eq!(Err(TypeError), Value::unit().map_float(flip_sign));
}

#[test]
fn map_float_applies_the_function() {
    let f = float(5.0);
    assert!(f.is_float());
    let f = f.map_float(|a| (f64::from_bits(a) + 5.0).to_bits());
    assert_eq!(Ok(float(10.0)), f);
}

#[test]
fn flip_sign_negates() {
    assert_eq!((-1.5f64).to_bits(), flip_sign(1.5f64.to_bits()));
    assert_eq!(1.5f64.to_bits(), flip_sign((-1.5f64).to_bits()));
    assert_eq!((-0.0f64).to_bits(), flip_sign(0.0f64.to_bits()));
    assert_eq!(0x8000_0000_0000_0000, flip_sign(0));
    assert_eq!(f64::NEG_INFINITY.to_bits(), flip_sign(f64::INFINITY.to_bits()));
    assert!(f64::from_bits(flip_sign(f64::NAN.to_bits())).is_nan());
    for val in [0.0, 1.0, -2.5, 1e300, -1e-300, f64::MAX, f64::MIN_POSITIVE] {
        let val: f64 = val;
        assert_eq!((-val).to_bits(), flip_sign(val.to_bits()));
        assert_eq!(Ok(float(-val)), float(val).map_float(flip_sign));
    }
}

#[test]
fn compare_values_asks_for_ten_decimal_places() {
    assert_eq!(10, DECIMAL_PLACES);
    assert!(Value::compare_values(float(1.0), float(2.0), |_, _, places| places == 10));
}

#[test]
fn compare_values_of_floats() {
    assert!(Value::compare_values(float(1.2), float(1.2), compare_floats));
    assert!(Value::compare_values(float(0.1 + 0.2), float(0.3), compare_floats));
    assert!(Value::compare_values(float(1.5), float(1.500000000001), compare_floats));
    assert!(!Value::compare_values(float(1.5), float(1.50000001), compare_floats));
    assert!(!Value::compare_values(float(1.0), float(2.0), compare_floats));
    assert!(!Value::compare_values(float(1.0), float(-1.0), compare_floats));
}

#[test]
fn compare_values_of_units_and_mixed_pairs() {
    assert!(Value::compare_values(Value::unit(), Value::unit(), compare_floats));
    assert!(!Value::compare_values(Value::unit(), float(0.0), compare_floats));
    assert!(!Value::compare_values(float(0.0), Value::unit(), compare_floats));
    assert!(Value::compare_values(Value::unit(), Value::unit(), |_, _, _| false));
    assert!(!Value::compare_values(Value::unit(), float(0.0), |_, _, _| true));
    assert!(!Value::compare_values(float(0.0), Value::unit(), |_, _, _| true));
}

#[test]
fn to_text_of_floats_and_unit() {
    assert_eq!("1.2", float(1.2).to_text(&show));
    assert_eq!("-3", float(-3.0).to_text(&show));
    assert_eq!("unit", Value::unit().to_text(&show));
    assert_eq!("unit", Value::unit().to_text(&|_| String::from("number")));
    assert_eq!("number", float(1.0).to_text(&|_| String::from("number")));
}

#[test]
fn equal_values_have_equal_encodings() {
    assert_eq!(float(1.5), float(1.5));
    assert_ne!(float(1.5), float(2.5));
    assert_ne!(float(0.0), float(-0.0));
    assert_ne!(float(0.0), Value::unit());
    assert_eq!(Value::unit(), Value::unit());
}

#[test]
fn value_array_returns_indices_in_order() {
    let mut pool = ValueArray::new();
    assert_eq!(0, pool.get_size());
    assert_eq!(None, pool.get_constant(0));
    assert_eq!(0, pool.write_value(float(1.0)));
    assert_eq!(1, pool.write_value(Value::unit()));
    assert_eq!(2, pool.write_value(float(1.0)));
    assert_eq!(3, pool.get_size());
    assert_eq!(Some(float(1.0)), pool.get_constant(0));
    assert_eq!(Some(Value::unit()), pool.get_constant(1));
    assert_eq!(Some(float(1.0)), pool.get_constant(2));
    assert_eq!(None, pool.get_constant(3));
    assert_eq!(None, pool.get_constant(usize::MAX));
    assert_eq!(0, ValueArray::default().get_size());
}
