use takeoff::error::TakeoffError;
use takeoff::frac::Frac;
use takeoff::unit::{Unit, UnitUtils, UnitValue, UnitValueItemType};

#[test]
fn test_unit_from_str() {
    assert_eq!(Unit::from_str("yards").unwrap(), Unit::Yards);
    assert_eq!(Unit::from_str("Yards").unwrap(), Unit::Yards);
    assert_eq!(Unit::from_str("YARDS").unwrap(), Unit::Yards);
    assert_eq!(Unit::from_str("yd").unwrap(), Unit::Yards);
    assert_eq!(Unit::from_str("feet").unwrap(), Unit::Feet);
    assert_eq!(Unit::from_str("ft").unwrap(), Unit::Feet);
    assert_eq!(Unit::from_str("inches").unwrap(), Unit::Inches);
    assert_eq!(Unit::from_str("in").unwrap(), Unit::Inches);
    assert_eq!(Unit::from_str("meters").unwrap(), Unit::Meters);
    assert_eq!(Unit::from_str("m").unwrap(), Unit::Meters);
    assert_eq!(Unit::from_str("centimeters").unwrap(), Unit::Centimeters);
    assert_eq!(Unit::from_str("cm").unwrap(), Unit::Centimeters);
}

#[test]
fn test_unit_from_str_unknown() {
    assert!(matches!(
        Unit::from_str("kilometers"),
        Err(TakeoffError::UnknownUnit { .. })
    ));
    assert!(matches!(
        Unit::from_str("miles"),
        Err(TakeoffError::UnknownUnit { .. })
    ));
    assert!(matches!(
        Unit::from_str(""),
        Err(TakeoffError::UnknownUnit { .. })
    ));
    assert!(matches!(
        Unit::from_str("invalid"),
        Err(TakeoffError::UnknownUnit { .. })
    ));
}

#[test]
fn test_unit_display_strings() {
    assert_eq!(Unit::Yards.display(), "yd");
    assert_eq!(Unit::Feet.display(), "ft");
    assert_eq!(Unit::Inches.display(), "in");
    assert_eq!(Unit::Meters.display(), "m");
    assert_eq!(Unit::Centimeters.display(), "cm");
    assert_eq!(Unit::Meters.unit_str(), "Meters");
}

#[test]
fn test_unit_lists() {
    assert_eq!(UnitUtils::all_units().len(), 5);
    assert_eq!(
        UnitUtils::imperial_units(),
        vec![Unit::Yards, Unit::Feet, Unit::Inches]
    );
    assert_eq!(
        UnitUtils::metric_units(),
        vec![Unit::Meters, Unit::Centimeters]
    );
}

#[test]
fn test_convert() {
    // One yard is exactly three feet.
    let r = Unit::Yards.convert(Frac::from_int(1), &Unit::Feet).unwrap();
    assert!(r.eq_value(Frac::from_int(3)).unwrap());
}

#[test]
fn test_convert_area() {
    // One square metre in square centimetres, exactly.
    let r = UnitUtils::convert_area(Frac::from_int(1), Unit::Meters, Unit::Centimeters).unwrap();
    assert!(r.eq_value(Frac::from_int(10000)).unwrap());
    // One square metre in square feet: exactly 10^8 / 3048^2, whose f64
    // rounding is the familiar 10.76391...
    let r = UnitUtils::convert_area(Frac::from_int(1), Unit::Meters, Unit::Feet).unwrap();
    assert!(r
        .eq_value(Frac {
            num: 100_000_000,
            den: 9_290_304,
        })
        .unwrap());
    let approx = (r.num as f64) / (r.den as f64);
    assert!((approx - 10.76391).abs() < 1e-5);
}

#[test]
fn test_unit_round_trip() {
    // Converting there and back returns the value exactly, for every pair.
    let units = UnitUtils::all_units();
    let v = Frac::new(7, 2);
    for &u1 in units.iter() {
        for &u2 in units.iter() {
            let there = UnitUtils::convert(v, u1, u2).unwrap();
            let back = UnitUtils::convert(there, u2, u1).unwrap();
            assert!(back.eq_value(v).unwrap());
            let there_a = UnitUtils::convert_area(v, u1, u2).unwrap();
            let back_a = UnitUtils::convert_area(there_a, u2, u1).unwrap();
            assert!(back_a.eq_value(v).unwrap());
            let there_v = UnitUtils::convert_volume(v, u1, u2).unwrap();
            let back_v = UnitUtils::convert_volume(there_v, u2, u1).unwrap();
            assert!(back_v.eq_value(v).unwrap());
        }
    }
}

#[test]
fn test_new_unit_value() {
    let uv = UnitValue::new(Frac::from_int(1), Unit::Meters, UnitValueItemType::Length).unwrap();
    assert!(uv
        .get_converted_value(Unit::Meters)
        .unwrap()
        .eq_value(Frac::from_int(1))
        .unwrap());
    let uv = UnitValue::new(Frac::from_int(1), Unit::Meters, UnitValueItemType::Area).unwrap();
    assert!(uv
        .get_converted_value(Unit::Meters)
        .unwrap()
        .eq_value(Frac::from_int(1))
        .unwrap());
    let uv = UnitValue::new(Frac::from_int(2), Unit::Yards, UnitValueItemType::Volume).unwrap();
    assert!(uv
        .get_converted_value(Unit::Yards)
        .unwrap()
        .eq_value(Frac::from_int(2))
        .unwrap());
    // A metre is 100 centimetres.
    let uv = UnitValue::new(Frac::from_int(1), Unit::Meters, UnitValueItemType::Length).unwrap();
    assert!(uv
        .get_converted_value(Unit::Centimeters)
        .unwrap()
        .eq_value(Frac::from_int(100))
        .unwrap());
}
