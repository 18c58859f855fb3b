use recipe_book::measurements::{Imperial, MeasurementError, Metric, Volume, Weight};
use std::str::FromStr;

#[test]
fn print_metric() {
    let w = Volume::new_metric(900000);
    let i = w.as_imperial();

    println!("{}", i.render());
}

#[test]
fn parse_weight() {
    let a = "10 g";
    let b = "10 pounds of eggs";
    let c = "10000 KGs of cheese";

    assert_eq!(a.parse::<Weight>().unwrap().get(), 10000);
    assert_eq!(
        b.parse::<Weight>().unwrap().get(),
        10 * Weight::<Metric>::POUND
    );
    assert_eq!(c.parse::<Weight>().unwrap().get(), 10_000_000_000);
}

#[test]
fn empty_string_is_refused() {
    assert_eq!(Weight::from_str(""), Err(MeasurementError::EmptyString));
    assert_eq!(Volume::from_str(""), Err(MeasurementError::EmptyString));
}

#[test]
fn missing_space_is_invalid_format() {
    assert_eq!(Weight::from_str("10"), Err(MeasurementError::InvalidFormat));
    assert_eq!(Volume::from_str("10ml"), Err(MeasurementError::InvalidFormat));
}

#[test]
fn unknown_unit() {
    assert_eq!(Weight::from_str("10 furlongs"), Err(MeasurementError::UnknownUnit));
    assert_eq!(Volume::from_str("10 g"), Err(MeasurementError::UnknownUnit));
    assert_eq!(Weight::from_str("1 cup"), Err(MeasurementError::UnknownUnit));
}

#[test]
fn malformed_amount() {
    assert_eq!(
        Weight::from_str("abc g"),
        Err(MeasurementError::CustomString("invalid float literal".to_string()))
    );
    assert_eq!(
        Weight::from_str(" g"),
        Err(MeasurementError::CustomString(
            "cannot parse float from empty string".to_string()
        ))
    );
    assert_eq!(
        Volume::from_str("1.2.3 cup"),
        Err(MeasurementError::CustomString("invalid float literal".to_string()))
    );
}

#[test]
fn malformed_amount_wins_over_unknown_unit() {
    assert_eq!(
        Weight::from_str("x furlongs"),
        Err(MeasurementError::CustomString("invalid float literal".to_string()))
    );
}

#[test]
fn decimal_amounts() {
    assert_eq!(Weight::from_str("1.5 kg").unwrap().get(), 1_500_000);
    assert_eq!(Weight::from_str(".25 g").unwrap().get(), 250);
    assert_eq!(Weight::from_str("2. g").unwrap().get(), 2000);
    assert_eq!(Weight::from_str("+3 mg").unwrap().get(), 3);
    assert_eq!(Volume::from_str("0.5 cup").unwrap().get(), 118_294);
    assert_eq!(Volume::from_str("0.333 l").unwrap().get(), 333_000);
}

#[test]
fn negative_amount_gives_zero() {
    assert_eq!(Weight::from_str("-1 g").unwrap().get(), 0);
}

#[test]
fn huge_amount_saturates() {
    assert_eq!(
        Weight::from_str("99999999999999999999999 kg").unwrap().get(),
        u64::MAX
    );
}

#[test]
fn weight_aliases() {
    assert_eq!(Weight::from_str("1 milligram").unwrap().get(), 1);
    assert_eq!(Weight::from_str("2 cg").unwrap().get(), 20);
    assert_eq!(Weight::from_str("2 decigrams").unwrap().get(), 200);
    assert_eq!(Weight::from_str("2 Grams").unwrap().get(), 2000);
    assert_eq!(Weight::from_str("1 oz").unwrap().get(), 28_349);
    assert_eq!(Weight::from_str("2 ounces of cheese").unwrap().get(), 56_698);
    assert_eq!(Weight::from_str("3 lbs").unwrap().get(), 3 * 453_592);
}

#[test]
fn volume_aliases() {
    assert_eq!(Volume::from_str("1 ml").unwrap().get(), 1000);
    assert_eq!(Volume::from_str("1 millilitre").unwrap().get(), 1000);
    assert_eq!(Volume::from_str("1 cl").unwrap().get(), 10_000);
    assert_eq!(Volume::from_str("1 dl").unwrap().get(), 100_000);
    assert_eq!(Volume::from_str("2 Liters").unwrap().get(), 2_000_000);
    assert_eq!(Volume::from_str("1 tsp").unwrap().get(), 4928);
    assert_eq!(Volume::from_str("2 tbsps").unwrap().get(), 29_572);
    assert_eq!(Volume::from_str("1 floz").unwrap().get(), 29_573);
    assert_eq!(Volume::from_str("3 cups of milk").unwrap().get(), 3 * 236_588);
    assert_eq!(Volume::from_str("1 quart").unwrap().get(), 946_353);
}

#[test]
fn rice_cup_needs_cup() {
    assert_eq!(Volume::from_str("2 rice cups").unwrap().get(), 360_000);
    assert_eq!(Volume::from_str("2 rice"), Err(MeasurementError::UnknownUnit));
}

#[test]
fn tag_conversion_keeps_value() {
    let w = Weight::new_metric(12345);
    assert_eq!(w.as_imperial().as_metric().get(), 12345);
    assert_eq!(w.as_metric().as_imperial().get(), 12345);
    let v = Volume::new_imperial(678);
    assert_eq!(v.as_metric().as_imperial().get(), 678);
    assert_eq!(v.as_metric().get(), 678);
    let i: Weight<Imperial> = Weight::new_imperial(5);
    assert_eq!(i.get(), 5);
}

#[test]
fn weight_metric_display() {
    assert_eq!(Weight::new_metric(0).render(), "0 mg");
    assert_eq!(Weight::new_metric(999).render(), "999 mg");
    assert_eq!(Weight::new_metric(1000).render(), "1 g");
    assert_eq!(Weight::new_metric(999_999).render(), "999 g");
    assert_eq!(Weight::new_metric(1_000_000).render(), "1.0 kg");
    assert_eq!(Weight::new_metric(1_540_000).render(), "1.5 kg");
    assert_eq!(Weight::new_metric(1_560_000).render(), "1.6 kg");
    assert_eq!(Weight::new_metric(10_000_000).render(), "10 kg");
    assert_eq!(Weight::new_metric(u64::MAX).render(), "18446744073709 kg");
}

#[test]
fn weight_imperial_display() {
    let r = |n: u64| Weight::new_metric(n).as_imperial().render();
    assert_eq!(r(0), "0 oz");
    assert_eq!(r(249), "0 oz");
    assert_eq!(r(250), "1/8 tsp");
    assert_eq!(r(500), "1/4 tsp");
    assert_eq!(r(1000), "1/2 tsp");
    assert_eq!(r(2000), "1 tsp");
    assert_eq!(r(4000), "1/2 tbsp");
    assert_eq!(r(8000), "1 tbsp");
    assert_eq!(r(14_175), "0.5 oz");
    assert_eq!(r(28_349), "1.0 oz");
    assert_eq!(r(8 * 28_349), "0.5 g");
    assert_eq!(r(4 * 453_592), "4 g");
}

#[test]
fn volume_metric_display() {
    let r = |n: u64| Volume::new_metric(n).render();
    assert_eq!(r(0), "0 ml");
    assert_eq!(r(499), "0 ml");
    assert_eq!(r(500), "0 ml");
    assert_eq!(r(250_000), "250 ml");
    assert_eq!(r(500_000), "0.5 l");
    assert_eq!(r(4_990_000), "5.0 l");
    assert_eq!(r(5_000_000), "5 l");
}

#[test]
fn volume_imperial_display() {
    let r = |n: u64| Volume::new_metric(n).as_imperial().render();
    assert_eq!(r(0), "0 tsp");
    assert_eq!(r(328), "1/8 tsp");
    assert_eq!(r(739), "1/4 tsp");
    assert_eq!(r(1478), "1/2 tsp");
    assert_eq!(r(2956), "3/4 tsp");
    assert_eq!(r(4435), "1 tsp");
    assert_eq!(r(5913), "1/2 tbsp");
    assert_eq!(r(8871), "1 tbsp");
    assert_eq!(r(29_573), "1.0 floz");
    assert_eq!(r(236_588), "1.0 cups");
    assert_eq!(r(900_000), "1.0 quarts");
    assert_eq!(r(5 * 946_353), "5 quarts");
}

#[test]
fn exponent_amounts() {
    assert_eq!(Weight::from_str("1e3 g").unwrap().get(), 1_000_000);
    assert_eq!(Weight::from_str("2.5E-1 kg").unwrap().get(), 250_000);
    assert_eq!(Volume::from_str("1e+2 ml").unwrap().get(), 100_000);
    assert_eq!(Weight::from_str("15e-1 mg").unwrap().get(), 1);
    assert_eq!(Weight::from_str("1e-7 kg").unwrap().get(), 0);
    assert_eq!(Weight::from_str("123e-5 kg").unwrap().get(), 1230);
    assert_eq!(Weight::from_str("1e400 g").unwrap().get(), u64::MAX);
    assert_eq!(Weight::from_str("1e-400 g").unwrap().get(), 0);
    assert_eq!(
        Weight::from_str("1e999999999999999999999999999999999999 g").unwrap().get(),
        u64::MAX
    );
    assert_eq!(
        Weight::from_str("0e999999999999999999999999999999999999 g").unwrap().get(),
        0
    );
    assert_eq!(
        Weight::from_str("5e-999999999999999999999999999999999999 g").unwrap().get(),
        0
    );
}

#[test]
fn exponent_amount_with_unknown_unit() {
    assert_eq!(Weight::from_str("1e3 furlongs"), Err(MeasurementError::UnknownUnit));
    assert_eq!(Volume::from_str("1e3 furlongs"), Err(MeasurementError::UnknownUnit));
}

#[test]
fn malformed_exponents() {
    let bad = Err(MeasurementError::CustomString("invalid float literal".to_string()));
    assert_eq!(Weight::from_str("1e g"), bad);
    assert_eq!(Weight::from_str("1e+ g"), bad);
    assert_eq!(Weight::from_str("e5 g"), bad);
    assert_eq!(Weight::from_str("1e5.0 g"), bad);
}

#[test]
fn infinity_and_nan() {
    assert_eq!(Weight::from_str("inf g").unwrap().get(), u64::MAX);
    assert_eq!(Weight::from_str("Infinity g").unwrap().get(), u64::MAX);
    assert_eq!(Weight::from_str("-inf g").unwrap().get(), 0);
    assert_eq!(Weight::from_str("NaN g").unwrap().get(), 0);
    assert_eq!(Volume::from_str("nan furlongs"), Err(MeasurementError::UnknownUnit));
}
