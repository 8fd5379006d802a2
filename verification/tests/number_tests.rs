use car_regulations::number::{nat_to_text, parse_whole, Decimal};
use car_regulations::specs::{parse_int, ImportError};

fn milli(thousandths: i64) -> Decimal {
    Decimal { units: thousandths as i128 * 1_000_000_000_000_000 }
}

#[test]
fn parse_int_drops_the_fraction() {
    assert_eq!(parse_int("1995"), Ok(1995));
    assert_eq!(parse_int(" 12.9 "), Ok(12));
    assert_eq!(parse_int("+7"), Ok(7));
    assert_eq!(parse_int(".5"), Ok(0));
    assert_eq!(parse_int("5."), Ok(5));
    assert_eq!(parse_int("007"), Ok(7));
}

#[test]
fn parse_int_reads_negative_numbers_as_zero() {
    assert_eq!(parse_int("-3"), Ok(0));
    assert_eq!(parse_int("-0.9"), Ok(0));
}

#[test]
fn parse_int_holds_large_numbers_at_the_largest_value() {
    assert_eq!(parse_int("99999999999999999999999999999999999999999"), Ok(usize::MAX));
    assert_eq!(parse_int("18446744073709551615"), Ok(18446744073709551615u64 as usize));
}

#[test]
fn parse_int_refuses_what_is_no_numeral() {
    for text in [
        "", " ", "abc", "1a", "1.2.3", "-", "+", ".", "--1", "1 2", "12 cyl", "e3", "1e", "1e+",
        "1e1.5", "1e1e1", ".e1", "in", "infinit", "nano", "+-1", "1_000", "0x10",
    ] {
        assert_eq!(parse_int(text), Err(ImportError::NotANumber(String::from(text))));
    }
}

#[test]
fn parse_int_reads_exponents() {
    assert_eq!(parse_int("1e3"), Ok(1000));
    assert_eq!(parse_int("1E3"), Ok(1000));
    assert_eq!(parse_int("1.5e3"), Ok(1500));
    assert_eq!(parse_int("12345e-2"), Ok(123));
    assert_eq!(parse_int("1.e+2"), Ok(100));
    assert_eq!(parse_int(".5e1"), Ok(5));
    assert_eq!(parse_int("199e-2"), Ok(1));
    assert_eq!(parse_int("9e-1"), Ok(0));
    assert_eq!(parse_int("1e-99999999999999999999999999999999"), Ok(0));
    assert_eq!(parse_int("0e99999999999999999999999999999999"), Ok(0));
    assert_eq!(parse_int("1e99999999999999999999999999999999"), Ok(usize::MAX));
    assert_eq!(parse_int("-1e3"), Ok(0));
    assert_eq!(parse_int(" 2e0 "), Ok(2));
}

#[test]
fn parse_int_reads_infinite_and_undefined_numbers() {
    assert_eq!(parse_int("inf"), Ok(usize::MAX));
    assert_eq!(parse_int("+Infinity"), Ok(usize::MAX));
    assert_eq!(parse_int("-inf"), Ok(0));
    assert_eq!(parse_int("-INFINITY"), Ok(0));
    assert_eq!(parse_int("nan"), Ok(0));
    assert_eq!(parse_int("NaN"), Ok(0));
    assert_eq!(parse_int("-nan"), Ok(0));
}

#[test]
fn parse_int_admits_what_a_float_parse_admits() {
    let texts = [
        "", " ", "0", "7", "-7", "+7", "1.5", "1.", ".5", ".", "1e3", "1E-3", "1e+3", "1e", "e1",
        "1e1.5", "inf", "Inf", "infinity", "iNfInItY", "infinit", "nan", "NAN", "+nan", "-inf",
        "--1", "+-1", "1 2", "abc", "1a", "12 cyl", "0x10", "1_0", "1.2.3", "1e1e1", ".e1",
        "1234567", "16777216", "4e9", "2.5e-1", "  42.9\t",
    ];
    for text in texts {
        let float = text.trim().parse::<f32>();
        let read = parse_int(text);
        assert_eq!(read.is_ok(), float.is_ok(), "{:?}", text);
        if let Ok(x) = float {
            assert_eq!(read, Ok(x as usize), "{:?}", text);
        }
    }
}

#[test]
fn parse_whole_holds_the_value_at_any_bounds() {
    assert_eq!(parse_whole("5", i128::MIN, i128::MAX), Some(5));
    assert_eq!(
        parse_whole("170141183460469231731687303715884105727", i128::MIN, i128::MAX),
        Some(i128::MAX)
    );
    assert_eq!(
        parse_whole("170141183460469231731687303715884105726", i128::MIN, i128::MAX),
        Some(i128::MAX - 1)
    );
    assert_eq!(
        parse_whole("-170141183460469231731687303715884105728", i128::MIN, i128::MAX),
        Some(i128::MIN)
    );
    assert_eq!(
        parse_whole("-170141183460469231731687303715884105727", i128::MIN, i128::MAX),
        Some(i128::MIN + 1)
    );
    assert_eq!(parse_whole("1e60", i128::MIN, i128::MAX), Some(i128::MAX));
    assert_eq!(parse_whole("-1e60", i128::MIN, i128::MAX), Some(i128::MIN));
    assert_eq!(parse_whole("17e37", i128::MIN, i128::MAX), Some(17 * 10i128.pow(37)));
    assert_eq!(parse_whole("1", 10, 20), Some(10));
    assert_eq!(parse_whole("nan", 10, 20), Some(10));
    assert_eq!(parse_whole("nan", -20, -10), Some(-10));
    assert_eq!(parse_whole("inf", -20, -10), Some(-10));
    assert_eq!(parse_whole("-inf", -20, -10), Some(-20));
}

#[test]
fn parse_whole_keeps_the_sign_and_the_bounds() {
    assert_eq!(parse_whole("-20.7", -100, 100), Some(-20));
    assert_eq!(parse_whole("20.7", -100, 100), Some(20));
    assert_eq!(parse_whole("-101", -100, 100), Some(-100));
    assert_eq!(parse_whole("5000", -100, 100), Some(100));
    assert_eq!(parse_whole("x", -100, 100), None);
}

#[test]
fn decimal_parse_keeps_eighteen_places() {
    assert_eq!(Decimal::parse("45.3"), Some(milli(45300)));
    assert_eq!(Decimal::parse(" 95 "), Some(milli(95000)));
    assert_eq!(Decimal::parse(".25"), Some(milli(250)));
    assert_eq!(Decimal::parse("-1.5"), Some(milli(-1500)));
    assert_eq!(
        Decimal::parse("45.29999924"),
        Some(Decimal { units: 45_299_999_240_000_000_000 })
    );
    assert_eq!(Decimal::parse("4.9996"), Some(Decimal { units: 4_999_600_000_000_000_000 }));
    assert_eq!(
        Decimal::parse("0.000000000000000001"),
        Some(Decimal { units: 1 })
    );
    assert_eq!(
        Decimal::parse("-0.123456789012345678"),
        Some(Decimal { units: -123_456_789_012_345_678 })
    );
}

#[test]
fn decimal_parse_rounds_on_the_nineteenth_place() {
    assert_eq!(Decimal::parse("0.0000000000000000004"), Some(Decimal { units: 0 }));
    assert_eq!(Decimal::parse("0.0000000000000000005"), Some(Decimal { units: 1 }));
    assert_eq!(Decimal::parse("-1.2345678901234567885"), Some(Decimal { units: -1_234_567_890_123_456_789 }));
    assert_eq!(Decimal::parse("-1.2345678901234567884"), Some(Decimal { units: -1_234_567_890_123_456_788 }));
    assert_eq!(Decimal::parse("0.99999999999999999951"), Some(milli(1000)));
}

#[test]
fn decimal_parse_reads_exponents_and_special_numbers() {
    assert_eq!(Decimal::parse("1e3"), Some(milli(1000000)));
    assert_eq!(Decimal::parse("4.53e1"), Some(milli(45300)));
    assert_eq!(Decimal::parse("45300e-3"), Some(milli(45300)));
    assert_eq!(Decimal::parse("1.5E-3"), Some(Decimal { units: 1_500_000_000_000_000 }));
    assert_eq!(Decimal::parse("-5e-18"), Some(Decimal { units: -5 }));
    assert_eq!(Decimal::parse("15e-19"), Some(Decimal { units: 2 }));
    assert_eq!(Decimal::parse("14e-19"), Some(Decimal { units: 1 }));
    assert_eq!(Decimal::parse("-5e-19"), Some(Decimal { units: -1 }));
    assert_eq!(Decimal::parse("4e-19"), Some(Decimal { units: 0 }));
    assert_eq!(Decimal::parse("5e-20"), Some(Decimal { units: 0 }));
    assert_eq!(Decimal::parse("1e-40"), Some(Decimal { units: 0 }));
    assert_eq!(Decimal::parse("1e40"), Some(Decimal { units: i128::MAX }));
    assert_eq!(Decimal::parse("inf"), Some(Decimal { units: i128::MAX }));
    assert_eq!(Decimal::parse("-Infinity"), Some(Decimal { units: i128::MIN }));
    assert_eq!(Decimal::parse("NaN"), Some(Decimal { units: 0 }));
    assert_eq!(Decimal::parse("1e"), None);
}

#[test]
fn decimal_parse_holds_the_range() {
    assert_eq!(
        Decimal::parse("999999999999999999999999999"),
        Some(Decimal { units: i128::MAX })
    );
    assert_eq!(
        Decimal::parse("-999999999999999999999999999"),
        Some(Decimal { units: i128::MIN })
    );
    assert_eq!(
        Decimal::parse("170141183460469231731.687303715884105727"),
        Some(Decimal { units: i128::MAX })
    );
    assert_eq!(
        Decimal::parse("170141183460469231731.687303715884105726"),
        Some(Decimal { units: i128::MAX - 1 })
    );
    assert_eq!(
        Decimal::parse("-170141183460469231731.687303715884105728"),
        Some(Decimal { units: i128::MIN })
    );
}

#[test]
fn decimal_parse_refuses_what_is_no_numeral() {
    assert_eq!(Decimal::parse("abc"), None);
    assert_eq!(Decimal::parse(""), None);
    assert_eq!(Decimal::parse("1,5"), None);
}

#[test]
fn decimal_text_is_the_shortest_writing() {
    assert_eq!(milli(95000).to_text(), "95");
    assert_eq!(milli(91500).to_text(), "91.5");
    assert_eq!(milli(91250).to_text(), "91.25");
    assert_eq!(milli(91205).to_text(), "91.205");
    assert_eq!(milli(5).to_text(), "0.005");
    assert_eq!(milli(0).to_text(), "0");
    assert_eq!(milli(-1500).to_text(), "-1.5");
    assert_eq!(milli(-1).to_text(), "-0.001");
    assert_eq!(Decimal { units: 1 }.to_text(), "0.000000000000000001");
    assert_eq!(Decimal { units: -10 }.to_text(), "-0.00000000000000001");
    assert_eq!(Decimal { units: 45_299_999_240_000_000_000 }.to_text(), "45.29999924");
    assert_eq!(
        Decimal { units: i128::MIN }.to_text(),
        "-170141183460469231731.687303715884105728"
    );
    assert_eq!(
        Decimal { units: i128::MAX }.to_text(),
        "170141183460469231731.687303715884105727"
    );
}

#[test]
fn decimal_text_agrees_with_the_float_it_stands_for() {
    for (thousandths, float) in [(95000i64, 95.0f32), (91500, 91.5), (250, 0.25), (-1500, -1.5)] {
        assert_eq!(milli(thousandths).to_text(), format!("{}", float));
    }
    for float in [45.3f32, 0.1, 12000.5, 8.1, 1.0e-7, 16777216.0, 0.333_333_34] {
        let text = format!("{}", float);
        assert_eq!(Decimal::parse(&text).unwrap().to_text(), text);
    }
}

#[test]
fn nat_text_writes_the_digits() {
    assert_eq!(nat_to_text(0), "0");
    assert_eq!(nat_to_text(9), "9");
    assert_eq!(nat_to_text(10), "10");
    assert_eq!(nat_to_text(1995), "1995");
    assert_eq!(nat_to_text(u128::MAX), format!("{}", u128::MAX));
}

#[test]
fn written_decimals_read_back() {
    for units in [0i128, 1, -1, 999, 1000, 45_300_000_000_000_000_000, -91_205, i128::MAX, i128::MIN] {
        let d = Decimal { units };
        assert_eq!(Decimal::parse(&d.to_text()), Some(d));
    }
}
