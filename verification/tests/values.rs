use connector::clock::{day, time_of};
use connector::decimal::{get_precision, nearest_ticks, parse_decimal};
use connector::double::fixed_text;
use connector::json::Json;
use connector::live::{Instrument, StateValues};
use connector::table::{Table, TextSet};
use connector::text::{i64_text, join, nat_text, replace, split_after, starts_with};
use connector::types::{OrdType, Order, Side, Status, TimeInForce};

const UNIT: i128 = 1_000_000_000_000;

#[test]
fn decimals_are_read_in_units() {
    assert_eq!(parse_decimal("1"), Some(UNIT));
    assert_eq!(parse_decimal("0.00008000"), Some(80_000_000));
    assert_eq!(parse_decimal("-64685.01000000"), Some(-64_685_010_000_000_000));
    assert_eq!(parse_decimal("+2.5"), Some(5 * UNIT / 2));
    assert_eq!(parse_decimal(".5"), Some(UNIT / 2));
    assert_eq!(parse_decimal("5."), Some(5 * UNIT));
    assert_eq!(parse_decimal("0.000000000001"), Some(1));
    for s in ["", ".", "-", "inf", "NaN", "1.2.3", " 1", "0x1", "1,0", "1e", "e5", "1e1.5", "1ee5"] {
        assert_eq!(parse_decimal(s), None, "{s}");
    }
    assert_eq!(parse_decimal("1e3"), Some(1000 * UNIT));
    assert_eq!(parse_decimal("-12.5E-1"), Some(-5 * UNIT / 4));
    assert_eq!(parse_decimal("1e+2"), Some(100 * UNIT));
    assert_eq!(parse_decimal("0e99999999999999999999999999999999999999"), Some(0));
    assert_eq!(parse_decimal("1e99999999999999999999999999999999999999"), None);
    assert_eq!(parse_decimal("1e-99999999999999999999999999999999999999"), Some(0));
    // Beyond twelve digits the nearest unit counts, ties to the even one.
    assert_eq!(parse_decimal("0.0000000000001"), Some(0));
    assert_eq!(parse_decimal("0.0000000000005"), Some(0));
    assert_eq!(parse_decimal("0.00000000000050000000000000000001"), Some(1));
    assert_eq!(parse_decimal("0.0000000000015"), Some(2));
    assert_eq!(parse_decimal("0.33333333333333333333333333333333333"), Some(333_333_333_333));
    assert_eq!(parse_decimal("1000000000000000000000"), Some(1_000_000_000 * UNIT * UNIT));
    assert_eq!(parse_decimal("1000000000000000000000.000000000001"), None);
    assert_eq!(parse_decimal("1000000000000000000000.0000000000004"), Some(1_000_000_000 * UNIT * UNIT));
    assert_eq!(parse_decimal("99999999999999999999999999999999999999999e-30"), Some(100_000_000_000 * UNIT));
}

#[test]
fn decimals_are_written_with_fixed_digits() {
    assert_eq!(fixed_text(UNIT / 1000 * 8, 5), "0.00800");
    assert_eq!(fixed_text(64_685_010_000_000_000, 2), "64685.01");
    assert_eq!(fixed_text(64_685_010_000_000_000, 0), "64685");
    assert_eq!(fixed_text(-UNIT / 2, 1), "-0.5");
    // A tie that a double can hold goes to the even digit.
    assert_eq!(fixed_text(UNIT / 2, 0), "0");
    assert_eq!(fixed_text(3 * UNIT / 2, 0), "2");
    assert_eq!(fixed_text(5 * UNIT / 2, 0), "2");
    // The double nearest to 0.000025 is greater, that nearest to 1.005 is less.
    assert_eq!(fixed_text(25_000_000, 5), "0.00003");
    assert_eq!(fixed_text(1_005_000_000_000, 2), "1.00");
    assert_eq!(fixed_text(999_999_999_999, 3), "1.000");
    assert_eq!(fixed_text(1, 14), "0.00000000000100");
    assert_eq!(fixed_text(0, 3), "0.000");
    assert_eq!(fixed_text(-1, 3), "-0.000");
    // A double does not hold these digits.
    assert_eq!(fixed_text(9_007_199_254_740_993 * UNIT, 1), "9007199254740992.0");
}

#[test]
fn decimals_are_written_as_doubles_are() {
    let mut seed: u64 = 1;
    for _ in 0..4000 {
        seed = seed.wrapping_mul(6_364_136_223_846_793_005).wrapping_add(1_442_695_040_888_963_407);
        let high = (seed >> 17) as i128;
        seed = seed.wrapping_mul(6_364_136_223_846_793_005).wrapping_add(1_442_695_040_888_963_407);
        let x = high * ((seed >> 1) as i128) % (1_000_000_000 * UNIT * UNIT);
        for shift in [1, 1_000, 1_000_000, UNIT, UNIT * 1_000_000] {
            let units = x / shift;
            let text = format!("{}.{:012}", units / UNIT, units % UNIT);
            let double: f64 = text.parse().unwrap();
            for prec in [0usize, 1, 2, 5, 8, 12, 15, 25] {
                assert_eq!(fixed_text(units, prec), format!("{double:.prec$}"), "{text} {prec}");
            }
        }
    }
    // Ties of few digits.
    for n in 0..20_000i128 {
        let units = n * 5_000_000 + 5_000_000;
        let text = format!("-{}.{:012}", units / UNIT, units % UNIT);
        let double: f64 = text.parse().unwrap();
        for prec in [0usize, 1, 3, 5, 6] {
            assert_eq!(fixed_text(-units, prec), format!("{double:.prec$}"), "{text} {prec}");
        }
    }
}

#[test]
fn what_is_written_with_enough_digits_is_read_back() {
    for x in [0, 1, -1, UNIT, -64_685_010_000_000_000, 123_456_789_012_345, UNIT / 10] {
        assert_eq!(parse_decimal(&fixed_text(x, get_precision(x))), Some(x), "{x}");
    }
    for x in [0, 1, -1, UNIT, 123_456_789_012_345] {
        assert_eq!(parse_decimal(&fixed_text(x, 12)), Some(x), "{x}");
    }
}

#[test]
fn precisions_are_the_fewest_digits() {
    assert_eq!(get_precision(UNIT / 10), 1);
    assert_eq!(get_precision(UNIT), 0);
    assert_eq!(get_precision(UNIT / 100), 2);
    assert_eq!(get_precision(UNIT / 1000 * 25), 3);
    assert_eq!(get_precision(1), 12);
    assert_eq!(get_precision(0), 0);
}

#[test]
fn prices_are_rounded_to_ticks() {
    assert_eq!(nearest_ticks(64685 * UNIT, UNIT / 10), 646850);
    assert_eq!(nearest_ticks(UNIT / 2, UNIT), 1);
    assert_eq!(nearest_ticks(-UNIT / 2, UNIT), -1);
    assert_eq!(nearest_ticks(UNIT / 2 - 1, UNIT), 0);
    assert_eq!(nearest_ticks(1_000_000 * UNIT * UNIT, 1), i64::MAX);
    assert_eq!(nearest_ticks(-1_000_000 * UNIT * UNIT, 1), i64::MIN);
    assert_eq!(nearest_ticks(1, 0), i64::MAX);
    assert_eq!(nearest_ticks(0, 0), 0);
}

#[test]
fn texts_are_cut_and_joined() {
    assert_eq!(split_after("a@b@c", '@'), Some("b@c".to_string()));
    assert_eq!(split_after("abc", '@'), None);
    assert!(starts_with("abc", "ab") && starts_with("abc", "") && !starts_with("a", "ab"));
    assert_eq!(replace("$symbol@x$symbol", "$symbol", "b"), "b@xb");
    assert_eq!(replace("aaa", "aa", "b"), "ba");
    assert_eq!(join(&vec!["a".to_string(), "b".to_string()], ", "), "a, b");
    assert_eq!(join(&Vec::new(), ","), "");
    assert_eq!(nat_text(0), "0");
    assert_eq!(nat_text(u128::MAX), u128::MAX.to_string());
    assert_eq!(i64_text(i64::MIN), i64::MIN.to_string());
    assert_eq!(i64_text(-7), "-7");
}

#[test]
fn json_is_read_level_by_level() {
    let text = r#" {"a":1,"b":[null, true ,"x"],"c":-5,"d":1.5,"e":18446744073709551615,"a":2,"f":1e999,"g":false} "#;
    let j = Json::new(text).as_record().unwrap();
    assert_eq!(j.get_i64("a"), Some(2));
    assert_eq!(j.get_u64("c"), None);
    assert_eq!(j.get_i64("c"), Some(-5));
    assert_eq!(j.get_i64("d"), None);
    assert_eq!(j.get_u64("e"), Some(u64::MAX));
    assert_eq!(j.get_i64("e"), None);
    assert_eq!(j.get_i32("c"), Some(-5));
    assert_eq!(j.get_u32("e"), None);
    assert_eq!((j.get_flag("g"), j.get_flag("a")), (Some(false), None));
    let list = j.get_list("b").unwrap();
    assert_eq!(list[0].text, "null");
    assert_eq!(list[1].text, "true");
    assert_eq!(list[2].as_text(), Some("x".to_string()));
    assert!(j.is_absent("z"));
    assert_eq!(j.get_opt_text("z"), Some(None));
    assert_eq!(j.get_opt_text("a"), None);
    assert!(Json::new("{").as_record().is_none());
    assert!(Json::new("[]").as_record().is_none());
    assert!(Json::new("{}").as_list().is_none());
    // A number that no type holds is no fault where it is not read.
    assert_eq!(j.get("f").unwrap().text, "1e999");
    assert!(!Json::new(text).is_valid());
    assert!(Json::new("[1, {}]").is_valid());
    assert!(Json::new(r#""ab""#).is_plain() && !Json::new(r#""a\u0062""#).is_plain());
    assert_eq!(Json::new(r#""a\u0062""#).as_text(), Some("ab".to_string()));
}

#[test]
fn tables_hold_each_key_once() {
    let mut t: Table<u64> = Table::new();
    t.set("a", 1);
    t.set("b", 2);
    t.set("a", 3);
    assert_eq!(t.get("a"), Some(&3));
    assert_eq!(t.take("a"), Some(3));
    assert_eq!(t.take("a"), None);
    assert_eq!(t.get("b"), Some(&2));
    let mut s = TextSet::new();
    assert!(s.insert("x"));
    assert!(!s.insert("x"));
    assert!(s.insert("y"));
    assert_eq!(s.items().len(), 2);
    assert!(s.remove("x"));
    assert!(!s.remove("x"));
    assert_eq!(s.items(), vec!["y".to_string()]);
}

#[test]
fn readings_of_the_clock_are_held_to_what_fits() {
    assert_eq!(time_of(Some(-5)), -5);
    assert_eq!(time_of(Some(1_700_000_000_000_000_000)), 1_700_000_000_000_000_000);
    assert_eq!(time_of(None), i64::MAX);
}

#[test]
fn days_begin_at_midnight() {
    let length: i64 = 86_400_000_000_000;
    assert_eq!(day(0), 0);
    assert_eq!(day(length - 1), 0);
    assert_eq!(day(length), 1);
    assert_eq!(day(-1), -1);
    assert_eq!(day(-length), -1);
    assert_eq!(day(-length - 1), -2);
    assert_eq!(day(i64::MIN), i64::MIN.div_euclid(length));
}

#[test]
fn instruments_start_with_nothing_heard() {
    let i = Instrument::new("binance", "btcusdt", UNIT / 10, UNIT / 1000, 7u8, 100);
    assert_eq!((i.connector_name.as_str(), i.symbol.as_str()), ("binance", "btcusdt"));
    assert_eq!((i.tick_size, i.lot_size, i.depth), (UNIT / 10, UNIT / 1000, 7));
    assert!(i.last_trades.is_empty() && i.orders.is_empty());
    assert_eq!((i.last_feed_latency, i.last_order_latency, i.last_bbo), (None, None, None));
    assert_eq!(i.state, StateValues::default());
    assert_eq!(i.state.position, 0);
}

#[test]
fn orders_start_unfilled() {
    let o = Order::new(3, 25, UNIT / 2, 7, Side::Sell, OrdType::Market, TimeInForce::IOC);
    assert_eq!((o.qty, o.leaves_qty, o.status, o.req), (7, 7, Status::Unset, Status::Unset));
    assert_eq!(o.price(), 25 * UNIT / 2);
    assert!(!o.active());
    assert_eq!((o.side.as_ref(), o.order_type.as_ref(), o.time_in_force.as_ref()), ("SELL", "MARKET", "IOC"));
}
