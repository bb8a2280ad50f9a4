use trade_store::amount::{format_amount, parse_amount};
use trade_store::sorting::{insert_sorted, stable_sort, turned_round};
use trade_store::text::{format_i64, format_u64, parse_i32, parse_i64, parse_u32, same_text};
use trade_store::trade::{Timestamp, Trade, TradeType};

#[test]
fn reads_unsigned_numbers_as_the_standard_parser_does() {
    for text in ["0", "7", "+7", "007", "4294967295", "4294967296", "", "+", "-", "-0", "-5",
        " 5", "5 ", "5a", "1.5", "１２", "99999999999999999999999999"]
    {
        assert_eq!(parse_u32(text), text.parse::<u32>().ok(), "reading {:?}", text);
    }
    assert_eq!(parse_u32("4294967295"), Some(u32::MAX));
    assert_eq!(parse_u32("4294967296"), None);
    assert_eq!(parse_u32("+10"), Some(10));
    assert_eq!(parse_u32("-1"), None);
}

#[test]
fn reads_signed_numbers_as_the_standard_parser_does() {
    for text in ["0", "-0", "+0", "50", "-50", "+50", "9223372036854775807",
        "9223372036854775808", "-9223372036854775808", "-9223372036854775809", "", "+", "-",
        "--1", "+-1", "1e3", "1.0", "inf", "NaN", "0x10", "1_000"]
    {
        assert_eq!(parse_i64(text), text.parse::<i64>().ok(), "reading {:?}", text);
        assert_eq!(parse_i32(text), text.parse::<i32>().ok(), "reading {:?}", text);
    }
    assert_eq!(parse_i64("-9223372036854775808"), Some(i64::MIN));
    assert_eq!(parse_i64("9223372036854775807"), Some(i64::MAX));
    assert_eq!(parse_i32("2147483647"), Some(i32::MAX));
    assert_eq!(parse_i32("2147483648"), None);
    assert_eq!(parse_i32("-2147483648"), Some(i32::MIN));
    assert_eq!(parse_i32("-2147483649"), None);
}

#[test]
fn writes_numbers_in_base_ten() {
    assert_eq!(format_u64(0), "0");
    assert_eq!(format_u64(9), "9");
    assert_eq!(format_u64(10), "10");
    assert_eq!(format_u64(1234567890), "1234567890");
    assert_eq!(format_u64(u64::MAX), "18446744073709551615");
    assert_eq!(format_i64(0), "0");
    assert_eq!(format_i64(-1), "-1");
    assert_eq!(format_i64(50), "50");
    assert_eq!(format_i64(i64::MAX), "9223372036854775807");
    assert_eq!(format_i64(i64::MIN), "-9223372036854775808");
}

#[test]
fn what_is_written_is_read_back() {
    for v in [0i64, 1, -1, 10, -10, 99, 100, 12345, -98765, i64::MAX, i64::MIN] {
        assert_eq!(parse_i64(&format_i64(v)), Some(v));
    }
}

#[test]
fn texts_are_compared_by_their_characters() {
    assert!(same_text("buy", "buy"));
    assert!(!same_text("buy", "Buy"));
    assert!(!same_text("buy", "buy "));
    assert!(same_text("", ""));
}

#[test]
fn insert_goes_behind_equal_keys() {
    let mut sorted = vec![1, 3, 3, 8];
    insert_sorted(&mut sorted, 3);
    insert_sorted(&mut sorted, 0);
    insert_sorted(&mut sorted, 9);
    assert_eq!(sorted, vec![0, 1, 3, 3, 3, 8, 9]);
}

fn trade_at(secs: i64, nanos: u32, item: &str) -> Trade {
    Trade::at(
        TradeType::Buy,
        String::from(item),
        1,
        10,
        String::from("u"),
        Timestamp { secs, nanos },
    )
}

#[test]
fn sort_keeps_the_order_of_equal_keys() {
    let trades = vec![
        trade_at(20, 0, "c"),
        trade_at(10, 5, "a"),
        trade_at(20, 0, "d"),
        trade_at(10, 4, "b"),
        trade_at(-3, 999_999_999, "e"),
    ];
    let sorted = stable_sort(trades);
    let items: Vec<&str> = sorted.iter().map(|t| t.item.as_str()).collect();
    assert_eq!(items, vec!["e", "b", "a", "c", "d"]);
    assert_eq!(stable_sort(Vec::<i32>::new()), Vec::<i32>::new());
    assert_eq!(stable_sort(vec![3, 1, 2, 1]), vec![1, 1, 2, 3]);
}

#[test]
fn turning_round_puts_the_last_first() {
    assert_eq!(turned_round(vec![1, 2, 3]), vec![3, 2, 1]);
    assert_eq!(turned_round(vec!["only"]), vec!["only"]);
    assert_eq!(turned_round(Vec::<u8>::new()), Vec::<u8>::new());
}

#[test]
fn amounts_are_read_in_diamonds() {
    assert_eq!(parse_amount("50"), Some(50_000));
    assert_eq!(parse_amount("+50"), Some(50_000));
    assert_eq!(parse_amount("-50"), Some(-50_000));
    assert_eq!(parse_amount("0"), Some(0));
    assert_eq!(parse_amount("-0"), Some(0));
    assert_eq!(parse_amount("2.5"), Some(2_500));
    assert_eq!(parse_amount("2.50"), Some(2_500));
    assert_eq!(parse_amount("2.500"), Some(2_500));
    assert_eq!(parse_amount("0.001"), Some(1));
    assert_eq!(parse_amount("-0.25"), Some(-250));
    assert_eq!(parse_amount("007.070"), Some(7_070));
    assert_eq!(parse_amount("9223372036854775.807"), Some(i64::MAX));
    assert_eq!(parse_amount("-9223372036854775.808"), Some(i64::MIN));
}

#[test]
fn what_is_no_amount_is_not_read() {
    for text in ["", "+", "-", ".", "1.", ".5", "-.5", "1.2345", "1.2.3", "1,5", "1e3", "inf",
        "NaN", " 1", "1 ", "1.5x", "x1.5", "--1", "１", "1.５", "9223372036854775.808",
        "-9223372036854775.809", "9223372036854776", "99999999999999999999999"]
    {
        assert_eq!(parse_amount(text), None, "reading {:?}", text);
    }
}

#[test]
fn amounts_are_written_in_diamonds() {
    assert_eq!(format_amount(0), "0");
    assert_eq!(format_amount(1), "0.001");
    assert_eq!(format_amount(10), "0.01");
    assert_eq!(format_amount(100), "0.1");
    assert_eq!(format_amount(1_000), "1");
    assert_eq!(format_amount(2_500), "2.5");
    assert_eq!(format_amount(12_340), "12.34");
    assert_eq!(format_amount(12_345), "12.345");
    assert_eq!(format_amount(12_005), "12.005");
    assert_eq!(format_amount(-250), "-0.25");
    assert_eq!(format_amount(-50_000), "-50");
    assert_eq!(format_amount(i64::MAX), "9223372036854775.807");
    assert_eq!(format_amount(i64::MIN), "-9223372036854775.808");
}

#[test]
fn an_amount_that_is_written_is_read_back() {
    for v in [0i64, 1, 9, 10, 99, 100, 101, 999, 1_000, 1_001, 2_500, -1, -999, -1_000, -12_340,
        123_456_789, i64::MAX, i64::MIN]
    {
        assert_eq!(parse_amount(&format_amount(v)), Some(v), "amount {}", v);
    }
}
