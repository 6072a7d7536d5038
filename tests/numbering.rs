use pos_orders::models::{default_settings, AppSettings, Customer, Order};
use pos_orders::numbering::{
    expand_date_tokens, last_digit_run, locate_seq_token, next_sequence_value, number_with_prior,
    replace_each, DateParts,
};
use pos_orders::store::{OrderRow, Store};

fn day(year: i32, month: u32, day: u32) -> DateParts {
    DateParts { year, month, day }
}

fn settings(pattern: &str, digits: i32, reset_daily: bool) -> AppSettings {
    let mut s = default_settings("2024-01-01T00:00:00+00:00");
    s.order_number_format = pattern.to_string();
    s.order_number_digits = digits;
    s.order_number_reset_daily = reset_daily;
    s
}

fn row(id: &str, number: &str, date: &str, created_at: &str) -> OrderRow {
    OrderRow {
        id: id.to_string(),
        order_number: number.to_string(),
        date: date.to_string(),
        customer_id: "c1".to_string(),
        total_amount: 0,
        remark: None,
        template_id: None,
        status: "done".to_string(),
        created_at: created_at.to_string(),
        updated_at: created_at.to_string(),
        items: vec![],
    }
}

#[test]
fn date_tokens_are_replaced() {
    let d = day(2024, 3, 7);
    assert_eq!(expand_date_tokens("{YYYY}{MM}{DD}", &d), "20240307");
    assert_eq!(expand_date_tokens("{YY}-{M}-{D}", &d), "24-3-7");
    assert_eq!(expand_date_tokens("A{YYYY}_{SEQ:4}", &d), "A2024_{SEQ:4}");
    assert_eq!(expand_date_tokens("YYYYMMDD", &d), "YYYYMMDD");
    assert_eq!(expand_date_tokens("{M}{D}", &day(2024, 12, 31)), "1231");
}

#[test]
fn years_outside_four_digits_are_signed() {
    assert_eq!(expand_date_tokens("{YYYY}", &day(987, 1, 1)), "0987");
    assert_eq!(expand_date_tokens("{YYYY}", &day(12345, 1, 1)), "+12345");
    assert_eq!(expand_date_tokens("{YYYY}", &day(-5, 1, 1)), "-0005");
    assert_eq!(expand_date_tokens("{YY}", &day(2005, 1, 1)), "05");
}

#[test]
fn sequence_token_is_found() {
    assert_eq!(locate_seq_token("AB{SEQ}"), Some((2, 5, None)));
    assert_eq!(locate_seq_token("x{SEQ:12}y"), Some((1, 8, Some("12".to_string()))));
    assert_eq!(locate_seq_token("{SEQ:}{SEQ:a}"), None);
    assert_eq!(locate_seq_token("{SEQ:3"), None);
}

#[test]
fn last_digit_run_is_taken() {
    assert_eq!(last_digit_run("20240101_000005"), Some(5));
    assert_eq!(last_digit_run("A12B034"), Some(34));
    assert_eq!(last_digit_run("no digits"), None);
    assert_eq!(last_digit_run("7-99999999999"), Some(99999999999));
}

#[test]
fn legacy_number_continues_from_last_run() {
    assert_eq!(next_sequence_value(Some("A12B034")), 35);
    assert_eq!(next_sequence_value(Some("ABC")), 1);
    assert_eq!(next_sequence_value(None), 1);
    assert_eq!(next_sequence_value(Some("4294967295")), 4294967296);
}

#[test]
fn replace_each_replaces_every_occurrence() {
    assert_eq!(replace_each("{SEQ}-{SEQ}", "{SEQ}", "01"), "01-01");
    assert_eq!(replace_each("aaa", "aa", "b"), "ba");
}

#[test]
fn number_with_prior_pads_to_width() {
    let d = day(2024, 1, 1);
    assert_eq!(number_with_prior("{SEQ:6}", &d, 4, Some("20240101_000005")), "000006");
    assert_eq!(number_with_prior("{YYYY}{MM}{DD}_{SEQ}", &d, 3, None), "20240101_001");
    assert_eq!(number_with_prior("N{SEQ:2}", &d, 6, Some("N123")), "N124");
    assert_eq!(number_with_prior("{SEQ}", &d, -1, None), "1");
    assert_eq!(number_with_prior("FIXED", &d, 6, Some("9")), "FIXED");
}

#[test]
fn next_number_after_stored_order_same_day() {
    let mut st = Store::new();
    st.orders.push(row("o1", "20240101_000005", "2024-01-01", "2024-01-01T09:00:00+00:00"));
    let s = settings("{SEQ:6}", 6, true);
    assert_eq!(st.generate_order_number_on(&s, &day(2024, 1, 1)), "000006");
}

#[test]
fn daily_reset_ignores_other_days() {
    let mut st = Store::new();
    st.orders.push(row("o1", "20231231_000041", "2023-12-31", "2023-12-31T09:00:00+00:00"));
    let daily = settings("{YYYY}{MM}{DD}_{SEQ:6}", 6, true);
    let d = day(2024, 1, 1);
    let first = st.generate_order_number_on(&daily, &d);
    let second = st.generate_order_number_on(&daily, &d);
    assert_eq!(first, "20240101_000001");
    assert_eq!(second, "20240101_000001");
    let running = settings("{YYYY}{MM}{DD}_{SEQ:6}", 6, false);
    assert_eq!(st.generate_order_number_on(&running, &d), "20240101_000042");
}

#[test]
fn latest_order_is_by_creation_time() {
    let mut st = Store::new();
    st.orders.push(row("o1", "7", "2024-01-01", "2024-01-01T12:00:00+00:00"));
    st.orders.push(row("o2", "3", "2024-01-01", "2024-01-01T08:00:00+00:00"));
    assert_eq!(st.last_order_number(None), Some("7".to_string()));
    assert_eq!(st.last_order_number(Some("2024-01-02")), None);
    let s = settings("{SEQ:2}", 6, true);
    assert_eq!(st.generate_order_number_on(&s, &day(2024, 1, 1)), "08");
}

#[test]
fn default_settings_pattern_keeps_literal_letters() {
    let st = Store::new();
    let s = default_settings("t");
    assert_eq!(s.id, "settings");
    assert_eq!(st.generate_order_number_on(&s, &day(2024, 5, 6)), "YYYYMMDD_000001");
}

#[test]
fn generate_order_number_uses_the_clock() {
    let st = Store::new();
    let s = settings("{SEQ:3}", 6, true);
    assert_eq!(st.generate_order_number(&s, "1999-01-01").unwrap(), "001");
}

#[test]
fn blank_customer_and_order_helpers_exist() {
    let c = Customer::blank();
    let o = Order {
        id: "o".to_string(),
        order_number: String::new(),
        date: String::new(),
        customer_id: String::new(),
        customer: c,
        items: vec![],
        total_amount: 0,
        remark: None,
        template_id: None,
        status: String::new(),
        created_at: String::new(),
        updated_at: String::new(),
    };
    assert_eq!(o.customer.id, "");
}

#[test]
fn clock_date_fills_the_year_token() {
    let st = Store::new();
    let s = settings("{YYYY}-{SEQ:2}", 6, true);
    let n = st.generate_order_number(&s, "ignored").unwrap();
    assert_eq!(n.len(), 7);
    let year: i32 = n[..4].parse().unwrap();
    assert!(year >= 2024);
    assert!(n.ends_with("-01"));
}

#[test]
fn huge_last_run_is_held_at_the_u64_limit() {
    assert_eq!(last_digit_run("A-123456789012345678901234"), Some(u64::MAX));
    assert_eq!(next_sequence_value(Some("A-123456789012345678901234")), u64::MAX);
    assert_eq!(next_sequence_value(Some("18446744073709551614")), u64::MAX);
    assert_eq!(next_sequence_value(Some("1-4294967296")), 4294967297);
}
