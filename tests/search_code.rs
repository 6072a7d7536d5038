use pos_orders::models::Product;
use pos_orders::search_code::{generate_search_pinyin, search_code_from, to_ascii_lower};
use pos_orders::store::Store;

#[test]
fn chinese_name_gives_initials_and_full_pinyin() {
    assert_eq!(generate_search_pinyin("拼音"), "py pinyin");
    assert_eq!(generate_search_pinyin("机油 5W30"), "jy5w30 jiyou5w30");
}

#[test]
fn ascii_name_is_lowered() {
    assert_eq!(generate_search_pinyin("ABC-1"), "abc1 abc1");
}

#[test]
fn name_without_code_falls_back_to_lowercase() {
    assert_eq!(generate_search_pinyin("--ÄÖ"), "--äö");
    assert_eq!(generate_search_pinyin(""), "");
}

#[test]
fn code_from_given_readings() {
    let readings = vec![Some("ni".to_string()), None, Some("".to_string())];
    assert_eq!(search_code_from("你X?", &readings, "lower"), "nx nix");
    let none = vec![None];
    assert_eq!(search_code_from("?", &none, "?"), "?");
    assert_eq!(to_ascii_lower('Q'), 'q');
    assert_eq!(to_ascii_lower('7'), '7');
}

#[test]
fn refresh_updates_stale_codes_only() {
    let mut st = Store::new();
    let mk = |id: &str, name: &str, code: Option<&str>| Product {
        id: id.to_string(),
        name: name.to_string(),
        unit: "pc".to_string(),
        price: 0,
        category_id: String::new(),
        pinyin: code.map(|c| c.to_string()),
        stock: None,
        min_stock: None,
        track_stock: None,
        created_at: "t0".to_string(),
        updated_at: "t0".to_string(),
    };
    st.products.push(mk("a", "拼音", Some("PY PINYIN")));
    st.products.push(mk("b", "拼音", Some("old")));
    st.products.push(mk("c", "拼音", None));
    assert_eq!(st.batch_update_pinyin("now"), 2);
    assert_eq!(st.products[0].pinyin, Some("PY PINYIN".to_string()));
    assert_eq!(st.products[0].updated_at, "t0");
    assert_eq!(st.products[1].pinyin, Some("py pinyin".to_string()));
    assert_eq!(st.products[2].updated_at, "now");
}
