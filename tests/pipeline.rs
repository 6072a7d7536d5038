use pos_orders::models::{default_settings, Customer, Order, OrderItem, Product};
use pos_orders::numbering::DateParts;
use pos_orders::pipeline::{items_unique, stock_lines};
use pos_orders::stock::clamp_sub;
use pos_orders::store::{no_required_fields, OrderRow, Store, StoreError};

const NOW: &str = "2024-06-01T10:00:00+00:00";

fn today() -> DateParts {
    DateParts { year: 2024, month: 6, day: 1 }
}

fn customer(id: &str, name: &str, phone: &str) -> Customer {
    Customer {
        id: id.to_string(),
        name: name.to_string(),
        phone: phone.to_string(),
        license_plate: String::new(),
        address: None,
        last_purchase_at: None,
        created_at: "t0".to_string(),
        updated_at: "t0".to_string(),
    }
}

fn item(product: &str, quantity: i64) -> OrderItem {
    OrderItem {
        id: product.to_string(),
        name: product.to_string(),
        unit: "pc".to_string(),
        price: 2500,
        quantity,
        category: String::new(),
        discount_price: None,
        remark: None,
        sort_value: 0,
    }
}

fn product(id: &str, stock: Option<i64>, track: Option<bool>) -> Product {
    Product {
        id: id.to_string(),
        name: id.to_string(),
        unit: "pc".to_string(),
        price: 2500,
        category_id: "cat".to_string(),
        pinyin: None,
        stock,
        min_stock: None,
        track_stock: track,
        created_at: "t0".to_string(),
        updated_at: "t0".to_string(),
    }
}

fn order(id: &str, number: &str, customer_id: &str, c: Customer, items: Vec<OrderItem>) -> Order {
    Order {
        id: id.to_string(),
        order_number: number.to_string(),
        date: "2024-06-01".to_string(),
        customer_id: customer_id.to_string(),
        customer: c,
        items,
        total_amount: 5000,
        remark: Some("r".to_string()),
        template_id: None,
        status: "done".to_string(),
        created_at: "2024-06-01T09:00:00+00:00".to_string(),
        updated_at: "old".to_string(),
    }
}

#[test]
fn clamp_sub_never_goes_below_zero() {
    assert_eq!(clamp_sub(10, 3), 7);
    assert_eq!(clamp_sub(3, 10), 0);
    assert_eq!(clamp_sub(-4, 0), 0);
    assert_eq!(clamp_sub(5, -2), 7);
    assert_eq!(clamp_sub(i64::MAX, -1), i64::MAX);
}

#[test]
fn stock_deduction_respects_tracking() {
    let mut st = Store::new();
    st.products.push(product("oil", Some(5), Some(true)));
    st.products.push(product("wax", Some(5), Some(false)));
    st.products.push(product("tyre", None, Some(true)));
    st.products.push(product("bulb", Some(5), None));
    let lines = vec![
        ("oil".to_string(), 3),
        ("oil".to_string(), 4),
        ("wax".to_string(), 100),
        ("tyre".to_string(), 1),
        ("bulb".to_string(), 1),
        ("missing".to_string(), 1),
    ];
    st.deduct_stock_batch(&lines, NOW);
    assert_eq!(st.products[0].stock, Some(0));
    assert_eq!(st.products[0].updated_at, NOW);
    assert_eq!(st.products[1].stock, Some(5));
    assert_eq!(st.products[1].updated_at, "t0");
    assert_eq!(st.products[2].stock, None);
    assert_eq!(st.products[3].stock, Some(5));
}

#[test]
fn single_deduction_takes_the_quantity() {
    let mut st = Store::new();
    st.products.push(product("oil", Some(10), Some(true)));
    st.deduct_stock("oil", 4, NOW);
    assert_eq!(st.products[0].stock, Some(6));
}

#[test]
fn new_order_is_numbered_stored_and_deducts_stock() {
    let mut st = Store::new();
    st.customers.push(customer("c1", "Li", "138"));
    st.products.push(product("oil", Some(10), Some(true)));
    st.products.push(product("wax", Some(10), Some(false)));
    let o = order("o1", "", "c1", customer("c1", "Li", "138"), vec![item("oil", 4), item("wax", 4)]);
    let number = st.save_order_at(o, NOW, &today()).unwrap();
    assert_eq!(number, "YYYYMMDD_000001");
    assert_eq!(st.orders.len(), 1);
    assert_eq!(st.orders[0].order_number, number);
    assert_eq!(st.orders[0].updated_at, NOW);
    assert_eq!(st.orders[0].items.len(), 2);
    assert_eq!(st.products[0].stock, Some(6));
    assert_eq!(st.products[1].stock, Some(10));
    let c = st.get_customer_by_id("c1").unwrap();
    assert_eq!(c.last_purchase_at, Some(NOW.to_string()));
}

#[test]
fn stored_settings_drive_the_number() {
    let mut st = Store::new();
    let mut s = default_settings("t");
    s.order_number_format = "{YYYY}{MM}{DD}-{SEQ:3}".to_string();
    st.save_settings(s, NOW);
    assert_eq!(st.get_settings().unwrap().id, "settings");
    let o1 = order("o1", "", "c1", customer("c1", "Li", ""), vec![]);
    let o2 = order("o2", "", "c1", customer("c1", "Li", ""), vec![]);
    assert_eq!(st.save_order_at(o1, NOW, &today()).unwrap(), "20240601-001");
    assert_eq!(st.save_order_at(o2, NOW, &today()).unwrap(), "20240601-002");
}

#[test]
fn client_number_is_kept() {
    let mut st = Store::new();
    let o = order("o1", "MY-7", "c1", customer("c1", "Li", ""), vec![]);
    assert_eq!(st.save_order_at(o, NOW, &today()).unwrap(), "MY-7");
    assert_eq!(st.customers.len(), 1);
}

#[test]
fn temporary_customer_becomes_order_snapshot() {
    let mut st = Store::new();
    st.customers.push(customer("c9", "Other", "138"));
    let o = order("o7", "N1", "temp_123", customer("temp_123", "Walk-in", "138"), vec![]);
    st.save_order_at(o, NOW, &today()).unwrap();
    assert_eq!(st.orders[0].customer_id, "order_customer_o7");
    let snap = st.get_customer_by_id("order_customer_o7").unwrap();
    assert_eq!(snap.name, "Walk-in");
    assert_eq!(snap.last_purchase_at, None);
    assert!(st.get_customer_by_id("temp_123").is_err());
    assert_eq!(st.get_all_customers().len(), 1);
    assert_eq!(st.get_customer_by_id("c9").unwrap().name, "Other");
}

#[test]
fn regular_customer_matching_by_phone_is_repointed() {
    let mut st = Store::new();
    st.customers.push(customer("c1", "Old", "138"));
    let o = order("o1", "N1", "c-new", customer("c-new", "", "138"), vec![]);
    st.save_order_at(o, NOW, &today()).unwrap();
    assert_eq!(st.orders[0].customer_id, "c1");
    assert_eq!(st.customers.len(), 1);
    let c = st.get_customer_by_id("c1").unwrap();
    assert_eq!(c.name, "Old");
    assert_eq!(c.last_purchase_at, Some(NOW.to_string()));
}

#[test]
fn duplicate_number_is_refused() {
    let mut st = Store::new();
    let o1 = order("o1", "N1", "c1", customer("c1", "Li", ""), vec![]);
    let o2 = order("o2", "N1", "c1", customer("c1", "Li", ""), vec![]);
    st.save_order_at(o1, NOW, &today()).unwrap();
    assert_eq!(st.save_order_at(o2, NOW, &today()), Err(StoreError::DuplicateOrderNumber));
    assert_eq!(st.orders.len(), 1);
}

#[test]
fn duplicate_line_is_refused() {
    let mut st = Store::new();
    st.products.push(product("oil", Some(10), Some(true)));
    let o = order("o1", "N1", "c1", customer("c1", "Li", ""), vec![item("oil", 1), item("oil", 2)]);
    assert_eq!(st.save_order_at(o, NOW, &today()), Err(StoreError::DuplicateItem));
    assert_eq!(st.orders.len(), 0);
    assert_eq!(st.products[0].stock, Some(10));
    assert_eq!(st.customers.len(), 1);
}

#[test]
fn resubmitted_order_updates_without_deducting() {
    let mut st = Store::new();
    st.products.push(product("oil", Some(10), Some(true)));
    let o1 = order("o1", "N1", "c1", customer("c1", "Li", ""), vec![item("oil", 3)]);
    st.save_order_at(o1, NOW, &today()).unwrap();
    let mut o2 = order("o1", "N1", "c1", customer("c1", "Li", ""), vec![item("oil", 5)]);
    o2.total_amount = 9999;
    st.save_order_at(o2, "later", &today()).unwrap();
    assert_eq!(st.orders.len(), 1);
    assert_eq!(st.orders[0].total_amount, 9999);
    assert_eq!(st.orders[0].items[0].quantity, 3);
    assert_eq!(st.orders[0].updated_at, "later");
    assert_eq!(st.products[0].stock, Some(7));
}

#[test]
fn orders_read_back_with_customer_and_lines() {
    let mut st = Store::new();
    let o = order("o1", "N1", "c1", customer("c1", "Li", ""), vec![item("oil", 3)]);
    st.save_order_at(o, NOW, &today()).unwrap();
    st.orders.push(OrderRow {
        id: "o2".to_string(),
        order_number: "N2".to_string(),
        date: String::new(),
        customer_id: "gone".to_string(),
        total_amount: 0,
        remark: None,
        template_id: None,
        status: String::new(),
        created_at: String::new(),
        updated_at: String::new(),
        items: vec![],
    });
    let all = st.get_all_orders();
    assert_eq!(all.len(), 2);
    assert_eq!(all[0].customer.name, "Li");
    assert_eq!(all[0].items[0].id, "oil");
    assert_eq!(all[1].customer.id, "");
}

#[test]
fn save_order_with_clock_keeps_client_number() {
    let mut st = Store::new();
    let o = order("o1", "N-5", "c1", customer("c1", "Li", ""), vec![]);
    assert_eq!(st.save_order(o).unwrap(), "N-5");
    assert!(st.customers[0].last_purchase_at.is_some());
}

#[test]
fn helpers_for_lines() {
    let items = vec![item("a", 2), item("b", 3)];
    assert!(items_unique(&items));
    assert!(!items_unique(&vec![item("a", 1), item("a", 1)]));
    let lines = stock_lines(&items);
    assert_eq!(lines, vec![("a".to_string(), 2), ("b".to_string(), 3)]);
}

#[test]
fn order_lines_read_back_by_position() {
    let mut st = Store::new();
    let mut a = item("oil", 1);
    a.sort_value = 30;
    let mut b = item("wax", 1);
    b.sort_value = 10;
    let mut c = item("tyre", 1);
    c.sort_value = 20;
    let o = order("o1", "N1", "c1", customer("c1", "Li", ""), vec![a, b, c]);
    st.save_order_at(o, NOW, &today()).unwrap();
    let all = st.get_all_orders();
    let ids: Vec<String> = all[0].items.iter().map(|i| i.id.clone()).collect();
    assert_eq!(ids, vec!["wax", "tyre", "oil"]);
}

#[test]
fn saved_settings_read_back_with_validation() {
    let mut st = Store::new();
    let mut s = default_settings("t");
    s.template_validation = None;
    st.save_settings(s, NOW);
    let got = st.get_settings().unwrap();
    assert_eq!(got.template_validation, Some(no_required_fields()));
    assert_eq!(got.updated_at, NOW);
    let mut flags = no_required_fields();
    flags.require_date = true;
    let mut s2 = default_settings("t");
    s2.template_validation = Some(flags);
    st.save_settings(s2, NOW);
    assert!(st.get_settings().unwrap().template_validation.unwrap().require_date);
}

#[test]
fn failed_submission_keeps_the_resolved_customer() {
    let mut st = Store::new();
    let o1 = order("o1", "N1", "c1", customer("c1", "Li", ""), vec![]);
    st.save_order_at(o1, NOW, &today()).unwrap();
    let o2 = order("o2", "N1", "temp_5", customer("temp_5", "Walk-in", ""), vec![]);
    assert_eq!(st.save_order(o2), Err(StoreError::DuplicateOrderNumber));
    assert!(st.get_customer_by_id("order_customer_o2").is_ok());
    assert_eq!(st.orders.len(), 1);
}

#[test]
fn snapshot_or_placeholder_customer_is_matched_by_phone() {
    let mut st = Store::new();
    st.customers.push(customer("c1", "Old", "138"));
    let o = order("o1", "N1", "order_customer_x", customer("order_customer_x", "New", "138"), vec![]);
    st.save_order_at(o, NOW, &today()).unwrap();
    assert_eq!(st.orders[0].customer_id, "c1");
    assert_eq!(st.get_customer_by_id("c1").unwrap().name, "New");
    assert!(st.get_customer_by_id("order_customer_x").is_err());
    let o2 = order("o2", "N2", "deleted_y", customer("deleted_y", "", "138"), vec![]);
    st.save_order_at(o2, NOW, &today()).unwrap();
    assert_eq!(st.orders[1].customer_id, "c1");
    assert_eq!(st.customers.len(), 1);
}

#[test]
fn temporary_customer_is_never_matched() {
    let mut st = Store::new();
    st.customers.push(customer("c1", "Old", "138"));
    let o = order("o1", "N1", "temp_1", customer("temp_1", "New", "138"), vec![]);
    st.save_order_at(o, NOW, &today()).unwrap();
    assert_eq!(st.orders[0].customer_id, "order_customer_o1");
    assert_eq!(st.get_customer_by_id("c1").unwrap().name, "Old");
}

#[test]
fn lines_read_back_without_category() {
    let mut st = Store::new();
    let mut a = item("oil", 2);
    a.category = "engine".to_string();
    let o = order("o1", "N1", "c1", customer("c1", "Li", ""), vec![a]);
    st.save_order_at(o, NOW, &today()).unwrap();
    let all = st.get_all_orders();
    assert_eq!(all[0].items[0].category, "");
    assert_eq!(all[0].items[0].quantity, 2);
    assert_eq!(all[0].items[0].name, "oil");
}

#[test]
fn clock_error_has_a_message() {
    assert_eq!(StoreError::ClockUnavailable.message(), "the system clock is not available");
}
