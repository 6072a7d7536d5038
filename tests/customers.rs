use pos_orders::customer_kind::{classify, CustomerKind};
use pos_orders::customers::{merge_incoming, merge_pair, overlay_text, prefer_text};
use pos_orders::models::Customer;
use pos_orders::store::{OrderRow, Store, StoreError};
use pos_orders::text::{blank, trim};

fn customer(id: &str, name: &str, phone: &str, plate: &str, updated_at: &str) -> Customer {
    Customer {
        id: id.to_string(),
        name: name.to_string(),
        phone: phone.to_string(),
        license_plate: plate.to_string(),
        address: None,
        last_purchase_at: None,
        created_at: "2024-01-01T00:00:00+00:00".to_string(),
        updated_at: updated_at.to_string(),
    }
}

fn order_of(id: &str, number: &str, customer_id: &str) -> OrderRow {
    OrderRow {
        id: id.to_string(),
        order_number: number.to_string(),
        date: "2024-01-01".to_string(),
        customer_id: customer_id.to_string(),
        total_amount: 1000,
        remark: None,
        template_id: None,
        status: "done".to_string(),
        created_at: "2024-01-01T00:00:00+00:00".to_string(),
        updated_at: "2024-01-01T00:00:00+00:00".to_string(),
        items: vec![],
    }
}

const NOW: &str = "2024-06-01T10:00:00+00:00";

#[test]
fn trim_and_blank_follow_str_trim() {
    assert_eq!(trim("  Wang \t"), "Wang");
    assert_eq!(trim("\u{3000}李\u{3000}"), "李");
    assert!(blank(" \n "));
    assert!(blank(""));
    assert!(!blank(" a "));
}

#[test]
fn overlay_prefers_non_blank_incoming() {
    assert_eq!(overlay_text("  New ", "Old"), "New");
    assert_eq!(overlay_text("   ", "Old"), "Old");
    assert_eq!(prefer_text(&" T ".to_string(), &"S".to_string()), " T ");
    assert_eq!(prefer_text(&" ".to_string(), &"S".to_string()), "S");
}

#[test]
fn classify_reads_the_prefix() {
    assert_eq!(classify("temp_1"), CustomerKind::Temporary);
    assert_eq!(classify("order_customer_9"), CustomerKind::OrderSnapshot);
    assert_eq!(classify("deleted_c1"), CustomerKind::DeletedPlaceholder);
    assert_eq!(classify("c1"), CustomerKind::Regular);
    assert_eq!(classify("temp"), CustomerKind::Regular);
}

#[test]
fn blank_incoming_name_keeps_existing_name() {
    let mut st = Store::new();
    st.customers.push(customer("c1", "Old", "138", "", "2024-01-01T00:00:00+00:00"));
    st.save_customer(customer("new-id", "", "138", "", NOW), NOW);
    assert_eq!(st.customers.len(), 1);
    let c = st.get_customer_by_id("c1").unwrap();
    assert_eq!(c.name, "Old");
    assert_eq!(c.phone, "138");
    assert_eq!(c.updated_at, NOW);
    assert!(st.get_customer_by_id("new-id").is_err());
}

#[test]
fn non_blank_incoming_name_replaces_existing_name() {
    let mut st = Store::new();
    st.customers.push(customer("c1", "Old", "138", "", "2024-01-01T00:00:00+00:00"));
    st.save_customer(customer("new-id", " Fresh ", "138", "", NOW), NOW);
    assert_eq!(st.get_customer_by_id("c1").unwrap().name, "Fresh");
}

#[test]
fn identity_match_by_plate_prefers_latest_update() {
    let mut st = Store::new();
    st.customers.push(customer("a", "A", "1", "JA-889", "2024-01-01T00:00:00+00:00"));
    st.customers.push(customer("b", "B", "2", "JA-889", "2024-03-01T00:00:00+00:00"));
    st.customers.push(customer("c", "C", "3", "JA-889", "2024-02-01T00:00:00+00:00"));
    assert_eq!(st.find_by_identity("", "JA-889"), Some(1));
    assert_eq!(st.find_by_identity("", ""), None);
    assert_eq!(st.find_by_identity("3", ""), Some(2));
}

#[test]
fn identity_match_skips_non_regular_rows() {
    let mut st = Store::new();
    st.customers.push(customer("order_customer_o1", "S", "138", "", NOW));
    st.customers.push(customer("deleted_x", "D", "138", "", NOW));
    assert_eq!(st.find_by_identity("138", ""), None);
}

#[test]
fn save_customer_without_match_inserts_or_updates() {
    let mut st = Store::new();
    st.save_customer(customer("c1", "Li", "", "", NOW), NOW);
    assert_eq!(st.customers.len(), 1);
    let mut again = customer("c1", "Li Lei", "", "", "later");
    again.last_purchase_at = Some("ignored".to_string());
    st.save_customer(again, NOW);
    let c = st.get_customer_by_id("c1").unwrap();
    assert_eq!(c.name, "Li Lei");
    assert_eq!(c.updated_at, "later");
    assert_eq!(c.last_purchase_at, None);
}

#[test]
fn merge_incoming_keeps_identity_fields() {
    let mut existing = customer("c1", "Old", "138", "JA-101", "t0");
    existing.last_purchase_at = Some("t-last".to_string());
    existing.address = Some("Road 1".to_string());
    let incoming = customer("x", "", " 139 ", "", "t9");
    let m = merge_incoming(&existing, &incoming, NOW);
    assert_eq!(m.id, "c1");
    assert_eq!(m.name, "Old");
    assert_eq!(m.phone, "139");
    assert_eq!(m.license_plate, "JA-101");
    assert_eq!(m.address, Some("Road 1".to_string()));
    assert_eq!(m.last_purchase_at, Some("t-last".to_string()));
    assert_eq!(m.updated_at, NOW);
}

#[test]
fn temporary_and_snapshot_rows_are_not_listed() {
    let mut st = Store::new();
    st.customers.push(customer("temp_1", "T", "138", "", NOW));
    st.customers.push(customer("order_customer_o1", "S", "138", "", NOW));
    st.customers.push(customer("deleted_c0", "D", "138", "", NOW));
    st.customers.push(customer("c1", "Real", "138", "", NOW));
    let all = st.get_all_customers();
    assert_eq!(all.len(), 1);
    assert_eq!(all[0].id, "c1");
    let found = st.search_customers("13");
    assert_eq!(found.len(), 1);
    assert_eq!(found[0].id, "c1");
}

#[test]
fn search_ignores_ascii_case() {
    let mut st = Store::new();
    st.customers.push(customer("c1", "Wang", "", "ab123", NOW));
    st.customers.push(customer("c2", "Zhao", "555", "", NOW));
    assert_eq!(st.search_customers("WAN").len(), 1);
    assert_eq!(st.search_customers("AB1")[0].id, "c1");
    assert_eq!(st.search_customers("").len(), 2);
    assert_eq!(st.search_customers("zz").len(), 0);
}

#[test]
fn deleting_a_customer_relinks_orders_to_placeholder() {
    let mut st = Store::new();
    st.customers.push(customer("c1", "Li", "138", "", NOW));
    st.customers.push(customer("c2", "Wang", "139", "", NOW));
    st.orders.push(order_of("o1", "N1", "c1"));
    st.orders.push(order_of("o2", "N2", "c1"));
    st.orders.push(order_of("o3", "N3", "c1"));
    st.orders.push(order_of("o4", "N4", "c2"));
    st.delete_customer("c1", NOW);
    for i in 0..3 {
        assert_eq!(st.orders[i].customer_id, "deleted_c1");
        assert_eq!(st.orders[i].updated_at, NOW);
    }
    assert_eq!(st.orders[3].customer_id, "c2");
    assert_eq!(st.get_customer_by_id("c1").err(), Some(StoreError::NotFound));
    let p = st.get_customer_by_id("deleted_c1").unwrap();
    assert_eq!(p.name, "已删除客户（历史保留）");
    assert_eq!(p.address, Some("原客户ID: c1".to_string()));
    assert_eq!(p.phone, "");
    assert!(st.get_all_customers().iter().all(|c| c.id == "c2"));
}

#[test]
fn deleting_twice_reuses_the_placeholder() {
    let mut st = Store::new();
    st.customers.push(customer("c1", "Li", "138", "", NOW));
    st.delete_customer("c1", "first");
    st.customers.push(customer("c1", "Li again", "", "", NOW));
    st.orders.push(order_of("o1", "N1", "c1"));
    st.delete_customer("c1", "second");
    assert_eq!(st.customers.len(), 1);
    assert_eq!(st.customers[0].created_at, "first");
    assert_eq!(st.orders[0].customer_id, "deleted_c1");
}

#[test]
fn batch_delete_removes_each_customer() {
    let mut st = Store::new();
    st.customers.push(customer("a", "A", "", "", NOW));
    st.customers.push(customer("b", "B", "", "", NOW));
    st.customers.push(customer("c", "C", "", "", NOW));
    st.orders.push(order_of("o1", "N1", "b"));
    st.batch_delete_customers(&vec!["a".to_string(), "b".to_string()], NOW);
    assert!(st.get_customer_by_id("a").is_err());
    assert!(st.get_customer_by_id("b").is_err());
    assert!(st.get_customer_by_id("c").is_ok());
    assert!(st.get_customer_by_id("deleted_a").is_ok());
    assert_eq!(st.orders[0].customer_id, "deleted_b");
}

#[test]
fn merging_a_customer_into_itself_fails() {
    let mut st = Store::new();
    st.customers.push(customer("x", "X", "", "", NOW));
    assert_eq!(st.merge_customers("x", "x", NOW), Err(StoreError::SameCustomer));
    assert_eq!(st.customers.len(), 1);
    assert_eq!(StoreError::SameCustomer.message(), "源客户和目标客户不能相同");
}

#[test]
fn merging_a_missing_customer_fails() {
    let mut st = Store::new();
    st.customers.push(customer("b", "B", "", "", NOW));
    assert_eq!(st.merge_customers("a", "b", NOW), Err(StoreError::NotFound));
    assert_eq!(st.merge_customers("b", "a", NOW), Err(StoreError::NotFound));
    assert_eq!(st.customers.len(), 1);
}

#[test]
fn merge_moves_orders_and_removes_source() {
    let mut st = Store::new();
    let mut a = customer("a", "Alpha", "100", "PA", NOW);
    a.address = Some("A street".to_string());
    a.last_purchase_at = Some("t-a".to_string());
    st.customers.push(a);
    st.customers.push(customer("b", " ", "200", "", "t-b"));
    st.orders.push(order_of("o1", "N1", "a"));
    st.orders.push(order_of("o2", "N2", "a"));
    st.orders.push(order_of("o3", "N3", "b"));
    assert_eq!(st.merge_customers("a", "b", NOW), Ok(()));
    assert!(st.get_customer_by_id("a").is_err());
    assert!(st.orders.iter().all(|o| o.customer_id == "b"));
    let b = st.get_customer_by_id("b").unwrap();
    assert_eq!(b.name, "Alpha");
    assert_eq!(b.phone, "200");
    assert_eq!(b.license_plate, "PA");
    assert_eq!(b.address, Some("A street".to_string()));
    assert_eq!(b.last_purchase_at, Some("t-a".to_string()));
    assert_eq!(b.updated_at, NOW);
}

#[test]
fn merge_pair_keeps_target_created_at() {
    let mut t = customer("t", "T", "", "", "x");
    t.created_at = "t-created".to_string();
    let s = customer("s", "S", "1", "", "y");
    let m = merge_pair(&t, &s, NOW);
    assert_eq!(m.id, "t");
    assert_eq!(m.name, "T");
    assert_eq!(m.phone, "1");
    assert_eq!(m.created_at, "t-created");
}

#[test]
fn touch_stamps_purchase_time() {
    let mut st = Store::new();
    st.customers.push(customer("c1", "Li", "", "", "old"));
    st.touch_customer("c1", NOW);
    assert_eq!(st.customers[0].last_purchase_at, Some(NOW.to_string()));
    assert_eq!(st.customers[0].updated_at, NOW);
    st.touch_customer("nobody", NOW);
    assert_eq!(st.customers.len(), 1);
}

#[test]
fn listings_are_ordered_by_name() {
    let mut st = Store::new();
    st.customers.push(customer("c1", "Zhou", "1380", "", NOW));
    st.customers.push(customer("temp_9", "Aaa", "1381", "", NOW));
    st.customers.push(customer("c2", "Li", "1382", "", NOW));
    st.customers.push(customer("c3", "Li", "1383", "", NOW));
    st.customers.push(customer("c4", "Chen", "999", "", NOW));
    let ids: Vec<String> = st.get_all_customers().into_iter().map(|c| c.id).collect();
    assert_eq!(ids, vec!["c4", "c2", "c3", "c1"]);
    let found: Vec<String> = st.search_customers("138").into_iter().map(|c| c.id).collect();
    assert_eq!(found, vec!["c2", "c3", "c1"]);
}

#[test]
fn error_messages_name_the_failure() {
    assert_eq!(StoreError::NotFound.message(), "no such record");
    assert_eq!(StoreError::DuplicateOrderNumber.message(), "order number already in use");
    assert_eq!(StoreError::DuplicateItem.message(), "an order lists the same product twice");
}
