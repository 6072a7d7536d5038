//! The records the library works on. Money and quantities are held in
//! thousandths of a unit, so that they stay exact.
use vstd::prelude::*;

verus! {

pub fn copy_text(s: &Option<String>) -> (r: Option<String>)
    ensures
        r == *s,
{
    match s {
        Some(t) => Some(t.clone()),
        None => None,
    }
}

pub open spec fn opt_view(s: Option<String>) -> Option<Seq<char>> {
    match s {
        Some(t) => Some(t@),
        None => None,
    }
}

/// A product. `stock` is decremented only where `track_stock` is on.
#[derive(Clone, Debug)]
pub struct Product {
    pub id: String,
    pub name: String,
    pub unit: String,
    pub price: i64,
    pub category_id: String,
    pub pinyin: Option<String>,
    pub stock: Option<i64>,
    pub min_stock: Option<i64>,
    pub track_stock: Option<bool>,
    pub created_at: String,
    pub updated_at: String,
}

#[derive(Clone, Debug)]
pub struct Category {
    pub id: String,
    pub name: String,
    pub parent_id: Option<String>,
    pub level: i32,
    pub path: String,
    pub sort_order: i32,
    pub created_at: String,
    pub updated_at: String,
}

/// A customer row. The id's prefix tells its class (see `customer_kind`).
#[derive(Clone, Debug)]
pub struct Customer {
    pub id: String,
    pub name: String,
    pub phone: String,
    pub license_plate: String,
    pub address: Option<String>,
    pub last_purchase_at: Option<String>,
    pub created_at: String,
    pub updated_at: String,
}

impl Customer {
    pub fn copy(&self) -> (r: Customer)
        ensures
            r == *self,
    {
        Customer {
            id: self.id.clone(),
            name: self.name.clone(),
            phone: self.phone.clone(),
            license_plate: self.license_plate.clone(),
            address: copy_text(&self.address),
            last_purchase_at: copy_text(&self.last_purchase_at),
            created_at: self.created_at.clone(),
            updated_at: self.updated_at.clone(),
        }
    }

    /// A customer with every text empty and no id.
    pub fn blank() -> (r: Customer)
        ensures
            r.id@.len() == 0,
            r.name@.len() == 0,
            r.address is None,
            r.last_purchase_at is None,
    {
        Customer {
            id: String::new(),
            name: String::new(),
            phone: String::new(),
            license_plate: String::new(),
            address: None,
            last_purchase_at: None,
            created_at: String::new(),
            updated_at: String::new(),
        }
    }
}

/// One line of an order: a point-in-time copy of the product's data.
/// `id` is the product's id.
#[derive(Clone, Debug)]
pub struct OrderItem {
    pub id: String,
    pub name: String,
    pub unit: String,
    pub price: i64,
    pub quantity: i64,
    pub category: String,
    pub discount_price: Option<i64>,
    pub remark: Option<String>,
    pub sort_value: i64,
}

impl OrderItem {
    pub fn copy(&self) -> (r: OrderItem)
        ensures
            r == *self,
    {
        OrderItem {
            id: self.id.clone(),
            name: self.name.clone(),
            unit: self.unit.clone(),
            price: self.price,
            quantity: self.quantity,
            category: self.category.clone(),
            discount_price: self.discount_price,
            remark: copy_text(&self.remark),
            sort_value: self.sort_value,
        }
    }
}

/// An order as the client submits it and reads it back, with the customer
/// snapshot and the lines filled in.
#[derive(Clone, Debug)]
pub struct Order {
    pub id: String,
    pub order_number: String,
    pub date: String,
    pub customer_id: String,
    pub customer: Customer,
    pub items: Vec<OrderItem>,
    pub total_amount: i64,
    pub remark: Option<String>,
    pub template_id: Option<String>,
    pub status: String,
    pub created_at: String,
    pub updated_at: String,
}

#[derive(Clone, Debug)]
pub struct TemplateConfig {
    pub id: String,
    pub name: String,
    pub template_base64: String,
    pub file_name: String,
    pub filename_pattern: String,
    pub is_default: bool,
    pub mappings: TemplateMappings,
    pub required_fields: RequiredFields,
    pub created_at: String,
    pub updated_at: String,
}

#[derive(Clone, Copy, Debug, PartialEq, Eq, Structural)]
pub struct RequiredFields {
    pub require_customer_name: bool,
    pub require_customer_phone: bool,
    pub require_customer_plate: bool,
    pub require_date: bool,
    pub require_order_number: bool,
    pub require_order_remark: bool,
    pub require_total_amount: bool,
    pub require_item_name: bool,
    pub require_item_unit: bool,
    pub require_item_quantity: bool,
    pub require_item_price: bool,
    pub require_item_total: bool,
    pub require_item_remark: bool,
}

#[derive(Clone, Debug)]
pub struct TemplateMappings {
    pub customer_name: String,
    pub customer_phone: String,
    pub customer_plate: String,
    pub date: String,
    pub order_number: String,
    pub order_remark: String,
    pub total_amount: String,
    pub item_start_row: i32,
    pub item_end_row: i32,
    pub columns: TemplateColumns,
}

#[derive(Clone, Debug)]
pub struct TemplateColumns {
    pub name: String,
    pub unit: String,
    pub quantity: String,
    pub price: String,
    pub total: String,
    pub remark: String,
}

/// A preset remark; `preset_type` is `"item"` or `"order"`.
#[derive(Clone, Debug)]
pub struct RemarkPreset {
    pub id: String,
    pub content: String,
    pub preset_type: String,
    pub sort_order: i32,
    pub use_count: i32,
    pub created_at: String,
    pub updated_at: String,
}

#[derive(Clone, Debug)]
pub struct UnitPreset {
    pub id: String,
    pub name: String,
    pub sort_order: i32,
    pub use_count: i32,
    pub created_at: String,
    pub updated_at: String,
}

/// The settings row. The order-number fields drive the generator.
#[derive(Clone, Debug)]
pub struct AppSettings {
    pub id: String,
    pub data_directory: String,
    pub output_directory: String,
    pub backup_directory: String,
    pub font_size: i32,
    pub theme: String,
    pub remember_window: bool,
    pub date_format: String,
    pub excel_date_format: String,
    pub order_number_format: String,
    pub order_number_prefix: String,
    pub order_number_reset_daily: bool,
    pub order_number_digits: i32,
    pub retain_days: i32,
    pub auto_backup: bool,
    pub backup_interval: i32,
    pub backup_keep_count: i32,
    pub default_template_id: String,
    pub default_category_id: String,
    pub excel_filename_format: String,
    pub auto_open_excel: bool,
    pub skip_save_dialog: bool,
    pub template_validation: Option<RequiredFields>,
    pub updated_at: String,
}

/// The settings used while none are stored: pattern `YYYYMMDD_{SEQ:6}`,
/// six digits, daily reset.
pub fn default_settings(now: &str) -> (r: AppSettings)
    ensures
        r.id@ == "settings"@,
        r.order_number_format@ == "YYYYMMDD_{SEQ:6}"@,
        r.order_number_digits == 6,
        r.order_number_reset_daily,
        r.updated_at@ == now@,
{
    AppSettings {
        id: crate::text::owned("settings"),
        data_directory: String::new(),
        output_directory: String::new(),
        backup_directory: String::new(),
        font_size: 14,
        theme: crate::text::owned("light"),
        remember_window: true,
        date_format: crate::text::owned("YYYY-MM-DD"),
        excel_date_format: crate::text::owned("YYYY-MM-DD"),
        order_number_format: crate::text::owned("YYYYMMDD_{SEQ:6}"),
        order_number_prefix: String::new(),
        order_number_reset_daily: true,
        order_number_digits: 6,
        retain_days: 90,
        auto_backup: true,
        backup_interval: 24,
        backup_keep_count: 10,
        default_template_id: String::new(),
        default_category_id: String::new(),
        excel_filename_format: crate::text::owned("{date}_{customerName}_{orderNumber}"),
        auto_open_excel: false,
        skip_save_dialog: false,
        template_validation: None,
        updated_at: crate::text::owned(now),
    }
}

} // verus!
