use pos_store::{AggInvoiceRow, Invoice, InvoiceLine, Money, Product, Store};
use pos_store::mapper::invoice_from_row;

fn product(name: &str, barcode: &str, price_cents: i64, cost_cents: i64, stock: i64) -> Product {
    Product {
        id: 0,
        name: String::from(name),
        description: Some(String::from("desc")),
        barcode: String::from(barcode),
        price: Money::from_cents(price_cents),
        cost: Money::from_cents(cost_cents),
        stock,
        created_at: String::new(),
        updated_at: String::new(),
    }
}

fn line(name: &str, quantity: i64, price_cents: i64, product: Option<Product>) -> InvoiceLine {
    InvoiceLine {
        id: 0,
        name: String::from(name),
        quantity,
        price: Money::from_cents(price_cents),
        invoice: None,
        product,
        created_at: String::new(),
        updated_at: String::new(),
    }
}

#[test]
fn money_parts_round_trip() {
    let m = Money::from_parts(10, 10);
    assert_eq!(m.cents, 1010);
    assert_eq!(m.units(), 10);
    assert_eq!(m.hundredths(), 10);
    let n = Money::from_parts(19, 99);
    assert_eq!(n.cents, 1999);
}

#[test]
fn cost_of_ten_point_one_reads_back_exactly() {
    let mut st = Store::new(String::from("t0"));
    st.create_product(&product("Tea", "111", 2000, 1010, 4));
    let all = st.get_products();
    assert_eq!(all.len(), 1);
    assert_eq!(all[0].cost.cents, 1010);
    let as_decimal = (all[0].cost.cents as f64) / 100.0;
    assert_eq!(as_decimal, 10.1);
}

#[test]
fn product_write_then_read_round_trips() {
    let mut st = Store::new(String::from("t0"));
    st.create_product(&product("Coffee", "222", 1999, 1250, 7));
    let all = st.get_products();
    assert_eq!(all.len(), 1);
    assert_eq!(all[0].id, 1);
    assert_eq!(all[0].name, "Coffee");
    assert_eq!(all[0].description.as_deref(), Some("desc"));
    assert_eq!(all[0].barcode, "222");
    assert_eq!(all[0].price.cents, 1999);
    assert_eq!(all[0].cost.cents, 1250);
    assert_eq!(all[0].stock, 7);
    assert_eq!(all[0].created_at, "t0");
    assert_eq!(all[0].updated_at, "t0");
}

#[test]
fn create_product_ignores_given_id() {
    let mut st = Store::new(String::from("t0"));
    let mut p = product("A", "1", 100, 50, 1);
    p.id = 42;
    st.create_product(&p);
    st.create_product(&product("B", "2", 100, 50, 1));
    let all = st.get_products();
    assert_eq!(all[0].id, 1);
    assert_eq!(all[1].id, 2);
}

#[test]
fn empty_search_returns_up_to_25() {
    let mut st = Store::new(String::from("t0"));
    for k in 0..30 {
        st.create_product(&product(&format!("Item {}", k), &format!("b{}", k), 100, 50, 1));
    }
    let found = st.search("");
    assert_eq!(found.len(), 25);
    assert_eq!(found[0].name, "Item 0");
    assert_eq!(found[24].name, "Item 24");
}

#[test]
fn search_folds_ascii_case() {
    let mut st = Store::new(String::from("t0"));
    st.create_product(&product("Apple Juice", "333", 100, 50, 1));
    assert_eq!(st.search("apple").len(), 1);
    assert_eq!(st.search("APPLE").len(), 1);
    assert_eq!(st.search("juice").len(), 1);
    assert_eq!(st.search("pear").len(), 0);
}

#[test]
fn search_matches_exact_barcode() {
    let mut st = Store::new(String::from("t0"));
    st.create_product(&product("Soda", "778899", 100, 50, 1));
    let found = st.search("778899");
    assert_eq!(found.len(), 1);
    assert_eq!(found[0].name, "Soda");
    // a prefix of the barcode is not a name substring and not an exact match
    assert_eq!(st.search("7788").len(), 0);
}

#[test]
fn save_product_overwrites_all_mutable_fields() {
    let mut st = Store::new(String::from("t0"));
    st.create_product(&product("Old", "1", 100, 50, 1));
    st.set_now(String::from("t1"));
    let mut p = product("New", "9", 300, 150, 9);
    p.id = 1;
    p.description = None;
    st.save_product(&p);
    let all = st.get_products();
    assert_eq!(all.len(), 1);
    assert_eq!(all[0].id, 1);
    assert_eq!(all[0].name, "New");
    assert_eq!(all[0].description, None);
    assert_eq!(all[0].barcode, "9");
    assert_eq!(all[0].price.cents, 300);
    assert_eq!(all[0].cost.cents, 150);
    assert_eq!(all[0].stock, 9);
    assert_eq!(all[0].created_at, "t0");
}

#[test]
fn save_product_on_missing_id_changes_nothing() {
    let mut st = Store::new(String::from("t0"));
    st.create_product(&product("Only", "1", 100, 50, 1));
    let mut p = product("Ghost", "2", 300, 150, 9);
    p.id = 99;
    st.save_product(&p);
    let all = st.get_products();
    assert_eq!(all.len(), 1);
    assert_eq!(all[0].name, "Only");
    assert_eq!(all[0].barcode, "1");
}

#[test]
fn invoice_with_no_lines_lists_empty_collection() {
    let mut st = Store::new(String::from("t0"));
    let inv = Invoice {
        id: 0,
        total: Money::from_cents(500),
        lines: Some(Vec::new()),
        created_at: String::new(),
        updated_at: String::new(),
    };
    st.create_invoice(&inv);
    let all = st.get_invoices();
    assert_eq!(all.len(), 1);
    assert_eq!(all[0].id, 1);
    assert_eq!(all[0].total.cents, 500);
    let lines = all[0].lines.as_ref().expect("lines must be loaded");
    assert_eq!(lines.len(), 0);
}

#[test]
fn invoice_with_two_lines_decrements_stock_and_lists_both() {
    let mut st = Store::new(String::from("t0"));
    st.create_product(&product("Widget", "w1", 200, 100, 5));
    let stored = st.get_products().remove(0);
    let inv = Invoice {
        id: 0,
        total: Money::from_cents(350),
        lines: Some(vec![
            line("Widget", 2, 200, Some(stored)),
            line("Service fee", 1, 150, None),
        ]),
        created_at: String::new(),
        updated_at: String::new(),
    };
    st.create_invoice(&inv);
    let products = st.get_products();
    assert_eq!(products[0].stock, 3);
    let all = st.get_invoices();
    assert_eq!(all.len(), 1);
    assert_eq!(all[0].id, 1);
    assert_eq!(all[0].total.cents, 350);
    let lines = all[0].lines.as_ref().expect("lines must be loaded");
    assert_eq!(lines.len(), 2);
    assert_eq!(lines[0].name, "Widget");
    assert_eq!(lines[0].quantity, 2);
    assert_eq!(lines[0].price.cents, 200);
    let snap = lines[0].product.as_ref().expect("product snapshot");
    assert_eq!(snap.name, "Widget");
    assert_eq!(snap.stock, 3);
    assert_eq!(lines[1].name, "Service fee");
    assert!(lines[1].product.is_none());
}

#[test]
fn stock_may_go_negative_on_oversell() {
    let mut st = Store::new(String::from("t0"));
    st.create_product(&product("Scarce", "s1", 100, 50, 1));
    let stored = st.get_products().remove(0);
    let inv = Invoice {
        id: 0,
        total: Money::from_cents(500),
        lines: Some(vec![line("Scarce", 5, 100, Some(stored))]),
        created_at: String::new(),
        updated_at: String::new(),
    };
    st.create_invoice(&inv);
    assert_eq!(st.get_products()[0].stock, -4);
}

#[test]
fn names_with_quotes_and_backslashes_round_trip() {
    let mut st = Store::new(String::from("t0"));
    st.create_product(&product("He said \"hi\" \\ bye", "q1", 100, 50, 9));
    let stored = st.get_products().remove(0);
    let inv = Invoice {
        id: 0,
        total: Money::from_cents(100),
        lines: Some(vec![line("line \"x\" \\ y", 1, 100, Some(stored))]),
        created_at: String::new(),
        updated_at: String::new(),
    };
    st.create_invoice(&inv);
    let all = st.get_invoices();
    let lines = all[0].lines.as_ref().expect("lines must be loaded");
    assert_eq!(lines[0].name, "line \"x\" \\ y");
    let snap = lines[0].product.as_ref().expect("product snapshot");
    assert_eq!(snap.name, "He said \"hi\" \\ bye");
}

#[test]
fn malformed_lines_column_leaves_lines_absent() {
    let row = AggInvoiceRow {
        id: 7,
        total_cents: 1234,
        lines_json: String::from("not an aggregate"),
        created_at: String::from("c"),
        updated_at: String::from("u"),
    };
    let inv = invoice_from_row(&row);
    assert_eq!(inv.id, 7);
    assert_eq!(inv.total.cents, 1234);
    assert!(inv.lines.is_none());
    assert_eq!(inv.created_at, "c");
}

#[test]
fn clock_stamps_rows_at_insert_time() {
    let mut st = Store::new(String::from("t1"));
    st.create_product(&product("First", "1", 100, 50, 1));
    st.set_now(String::from("t2"));
    st.create_product(&product("Second", "2", 100, 50, 1));
    let all = st.get_products();
    assert_eq!(all[0].created_at, "t1");
    assert_eq!(all[1].created_at, "t2");
}

#[test]
fn search_on_empty_store_is_empty() {
    let st = Store::new(String::from("t0"));
    assert_eq!(st.search("anything").len(), 0);
    assert_eq!(st.search("").len(), 0);
}

#[test]
fn flat_line_listing_carries_invoice_and_product() {
    let mut st = Store::new(String::from("t0"));
    st.create_product(&product("Widget", "w1", 200, 100, 5));
    let stored = st.get_products().remove(0);
    let inv = Invoice {
        id: 0,
        total: Money::from_cents(550),
        lines: Some(vec![
            line("Widget", 2, 200, Some(stored)),
            line("Loose item", 1, 150, None),
        ]),
        created_at: String::new(),
        updated_at: String::new(),
    };
    st.create_invoice(&inv);
    let lines = st._get_invoice_lines();
    assert_eq!(lines.len(), 2);
    let parent = lines[0].invoice.as_ref().expect("parent invoice header");
    assert_eq!(parent.id, 1);
    assert_eq!(parent.total.cents, 550);
    let snap = lines[0].product.as_ref().expect("product snapshot");
    assert_eq!(snap.name, "Widget");
    assert!(lines[1].product.is_none());
    assert!(lines[1].invoice.is_some());
}

#[test]
fn malformed_nested_objects_leave_references_absent() {
    let row = pos_store::FlatLineRow {
        id: 3,
        name: String::from("loose"),
        quantity: 2,
        price_cents: 150,
        invoice_json: String::from("{broken"),
        product_json: String::from(""),
        created_at: String::from("c"),
        updated_at: String::from("u"),
    };
    let l = pos_store::mapper::line_from_row(&row);
    assert_eq!(l.id, 3);
    assert_eq!(l.name, "loose");
    assert_eq!(l.quantity, 2);
    assert_eq!(l.price.cents, 150);
    assert!(l.invoice.is_none());
    assert!(l.product.is_none());
}
