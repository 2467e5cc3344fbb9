//! Stored row shapes: the relational side of the mapping.
//!
//! Money columns hold raw integer cents. The two joined query shapes carry
//! their nested aggregates as JSON text columns, exactly as the query layer
//! produces them.

use vstd::prelude::*;

verus! {

/// A row of the `products` table.
pub struct ProductRow {
    pub id: i64,
    pub name: String,
    pub description: Option<String>,
    pub barcode: String,
    pub price_cents: i64,
    pub cost_cents: i64,
    pub stock: i64,
    pub created_at: String,
    pub updated_at: String,
}

/// A row of the `invoices` table.
pub struct InvoiceRow {
    pub id: i64,
    pub total_cents: i64,
    pub created_at: String,
    pub updated_at: String,
}

/// A row of the `invoice_lines` table.
pub struct LineRow {
    pub id: i64,
    pub name: String,
    pub quantity: i64,
    pub price_cents: i64,
    pub product_id: Option<i64>,
    pub invoice_id: i64,
    pub created_at: String,
    pub updated_at: String,
}

/// A result row of the flat line query: plain line columns plus the parent
/// invoice and the product as JSON object columns.
pub struct FlatLineRow {
    pub id: i64,
    pub name: String,
    pub quantity: i64,
    pub price_cents: i64,
    pub invoice_json: String,
    pub product_json: String,
    pub created_at: String,
    pub updated_at: String,
}

/// A result row of the aggregating invoice query: plain invoice columns
/// plus the grouped lines as a JSON array column.
pub struct AggInvoiceRow {
    pub id: i64,
    pub total_cents: i64,
    pub lines_json: String,
    pub created_at: String,
    pub updated_at: String,
}

/// Mathematical model of a [`ProductRow`].
#[verifier::ext_equal]
pub ghost struct ProductRowV {
    pub id: int,
    pub name: Seq<char>,
    pub description: Option<Seq<char>>,
    pub barcode: Seq<char>,
    pub price_cents: int,
    pub cost_cents: int,
    pub stock: int,
    pub created_at: Seq<char>,
    pub updated_at: Seq<char>,
}

/// Mathematical model of an [`InvoiceRow`].
#[verifier::ext_equal]
pub ghost struct InvoiceRowV {
    pub id: int,
    pub total_cents: int,
    pub created_at: Seq<char>,
    pub updated_at: Seq<char>,
}

/// Mathematical model of a [`LineRow`].
#[verifier::ext_equal]
pub ghost struct LineRowV {
    pub id: int,
    pub name: Seq<char>,
    pub quantity: int,
    pub price_cents: int,
    pub product_id: Option<int>,
    pub invoice_id: int,
    pub created_at: Seq<char>,
    pub updated_at: Seq<char>,
}

/// Mathematical model of a [`FlatLineRow`].
#[verifier::ext_equal]
pub ghost struct FlatLineRowV {
    pub id: int,
    pub name: Seq<char>,
    pub quantity: int,
    pub price_cents: int,
    pub invoice_json: Seq<char>,
    pub product_json: Seq<char>,
    pub created_at: Seq<char>,
    pub updated_at: Seq<char>,
}

impl View for FlatLineRow {
    type V = FlatLineRowV;

    open spec fn view(&self) -> FlatLineRowV {
        FlatLineRowV {
            id: self.id as int,
            name: self.name@,
            quantity: self.quantity as int,
            price_cents: self.price_cents as int,
            invoice_json: self.invoice_json@,
            product_json: self.product_json@,
            created_at: self.created_at@,
            updated_at: self.updated_at@,
        }
    }
}

/// Mathematical model of an [`AggInvoiceRow`].
#[verifier::ext_equal]
pub ghost struct AggInvoiceRowV {
    pub id: int,
    pub total_cents: int,
    pub lines_json: Seq<char>,
    pub created_at: Seq<char>,
    pub updated_at: Seq<char>,
}

impl View for AggInvoiceRow {
    type V = AggInvoiceRowV;

    open spec fn view(&self) -> AggInvoiceRowV {
        AggInvoiceRowV {
            id: self.id as int,
            total_cents: self.total_cents as int,
            lines_json: self.lines_json@,
            created_at: self.created_at@,
            updated_at: self.updated_at@,
        }
    }
}

impl View for ProductRow {
    type V = ProductRowV;

    open spec fn view(&self) -> ProductRowV {
        ProductRowV {
            id: self.id as int,
            name: self.name@,
            description: crate::domain::opt_str_view(self.description),
            barcode: self.barcode@,
            price_cents: self.price_cents as int,
            cost_cents: self.cost_cents as int,
            stock: self.stock as int,
            created_at: self.created_at@,
            updated_at: self.updated_at@,
        }
    }
}

impl View for InvoiceRow {
    type V = InvoiceRowV;

    open spec fn view(&self) -> InvoiceRowV {
        InvoiceRowV {
            id: self.id as int,
            total_cents: self.total_cents as int,
            created_at: self.created_at@,
            updated_at: self.updated_at@,
        }
    }
}

impl View for LineRow {
    type V = LineRowV;

    open spec fn view(&self) -> LineRowV {
        LineRowV {
            id: self.id as int,
            name: self.name@,
            quantity: self.quantity as int,
            price_cents: self.price_cents as int,
            product_id: match self.product_id {
                Some(p) => Some(p as int),
                None => None,
            },
            invoice_id: self.invoice_id as int,
            created_at: self.created_at@,
            updated_at: self.updated_at@,
        }
    }
}

} // verus!
