//! Domain objects handed across the operation boundary, with their
//! mathematical views.
//!
//! Money is carried as [`Money`] (integer cents); text as `String`. A line's
//! back-reference to its invoice carries only the invoice header, since a
//! nested invoice never comes with its own lines.

use vstd::prelude::*;
use crate::money::Money;

verus! {

/// A catalog product.
pub struct Product {
    pub id: i64,
    pub name: String,
    pub description: Option<String>,
    pub barcode: String,
    pub price: Money,
    pub cost: Money,
    pub stock: i64,
    pub created_at: String,
    pub updated_at: String,
}

/// An invoice without its lines: the shape a line's back-reference carries.
pub struct InvoiceHeader {
    pub id: i64,
    pub total: Money,
    pub created_at: String,
    pub updated_at: String,
}

/// One line of an invoice. `name` and `price` are snapshots taken at the
/// time of sale, independent of the product's current state; `product` is
/// absent when the line was not tied to a catalog product or the product
/// could not be decoded.
pub struct InvoiceLine {
    pub id: i64,
    pub name: String,
    pub quantity: i64,
    pub price: Money,
    pub invoice: Option<InvoiceHeader>,
    pub product: Option<Product>,
    pub created_at: String,
    pub updated_at: String,
}

/// An invoice. `lines` is `None` when the lines were not requested or the
/// encoded aggregate could not be decoded; a loaded invoice with no lines
/// has `Some` of an empty collection.
pub struct Invoice {
    pub id: i64,
    pub total: Money,
    pub lines: Option<Vec<InvoiceLine>>,
    pub created_at: String,
    pub updated_at: String,
}

/// Mathematical model of a [`Product`].
#[verifier::ext_equal]
pub ghost struct ProductV {
    pub id: int,
    pub name: Seq<char>,
    pub description: Option<Seq<char>>,
    pub barcode: Seq<char>,
    pub price_cents: int,
    pub cost_cents: int,
    pub stock: int,
    pub created_at: Seq<char>,
    pub updated_at: Seq<char>,
}

/// Mathematical model of an [`InvoiceHeader`].
#[verifier::ext_equal]
pub ghost struct InvoiceHeaderV {
    pub id: int,
    pub total_cents: int,
    pub created_at: Seq<char>,
    pub updated_at: Seq<char>,
}

/// Mathematical model of an [`InvoiceLine`].
#[verifier::ext_equal]
pub ghost struct InvoiceLineV {
    pub id: int,
    pub name: Seq<char>,
    pub quantity: int,
    pub price_cents: int,
    pub invoice: Option<InvoiceHeaderV>,
    pub product: Option<ProductV>,
    pub created_at: Seq<char>,
    pub updated_at: Seq<char>,
}

/// Mathematical model of an [`Invoice`].
#[verifier::ext_equal]
pub ghost struct InvoiceV {
    pub id: int,
    pub total_cents: int,
    pub lines: Option<Seq<InvoiceLineV>>,
    pub created_at: Seq<char>,
    pub updated_at: Seq<char>,
}

pub open spec fn opt_str_view(s: Option<String>) -> Option<Seq<char>> {
    match s {
        Some(t) => Some(t@),
        None => None,
    }
}

impl View for Product {
    type V = ProductV;

    open spec fn view(&self) -> ProductV {
        ProductV {
            id: self.id as int,
            name: self.name@,
            description: opt_str_view(self.description),
            barcode: self.barcode@,
            price_cents: self.price@,
            cost_cents: self.cost@,
            stock: self.stock as int,
            created_at: self.created_at@,
            updated_at: self.updated_at@,
        }
    }
}

impl View for InvoiceHeader {
    type V = InvoiceHeaderV;

    open spec fn view(&self) -> InvoiceHeaderV {
        InvoiceHeaderV {
            id: self.id as int,
            total_cents: self.total@,
            created_at: self.created_at@,
            updated_at: self.updated_at@,
        }
    }
}

impl View for InvoiceLine {
    type V = InvoiceLineV;

    open spec fn view(&self) -> InvoiceLineV {
        InvoiceLineV {
            id: self.id as int,
            name: self.name@,
            quantity: self.quantity as int,
            price_cents: self.price@,
            invoice: match self.invoice {
                Some(h) => Some(h@),
                None => None,
            },
            product: match self.product {
                Some(p) => Some(p@),
                None => None,
            },
            created_at: self.created_at@,
            updated_at: self.updated_at@,
        }
    }
}

impl View for Invoice {
    type V = InvoiceV;

    open spec fn view(&self) -> InvoiceV {
        InvoiceV {
            id: self.id as int,
            total_cents: self.total@,
            lines: match self.lines {
                Some(ls) => Some(Seq::new(ls@.len(), |k: int| ls@[k]@)),
                None => None,
            },
            created_at: self.created_at@,
            updated_at: self.updated_at@,
        }
    }
}

} // verus!
