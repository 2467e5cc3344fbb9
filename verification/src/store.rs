//! The store: the relational tables and the operation handlers over them.
//!
//! One value of [`Store`] stands for the whole database; the host owns it
//! behind its own exclusion discipline and passes `&mut` per operation, so
//! exclusivity is a contract of the handle rather than ambient state.
//! `now` is the server clock the host keeps current; inserts and updates
//! stamp rows with it.

use vstd::prelude::*;
use vstd::seq_lib::*;
use crate::domain::{InvoiceLine, InvoiceLineV, Product, ProductV};
use crate::domain::{Invoice, InvoiceV};
use crate::mapper::{enc_lines_array, invoice_from_row, join_view, join_views, joins_fit,
    line_join_fits, product_from_row, push_lines_array, spec_line_of_join, spec_product_of,
    LineJoin};
use crate::rows::AggInvoiceRow;
use crate::text::string_of;
use crate::money::Money;
use crate::rows::{InvoiceRow, InvoiceRowV, LineRow, LineRowV, ProductRow, ProductRowV};
use crate::text::{chars_of, contains_ci, contains_ci_x, eq_chars};

verus! {

/// The verified data layer: three tables, the id counters the store
/// generates surrogate keys from, and the server clock.
pub struct Store {
    pub products: Vec<ProductRow>,
    pub invoices: Vec<InvoiceRow>,
    pub lines: Vec<LineRow>,
    pub next_product_id: i64,
    pub next_invoice_id: i64,
    pub next_line_id: i64,
    pub now: String,
}

/// Mathematical model of a [`Store`].
#[verifier::ext_equal]
pub ghost struct StoreV {
    pub products: Seq<ProductRowV>,
    pub invoices: Seq<InvoiceRowV>,
    pub lines: Seq<LineRowV>,
    pub next_product_id: int,
    pub next_invoice_id: int,
    pub next_line_id: int,
    pub now: Seq<char>,
}

impl View for Store {
    type V = StoreV;

    open spec fn view(&self) -> StoreV {
        StoreV {
            products: self.products@.map_values(|r: ProductRow| r@),
            invoices: self.invoices@.map_values(|r: InvoiceRow| r@),
            lines: self.lines@.map_values(|r: LineRow| r@),
            next_product_id: self.next_product_id as int,
            next_invoice_id: self.next_invoice_id as int,
            next_line_id: self.next_line_id as int,
            now: self.now@,
        }
    }
}

/// The views of a vector of result products.
pub open spec fn product_views(v: Seq<Product>) -> Seq<ProductV> {
    v.map_values(|p: Product| p@)
}

/// A product row matches a search when its name contains the query as a
/// substring under the store collation's ASCII case folding, or its
/// barcode equals the query exactly.
pub open spec fn row_matches(r: ProductRowV, q: Seq<char>) -> bool {
    contains_ci(r.name, q) || r.barcode == q
}

/// The row a newly created product is stored as: the given id and the
/// server clock, every other field taken from the domain object (the
/// object's own id is ignored).
pub open spec fn product_row_of(p: ProductV, id: int, now: Seq<char>) -> ProductRowV {
    ProductRowV {
        id: id,
        name: p.name,
        description: p.description,
        barcode: p.barcode,
        price_cents: p.price_cents,
        cost_cents: p.cost_cents,
        stock: p.stock,
        created_at: now,
        updated_at: now,
    }
}

/// The row a full-row product update leaves behind: every mutable field
/// overwritten unconditionally, key and timestamps kept.
pub open spec fn saved_product_row(old_row: ProductRowV, p: ProductV) -> ProductRowV {
    ProductRowV {
        id: old_row.id,
        name: p.name,
        description: p.description,
        barcode: p.barcode,
        price_cents: p.price_cents,
        cost_cents: p.cost_cents,
        stock: p.stock,
        created_at: old_row.created_at,
        updated_at: old_row.updated_at,
    }
}

/// The row a new invoice line is stored as.
pub open spec fn line_row_of(l: InvoiceLineV, id: int, invoice_id: int, now: Seq<char>) -> LineRowV {
    LineRowV {
        id: id,
        name: l.name,
        quantity: l.quantity,
        price_cents: l.price_cents,
        product_id: (match l.product {
            Some(p) => Some(p.id),
            None => None,
        }),
        invoice_id: invoice_id,
        created_at: now,
        updated_at: now,
    }
}

/// One stock decrement: the rows whose id is `pid` lose `qty` from their
/// stock where that stays in range; a decrement that would overflow the
/// stored integer fails and is skipped, leaving the row unchanged, as a
/// failed per-line update is. Stock may go negative: there is no oversell
/// guard.
pub open spec fn dec_stock(ps: Seq<ProductRowV>, pid: int, qty: int) -> Seq<ProductRowV> {
    ps.map_values(
        |r: ProductRowV|
            if r.id == pid && i64::MIN as int <= r.stock - qty <= i64::MAX as int {
                ProductRowV { stock: r.stock - qty, ..r }
            } else {
                r
            },
    )
}

/// The products table after the stock decrements of the given lines, in
/// order: each line that references a product decrements that product's
/// stock by the line's quantity.
pub open spec fn apply_stock(ps: Seq<ProductRowV>, lines: Seq<InvoiceLineV>) -> Seq<ProductRowV>
    decreases lines.len(),
{
    if lines.len() == 0 {
        ps
    } else {
        let rest = apply_stock(ps, lines.drop_last());
        match lines.last().product {
            Some(p) => dec_stock(rest, p.id, lines.last().quantity),
            None => rest,
        }
    }
}

/// Stock decrements keep the table's length and every id in place.
pub proof fn lemma_dec_stock_shape(ps: Seq<ProductRowV>, pid: int, qty: int)
    ensures
        dec_stock(ps, pid, qty).len() == ps.len(),
        forall|k: int|
            0 <= k < ps.len() ==> (#[trigger] dec_stock(ps, pid, qty)[k]).id == ps[k].id,
{
}

/// Applying any sequence of lines keeps the table's length and every id
/// in place.
pub proof fn lemma_apply_stock_shape(ps: Seq<ProductRowV>, lines: Seq<InvoiceLineV>)
    ensures
        apply_stock(ps, lines).len() == ps.len(),
        forall|k: int|
            0 <= k < ps.len() ==> (#[trigger] apply_stock(ps, lines)[k]).id == ps[k].id,
    decreases lines.len(),
{
    if lines.len() == 0 {
    } else {
        lemma_apply_stock_shape(ps, lines.drop_last());
        let rest = apply_stock(ps, lines.drop_last());
        match lines.last().product {
            Some(p) => {
                lemma_dec_stock_shape(rest, p.id, lines.last().quantity);
            },
            None => {},
        }
    }
}

/// The products table is well formed: ids increase with position and
/// stay below the id counter.
pub open spec fn products_table_wf(rows: Seq<ProductRowV>, next: int) -> bool {
    &&& 1 <= next
    &&& forall|k: int| 0 <= k < rows.len() ==> 1 <= (#[trigger] rows[k]).id < next
    &&& forall|j: int, k: int|
        0 <= j < k < rows.len() ==> (#[trigger] rows[j]).id < (#[trigger] rows[k]).id
}

/// The invoices table is well formed, in the same sense.
pub open spec fn invoices_table_wf(rows: Seq<InvoiceRowV>, next: int) -> bool {
    &&& 1 <= next
    &&& forall|k: int| 0 <= k < rows.len() ==> 1 <= (#[trigger] rows[k]).id < next
    &&& forall|j: int, k: int|
        0 <= j < k < rows.len() ==> (#[trigger] rows[j]).id < (#[trigger] rows[k]).id
}

/// The lines table is well formed, in the same sense.
pub open spec fn lines_table_wf(rows: Seq<LineRowV>, next: int) -> bool {
    &&& 1 <= next
    &&& forall|k: int| 0 <= k < rows.len() ==> 1 <= (#[trigger] rows[k]).id < next
    &&& forall|j: int, k: int|
        0 <= j < k < rows.len() ==> (#[trigger] rows[j]).id < (#[trigger] rows[k]).id
}

/// Appending a row that takes the next id keeps the products table well
/// formed.
pub proof fn lemma_products_wf_push(rows: Seq<ProductRowV>, next: int, row: ProductRowV)
    requires
        products_table_wf(rows, next),
        row.id == next,
    ensures
        products_table_wf(rows.push(row), next + 1),
{
    let r2 = rows.push(row);
    assert forall|k: int| 0 <= k < r2.len() implies 1 <= (#[trigger] r2[k]).id < next + 1 by {
        if k < rows.len() {
            assert(r2[k] == rows[k]);
        }
    };
    assert forall|j: int, k: int| 0 <= j < k < r2.len() implies (#[trigger] r2[j]).id < (
    #[trigger] r2[k]).id by {
        assert(r2[j] == rows[j]);
        if k < rows.len() {
            assert(r2[k] == rows[k]);
        }
    };
}

/// Appending a row that takes the next id keeps the invoices table well
/// formed.
pub proof fn lemma_invoices_wf_push(rows: Seq<InvoiceRowV>, next: int, row: InvoiceRowV)
    requires
        invoices_table_wf(rows, next),
        row.id == next,
    ensures
        invoices_table_wf(rows.push(row), next + 1),
{
    let r2 = rows.push(row);
    assert forall|k: int| 0 <= k < r2.len() implies 1 <= (#[trigger] r2[k]).id < next + 1 by {
        if k < rows.len() {
            assert(r2[k] == rows[k]);
        }
    };
    assert forall|j: int, k: int| 0 <= j < k < r2.len() implies (#[trigger] r2[j]).id < (
    #[trigger] r2[k]).id by {
        assert(r2[j] == rows[j]);
        if k < rows.len() {
            assert(r2[k] == rows[k]);
        }
    };
}

/// Appending a row that takes the next id keeps the lines table well
/// formed.
pub proof fn lemma_lines_wf_push(rows: Seq<LineRowV>, next: int, row: LineRowV)
    requires
        lines_table_wf(rows, next),
        row.id == next,
    ensures
        lines_table_wf(rows.push(row), next + 1),
{
    let r2 = rows.push(row);
    assert forall|k: int| 0 <= k < r2.len() implies 1 <= (#[trigger] r2[k]).id < next + 1 by {
        if k < rows.len() {
            assert(r2[k] == rows[k]);
        }
    };
    assert forall|j: int, k: int| 0 <= j < k < r2.len() implies (#[trigger] r2[j]).id < (
    #[trigger] r2[k]).id by {
        assert(r2[j] == rows[j]);
        if k < rows.len() {
            assert(r2[k] == rows[k]);
        }
    };
}

/// Replacing a row by one with the same id keeps the products table well
/// formed.
pub proof fn lemma_products_wf_update(rows: Seq<ProductRowV>, next: int, i: int, row: ProductRowV)
    requires
        products_table_wf(rows, next),
        0 <= i < rows.len(),
        row.id == rows[i].id,
    ensures
        products_table_wf(rows.update(i, row), next),
{
    let r2 = rows.update(i, row);
    assert forall|k: int| 0 <= k < r2.len() implies 1 <= (#[trigger] r2[k]).id < next by {
        assert((r2[k]).id == (rows[k]).id);
    };
    assert forall|j: int, k: int| 0 <= j < k < r2.len() implies (#[trigger] r2[j]).id < (
    #[trigger] r2[k]).id by {
        assert((r2[j]).id == (rows[j]).id);
        assert((r2[k]).id == (rows[k]).id);
    };
}

/// A table whose rows keep their ids pointwise stays well formed.
pub proof fn lemma_products_wf_same_ids(a: Seq<ProductRowV>, b: Seq<ProductRowV>, next: int)
    requires
        products_table_wf(a, next),
        b.len() == a.len(),
        forall|k: int| 0 <= k < a.len() ==> (#[trigger] b[k]).id == a[k].id,
    ensures
        products_table_wf(b, next),
{
    assert forall|j: int, k: int| 0 <= j < k < b.len() implies (#[trigger] b[j]).id < (
    #[trigger] b[k]).id by {
        assert(b[j].id == a[j].id);
        assert(b[k].id == a[k].id);
    };
}

/// Applies one stock decrement to the raw rows: every row with the given
/// id loses `qty` from its stock where the result is storable; otherwise
/// the row stays as it was (the failed update is skipped).
fn dec_stock_rows(ps: &mut Vec<ProductRow>, pid: i64, qty: i64)
    ensures
        final(ps)@.map_values(|r: ProductRow| r@) == dec_stock(
            old(ps)@.map_values(|r: ProductRow| r@),
            pid as int,
            qty as int,
        ),
{
    let ghost orig = old(ps)@.map_values(|r: ProductRow| r@);
    let n = ps.len();
    let mut k: usize = 0;
    while k < n
        invariant
            n == ps.len(),
            k <= n,
            orig == old(ps)@.map_values(|r: ProductRow| r@),
            orig.len() == n,
            forall|t: int| 0 <= t < k ==> (#[trigger] ps@[t])@ == dec_stock(orig, pid as int, qty as int)[t],
            forall|t: int| k <= t < n ==> (#[trigger] ps@[t]) == old(ps)@[t],
        decreases n - k,
    {
        proof {
            assert(ps@[k as int]@ == orig[k as int]);
        }
        if ps[k].id == pid {
            let s = ps[k].stock;
            match s.checked_sub(qty) {
                Some(ns) => {
                    let row = ProductRow {
                        id: ps[k].id,
                        name: ps[k].name.clone(),
                        description: crate::text::clone_opt_string(&ps[k].description),
                        barcode: ps[k].barcode.clone(),
                        price_cents: ps[k].price_cents,
                        cost_cents: ps[k].cost_cents,
                        stock: ns,
                        created_at: ps[k].created_at.clone(),
                        updated_at: ps[k].updated_at.clone(),
                    };
                    ps.set(k, row);
                },
                None => {},
            }
        }
        k = k + 1;
    }
    proof {
        assert(final(ps)@.map_values(|r: ProductRow| r@) =~~= dec_stock(
            orig,
            pid as int,
            qty as int,
        ));
    }
}

/// The first product row with the given id, if the line references one.
pub open spec fn spec_find_product(ps: Seq<ProductRowV>, pid: Option<int>) -> Option<ProductRowV>
    decreases ps.len(),
{
    match pid {
        None => None,
        Some(id) => if ps.len() == 0 {
            None
        } else if ps[0].id == id {
            Some(ps[0])
        } else {
            spec_find_product(ps.drop_first(), pid)
        },
    }
}

/// The joined lines of one invoice, as the aggregating query groups them:
/// its line rows in storage order, each with the product row its
/// reference finds.
/// Whether a line row belongs to the given invoice.
pub open spec fn line_belongs(inv_id: int) -> spec_fn(LineRowV) -> bool {
    |l: LineRowV| l.invoice_id == inv_id
}

/// The join of one line row with the product row it references.
pub open spec fn line_join_of(products: Seq<ProductRowV>) -> spec_fn(LineRowV) -> LineJoin {
    |l: LineRowV| LineJoin { line: l, product: spec_find_product(products, l.product_id) }
}

pub open spec fn spec_joins(
    lines: Seq<LineRowV>,
    products: Seq<ProductRowV>,
    inv_id: int,
) -> Seq<LineJoin> {
    lines.filter(line_belongs(inv_id)).map_values(line_join_of(products))
}

/// The domain invoice the aggregating query yields for one invoice row:
/// the row's own columns, and all of its lines — an invoice without lines
/// carries an empty collection, not an absent one and not a phantom line.
pub open spec fn spec_agg_invoice(st: StoreV, iv: InvoiceRowV) -> InvoiceV {
    InvoiceV {
        id: iv.id,
        total_cents: iv.total_cents,
        lines: Some(
            spec_joins(st.lines, st.products, iv.id).map_values(
                |j: LineJoin| spec_line_of_join(j),
            ),
        ),
        created_at: iv.created_at,
        updated_at: iv.updated_at,
    }
}

/// The views of a vector of result invoices.
pub open spec fn invoice_views(v: Seq<Invoice>) -> Seq<InvoiceV> {
    v.map_values(|i: Invoice| i@)
}

/// Clones a product row.
fn clone_product_row(r: &ProductRow) -> (c: ProductRow)
    ensures
        c@ == r@,
{
    ProductRow {
        id: r.id,
        name: r.name.clone(),
        description: crate::text::clone_opt_string(&r.description),
        barcode: r.barcode.clone(),
        price_cents: r.price_cents,
        cost_cents: r.cost_cents,
        stock: r.stock,
        created_at: r.created_at.clone(),
        updated_at: r.updated_at.clone(),
    }
}

/// Clones a line row.
fn clone_line_row(r: &LineRow) -> (c: LineRow)
    ensures
        c@ == r@,
{
    LineRow {
        id: r.id,
        name: r.name.clone(),
        quantity: r.quantity,
        price_cents: r.price_cents,
        product_id: r.product_id,
        invoice_id: r.invoice_id,
        created_at: r.created_at.clone(),
        updated_at: r.updated_at.clone(),
    }
}

/// Looks a referenced product up by id, as the join does.
fn find_product(products: &Vec<ProductRow>, pid: Option<i64>) -> (r: Option<ProductRow>)
    ensures
        (match r {
            Some(c) => Some(c@),
            None => None,
        }) == spec_find_product(
            products@.map_values(|x: ProductRow| x@),
            (match pid {
                Some(p) => Some(p as int),
                None => None,
            }),
        ),
{
    let ghost whole = products@.map_values(|x: ProductRow| x@);
    let ghost pv = (match pid {
        Some(p) => Some(p as int),
        None => None,
    });
    let p = match pid {
        Some(p) => p,
        None => {
            return None;
        },
    };
    let mut k: usize = 0;
    proof {
        assert(whole.skip(0) =~= whole);
    }
    while k < products.len()
        invariant
            k <= products.len(),
            whole == products@.map_values(|x: ProductRow| x@),
            whole.len() == products@.len(),
            pid == Some(p),
            pv == Some(p as int),
            spec_find_product(whole, pv) == spec_find_product(whole.skip(k as int), pv),
        decreases products.len() - k,
    {
        proof {
            assert(whole.skip(k as int).len() == whole.len() - k);
            assert(whole.skip(k as int)[0] == whole[k as int]);
            assert(whole.skip(k as int).drop_first() =~= whole.skip(k as int + 1));
            assert(whole[k as int] == products@[k as int]@);
        }
        if products[k].id == p {
            let c = clone_product_row(&products[k]);
            proof {
                assert(whole[k as int].id == p as int);
                assert(spec_find_product(whole, pv) == Some(whole[k as int]));
                assert(c@ == whole[k as int]);
            }
            return Some(c);
        }
        k = k + 1;
    }
    proof {
        assert(whole.skip(whole.len() as int).len() == 0);
    }
    None
}

/// Collects one invoice's joined lines in storage order.
fn collect_joins(lines: &Vec<LineRow>, products: &Vec<ProductRow>, inv_id: i64) -> (r: Vec<
    (LineRow, Option<ProductRow>),
>)
    ensures
        join_views(r@) == spec_joins(
            lines@.map_values(|x: LineRow| x@),
            products@.map_values(|x: ProductRow| x@),
            inv_id as int,
        ),
{
    let ghost lv = lines@.map_values(|x: LineRow| x@);
    let ghost pvs = products@.map_values(|x: ProductRow| x@);
    let mut r: Vec<(LineRow, Option<ProductRow>)> = Vec::new();
    let mut k: usize = 0;
    proof {
        assert(lv.subrange(0, 0) =~= Seq::<LineRowV>::empty());
        reveal(Seq::filter);
    }
    while k < lines.len()
        invariant
            k <= lines.len(),
            lv == lines@.map_values(|x: LineRow| x@),
            pvs == products@.map_values(|x: ProductRow| x@),
            lv.len() == lines@.len(),
            join_views(r@) == spec_joins(lv.subrange(0, k as int), pvs, inv_id as int),
        decreases lines.len() - k,
    {
        let ghost pre = lv.subrange(0, k as int);
        let ghost pre2 = lv.subrange(0, k as int + 1);
        let ghost predx = line_belongs(inv_id as int);
        proof {
            assert(pre2 =~= pre.push(lv[k as int]));
            reveal(Seq::filter);
            assert(pre2.drop_last() =~= pre);
            assert(pre2.last() == lv[k as int]);
            assert(lv[k as int] == lines@[k as int]@);
            assert(pre2.filter(predx) == (if predx(lv[k as int]) {
                pre.filter(predx).push(lv[k as int])
            } else {
                pre.filter(predx)
            }));
        }
        if lines[k].invoice_id == inv_id {
            let row = clone_line_row(&lines[k]);
            let found = find_product(products, row.product_id);
            proof {
                assert(row@ == lv[k as int]);
                assert((match found {
                    Some(ref c) => Some(c@),
                    None => None,
                }) == spec_find_product(pvs, lv[k as int].product_id));
            }
            r.push((row, found));
            proof {
                reveal(Seq::filter);
                assert(predx(lv[k as int]));
                assert(pre2.filter(predx) == pre.filter(predx).push(lv[k as int]));
                let em = line_join_of(pvs)(lv[k as int]);
                assert(em == (LineJoin {
                    line: lv[k as int],
                    product: spec_find_product(pvs, lv[k as int].product_id),
                }));
                assert(join_views(r@).last() == em);
                assert(spec_joins(pre2, pvs, inv_id as int) =~~= spec_joins(
                    pre,
                    pvs,
                    inv_id as int,
                ).push(em));
                assert(join_views(r@) =~~= spec_joins(pre, pvs, inv_id as int).push(em));
                assert(join_views(r@) =~~= spec_joins(pre2, pvs, inv_id as int));
            }
        } else {
            proof {
                reveal(Seq::filter);
                assert(!predx(lv[k as int]));
                assert(pre2.filter(predx) == pre.filter(predx));
                assert(spec_joins(pre2, pvs, inv_id as int) =~~= spec_joins(
                    pre,
                    pvs,
                    inv_id as int,
                ));
                assert(join_views(r@) =~~= spec_joins(pre2, pvs, inv_id as int));
            }
        }
        k = k + 1;
    }
    proof {
        assert(lv.subrange(0, lv.len() as int) =~= lv);
    }
    r
}

/// Round trip: creating a product stores a row that reads back as the
/// same product — name, description, barcode, price, cost and stock all
/// unchanged, the price and cost exactly, to the cent. Only the key and
/// the timestamps are the store's.
pub proof fn lemma_product_round_trip(p: ProductV, id: int, now: Seq<char>)
    ensures
        spec_product_of(product_row_of(p, id, now)) == (ProductV {
            id: id,
            created_at: now,
            updated_at: now,
            ..p
        }),
{
}

/// An exact barcode match alone makes a row match a search, whether or
/// not the query occurs in the name.
pub proof fn lemma_barcode_matches(r: ProductRowV, q: Seq<char>)
    requires
        r.barcode == q,
    ensures
        row_matches(r, q),
{
}

/// The empty query matches every row: it occurs in every name.
pub proof fn lemma_empty_query_matches(r: ProductRowV)
    ensures
        row_matches(r, Seq::<char>::empty()),
{
    assert(crate::text::matches_at(r.name, Seq::<char>::empty(), 0));
}

/// Search is insensitive to ASCII case of the query: folding the query to
/// lower case selects the same rows, as under the store's default
/// collation.
pub proof fn lemma_search_case_fold(r: ProductRowV, q: Seq<char>)
    requires
        r.barcode == q <==> r.barcode == q.map_values(|c: char| crate::text::lower_char(c)),
    ensures
        row_matches(r, q) == row_matches(r, q.map_values(|c: char| crate::text::lower_char(c))),
{
    let ql = q.map_values(|c: char| crate::text::lower_char(c));
    assert forall|i: int| crate::text::matches_at(r.name, q, i) == crate::text::matches_at(
        r.name,
        ql,
        i,
    ) by {
        if crate::text::matches_at(r.name, q, i) {
            assert forall|k: int| 0 <= k < ql.len() implies crate::text::lower_char(
                r.name[i + k],
            ) == crate::text::lower_char(ql[k]) by {
                assert(crate::text::lower_char(r.name[i + k]) == crate::text::lower_char(q[k]));
                assert(ql[k] == crate::text::lower_char(q[k]));
                crate::text::lemma_lower_char_idempotent(q[k]);
            };
        }
        if crate::text::matches_at(r.name, ql, i) {
            assert forall|k: int| 0 <= k < q.len() implies crate::text::lower_char(r.name[i + k])
                == crate::text::lower_char(q[k]) by {
                assert(crate::text::lower_char(r.name[i + k]) == crate::text::lower_char(ql[k]));
                assert(ql[k] == crate::text::lower_char(q[k]));
                crate::text::lemma_lower_char_idempotent(q[k]);
            };
        }
    };
    if row_matches(r, q) {
        if contains_ci(r.name, q) {
            let i = choose|i: int| crate::text::matches_at(r.name, q, i);
            assert(crate::text::matches_at(r.name, ql, i));
        }
    }
    if row_matches(r, ql) {
        if contains_ci(r.name, ql) {
            let i = choose|i: int| crate::text::matches_at(r.name, ql, i);
            assert(crate::text::matches_at(r.name, q, i));
        }
    }
}

/// A filter that matches nothing yields the empty sequence.
proof fn lemma_filter_none<A>(s: Seq<A>, pred: spec_fn(A) -> bool)
    requires
        forall|k: int| 0 <= k < s.len() ==> !pred(#[trigger] s[k]),
    ensures
        s.filter(pred) == Seq::<A>::empty(),
    decreases s.len(),
{
    reveal(Seq::filter);
    if s.len() > 0 {
        assert(s.drop_last() =~= s.subrange(0, s.len() - 1));
        assert forall|k: int| 0 <= k < s.drop_last().len() implies !pred(
            #[trigger] s.drop_last()[k],
        ) by {
            assert(s.drop_last()[k] == s[k]);
        };
        lemma_filter_none(s.drop_last(), pred);
        assert(!pred(s.last()));
        assert(s.filter(pred) =~= Seq::<A>::empty());
    } else {
        assert(s.filter(pred) =~= Seq::<A>::empty());
    }
}

/// An invoice none of whose lines exist is listed with an empty line
/// collection: present, not dropped, and with no phantom line of nulls.
pub proof fn lemma_invoice_without_lines(st: StoreV, iv: InvoiceRowV)
    requires
        forall|k: int| 0 <= k < st.lines.len() ==> (#[trigger] st.lines[k]).invoice_id != iv.id,
    ensures
        spec_agg_invoice(st, iv).lines == Some(Seq::<InvoiceLineV>::empty()),
{
    assert forall|k: int| 0 <= k < st.lines.len() implies !line_belongs(iv.id)(
        #[trigger] st.lines[k],
    ) by {
        assert(st.lines[k].invoice_id != iv.id);
    };
    lemma_filter_none(st.lines, line_belongs(iv.id));
    assert(spec_joins(st.lines, st.products, iv.id) =~= Seq::<LineJoin>::empty());
    assert(spec_joins(st.lines, st.products, iv.id).map_values(
        |j: LineJoin| spec_line_of_join(j),
    ) =~= Seq::<InvoiceLineV>::empty());
}

/// The first invoice row with the given id.
pub open spec fn spec_find_invoice(ivs: Seq<InvoiceRowV>, id: int) -> Option<InvoiceRowV>
    decreases ivs.len(),
{
    if ivs.len() == 0 {
        None
    } else if ivs[0].id == id {
        Some(ivs[0])
    } else {
        spec_find_invoice(ivs.drop_first(), id)
    }
}

/// The domain line the flat line query yields for one line row: the
/// row's own columns, with the parent invoice's header and the product
/// snapshot that the two left joins find, either absent where no row
/// matches.
pub open spec fn spec_flat_line(st: StoreV, l: LineRowV) -> InvoiceLineV {
    InvoiceLineV {
        id: l.id,
        name: l.name,
        quantity: l.quantity,
        price_cents: l.price_cents,
        invoice: (match spec_find_invoice(st.invoices, l.invoice_id) {
            Some(h) => Some(crate::mapper::spec_header_of(h)),
            None => None,
        }),
        product: (match spec_find_product(st.products, l.product_id) {
            Some(p) => Some(spec_product_of(p)),
            None => None,
        }),
        created_at: l.created_at,
        updated_at: l.updated_at,
    }
}

/// Clones an invoice row.
fn clone_invoice_row(r: &InvoiceRow) -> (c: InvoiceRow)
    ensures
        c@ == r@,
{
    InvoiceRow {
        id: r.id,
        total_cents: r.total_cents,
        created_at: r.created_at.clone(),
        updated_at: r.updated_at.clone(),
    }
}

/// Looks the parent invoice up by id, as the join does.
fn find_invoice(invoices: &Vec<InvoiceRow>, id: i64) -> (r: Option<InvoiceRow>)
    ensures
        (match r {
            Some(c) => Some(c@),
            None => None,
        }) == spec_find_invoice(invoices@.map_values(|x: InvoiceRow| x@), id as int),
{
    let ghost whole = invoices@.map_values(|x: InvoiceRow| x@);
    let mut k: usize = 0;
    proof {
        assert(whole.skip(0) =~= whole);
    }
    while k < invoices.len()
        invariant
            k <= invoices.len(),
            whole == invoices@.map_values(|x: InvoiceRow| x@),
            whole.len() == invoices@.len(),
            spec_find_invoice(whole, id as int) == spec_find_invoice(
                whole.skip(k as int),
                id as int,
            ),
        decreases invoices.len() - k,
    {
        proof {
            assert(whole.skip(k as int).len() == whole.len() - k);
            assert(whole.skip(k as int)[0] == whole[k as int]);
            assert(whole.skip(k as int).drop_first() =~= whole.skip(k as int + 1));
            assert(whole[k as int] == invoices@[k as int]@);
        }
        if invoices[k].id == id {
            let c = clone_invoice_row(&invoices[k]);
            proof {
                assert(spec_find_invoice(whole, id as int) == Some(whole[k as int]));
            }
            return Some(c);
        }
        k = k + 1;
    }
    proof {
        assert(whole.skip(whole.len() as int).len() == 0);
    }
    None
}

/// Ids in the products table increase with position.
pub proof fn lemma_product_ids_increase(st: Store, j: int, k: int)
    requires
        st.wf(),
        0 <= j < k < st@.products.len(),
    ensures
        st@.products[j].id < st@.products[k].id,
{
}

/// Well-formedness depends only on the tables and counters, not on the
/// clock.
pub proof fn lemma_wf_same_tables(a: Store, b: Store)
    requires
        a.wf(),
        b@.products == a@.products,
        b@.invoices == a@.invoices,
        b@.lines == a@.lines,
        b@.next_product_id == a@.next_product_id,
        b@.next_invoice_id == a@.next_invoice_id,
        b@.next_line_id == a@.next_line_id,
    ensures
        b.wf(),
{
}


impl Store {
    /// Table well-formedness: ids are generated in increasing order and
    /// stay below the corresponding counter.
    pub open spec fn wf(self) -> bool {
        &&& products_table_wf(self@.products, self@.next_product_id)
        &&& invoices_table_wf(self@.invoices, self@.next_invoice_id)
        &&& lines_table_wf(self@.lines, self@.next_line_id)
    }

    /// An empty store whose clock reads `now`.
    pub fn new(now: String) -> (st: Store)
        ensures
            st.wf(),
            st@.products == Seq::<ProductRowV>::empty(),
            st@.invoices == Seq::<InvoiceRowV>::empty(),
            st@.lines == Seq::<LineRowV>::empty(),
            st@.next_product_id == 1,
            st@.next_invoice_id == 1,
            st@.next_line_id == 1,
            st@.now == now@,
    {
        let st = Store {
            products: Vec::new(),
            invoices: Vec::new(),
            lines: Vec::new(),
            next_product_id: 1,
            next_invoice_id: 1,
            next_line_id: 1,
            now,
        };
        proof {
            assert(st@.products =~= Seq::<ProductRowV>::empty());
            assert(st@.invoices =~= Seq::<InvoiceRowV>::empty());
            assert(st@.lines =~= Seq::<LineRowV>::empty());
        }
        st
    }

    /// Moves the server clock: later inserts and updates are stamped with
    /// the new value.
    pub fn set_now(&mut self, now: String)
        ensures
            final(self)@.products == old(self)@.products,
            final(self)@.invoices == old(self)@.invoices,
            final(self)@.lines == old(self)@.lines,
            final(self)@.next_product_id == old(self)@.next_product_id,
            final(self)@.next_invoice_id == old(self)@.next_invoice_id,
            final(self)@.next_line_id == old(self)@.next_line_id,
            final(self)@.now == now@,
            old(self).wf() ==> final(self).wf(),
    {
        self.now = now;
        proof {
            if old(self).wf() {
                lemma_wf_same_tables(*old(self), *self);
            }
        }
    }

    /// Inserts a new product row with a generated id and server-set
    /// timestamps; the given object's id is ignored. Nothing else changes.
    pub fn create_product(&mut self, p: &Product)
        requires
            old(self).wf(),
            old(self)@.next_product_id < i64::MAX as int,
        ensures
            final(self).wf(),
            final(self)@.products == old(self)@.products.push(
                product_row_of(p@, old(self)@.next_product_id, old(self)@.now),
            ),
            final(self)@.next_product_id == old(self)@.next_product_id + 1,
            final(self)@.invoices == old(self)@.invoices,
            final(self)@.lines == old(self)@.lines,
            final(self)@.next_invoice_id == old(self)@.next_invoice_id,
            final(self)@.next_line_id == old(self)@.next_line_id,
            final(self)@.now == old(self)@.now,
    {
        let row = ProductRow {
            id: self.next_product_id,
            name: p.name.clone(),
            description: crate::text::clone_opt_string(&p.description),
            barcode: p.barcode.clone(),
            price_cents: p.price.cents,
            cost_cents: p.cost.cents,
            stock: p.stock,
            created_at: self.now.clone(),
            updated_at: self.now.clone(),
        };
        proof {
            assert(row@ == product_row_of(p@, self@.next_product_id, self@.now));
        }
        self.products.push(row);
        self.next_product_id = self.next_product_id + 1;
        proof {
            lemma_products_wf_push(
                old(self)@.products,
                old(self)@.next_product_id,
                product_row_of(p@, old(self)@.next_product_id, old(self)@.now),
            );
            assert(self@.products =~~= old(self)@.products.push(
                product_row_of(p@, old(self)@.next_product_id, old(self)@.now),
            ));
            assert(self@.invoices =~= old(self)@.invoices);
            assert(self@.lines =~= old(self)@.lines);
        }
    }

    /// Returns every product, in storage order.
    pub fn get_products(&self) -> (res: Vec<Product>)
        ensures
            product_views(res@) == self@.products.map_values(
                |r: ProductRowV| spec_product_of(r),
            ),
    {
        let mut res: Vec<Product> = Vec::new();
        let mut i: usize = 0;
        while i < self.products.len()
            invariant
                i <= self.products.len(),
                res@.len() == i,
                forall|k: int|
                    0 <= k < i ==> (#[trigger] res@[k])@ == spec_product_of(self@.products[k]),
            decreases self.products.len() - i,
        {
            let p = product_from_row(&self.products[i]);
            proof {
                assert(self@.products[i as int] == self.products@[i as int]@);
            }
            res.push(p);
            i = i + 1;
        }
        proof {
            assert(product_views(res@) =~= self@.products.map_values(
                |r: ProductRowV| spec_product_of(r),
            ));
        }
        res
    }

    /// Searches the catalog: up to 25 products whose name contains the
    /// query as a substring (ASCII case folded, as under the store's
    /// default collation) or whose barcode equals it exactly, in storage
    /// order. An empty result is a valid answer, never an error.
    pub fn search(&self, query: &str) -> (res: Vec<Product>)
        ensures
            ({
                let m = self@.products.filter(|r: ProductRowV| row_matches(r, query@));
                &&& res@.len() == (if m.len() <= 25 {
                    m.len() as int
                } else {
                    25
                })
                &&& product_views(res@) == (if m.len() <= 25 {
                    m
                } else {
                    m.take(25)
                }).map_values(|r: ProductRowV| spec_product_of(r))
            }),
    {
        let qc = chars_of(query);
        let mut res: Vec<Product> = Vec::new();
        let mut i: usize = 0;
        proof {
            assert(self@.products.subrange(0, 0) =~= Seq::<ProductRowV>::empty());
            reveal(Seq::filter);
        }
        while i < self.products.len() && res.len() < 25
            invariant
                i <= self.products.len(),
                qc@ == query@,
                res@.len() <= 25,
                res@.len() == self@.products.subrange(0, i as int).filter(
                    |r: ProductRowV| row_matches(r, query@),
                ).len(),
                forall|k: int|
                    0 <= k < res@.len() ==> (#[trigger] res@[k])@ == spec_product_of(
                        self@.products.subrange(0, i as int).filter(
                            |r: ProductRowV| row_matches(r, query@),
                        )[k],
                    ),
            decreases self.products.len() - i,
        {
            let ghost pred = |r: ProductRowV| row_matches(r, query@);
            let ghost pre = self@.products.subrange(0, i as int);
            let row = &self.products[i];
            proof {
                assert(self@.products[i as int] == self.products@[i as int]@);
            }
            let namec = chars_of(row.name.as_str());
            let barc = chars_of(row.barcode.as_str());
            let hit = contains_ci_x(&namec, &qc) || eq_chars(&barc, &qc);
            proof {
                assert(hit == pred(self@.products[i as int]));
                let pre2 = self@.products.subrange(0, i as int + 1);
                assert(pre2 =~= pre.push(self@.products[i as int]));
                reveal(Seq::filter);
                assert(pre2.drop_last() =~= pre);
                assert(pre2.last() == self@.products[i as int]);
                assert(pre2.filter(pred) == (if pred(self@.products[i as int]) {
                    pre.filter(pred).push(self@.products[i as int])
                } else {
                    pre.filter(pred)
                }));
            }
            if hit {
                let p = product_from_row(row);
                res.push(p);
            }
            i = i + 1;
        }
        proof {
            let pred = |r: ProductRowV| row_matches(r, query@);
            let m = self@.products.filter(pred);
            let pre = self@.products.subrange(0, i as int);
            let suf = self@.products.subrange(i as int, self@.products.len() as int);
            assert(pre + suf =~= self@.products);
            Seq::filter_distributes_over_add(pre, suf, pred);
            assert(m == pre.filter(pred) + suf.filter(pred));
            if res@.len() < 25 {
                assert(i == self.products.len());
                assert(pre =~= self@.products);
                assert(res@.len() == m.len());
                assert(product_views(res@) =~= m.map_values(|r: ProductRowV| spec_product_of(r)));
            } else {
                suf.lemma_filter_len(pred);
                assert(m.len() >= 25);
                if m.len() <= 25 {
                    assert(suf.filter(pred).len() == 0);
                    assert(m =~= pre.filter(pred));
                    assert(product_views(res@) =~= m.map_values(
                        |r: ProductRowV| spec_product_of(r),
                    ));
                } else {
                    assert(m.take(25) =~= pre.filter(pred));
                    assert(product_views(res@) =~= m.take(25).map_values(
                        |r: ProductRowV| spec_product_of(r),
                    ));
                }
            }
        }
        res
    }

    /// Full-row update of the product with the given object's id. Every
    /// mutable field is overwritten unconditionally; timestamps and key
    /// are kept. When no row has that id, the call succeeds silently and
    /// the store is left exactly as it was: no row is created.
    pub fn save_product(&mut self, p: &Product)
        requires
            old(self).wf(),
        ensures
            final(self).wf(),
            final(self)@.products.len() == old(self)@.products.len(),
            forall|k: int|
                0 <= k < old(self)@.products.len() && (#[trigger] old(self)@.products[k]).id
                    != p@.id ==> final(self)@.products[k] == old(self)@.products[k],
            forall|k: int|
                0 <= k < old(self)@.products.len() && (#[trigger] old(self)@.products[k]).id
                    == p@.id ==> final(self)@.products[k] == saved_product_row(
                    old(self)@.products[k],
                    p@,
                ),
            (forall|k: int|
                0 <= k < old(self)@.products.len() ==> (#[trigger] old(self)@.products[k]).id
                    != p@.id) ==> final(self)@ == old(self)@,
            final(self)@.invoices == old(self)@.invoices,
            final(self)@.lines == old(self)@.lines,
            final(self)@.next_product_id == old(self)@.next_product_id,
            final(self)@.next_invoice_id == old(self)@.next_invoice_id,
            final(self)@.next_line_id == old(self)@.next_line_id,
            final(self)@.now == old(self)@.now,
    {
        let n = self.products.len();
        let mut i: usize = 0;
        while i < n
            invariant
                old(self).wf(),
                n == self.products.len(),
                i <= n,
                *self == *old(self),
                forall|k: int|
                    0 <= k < i ==> (#[trigger] self@.products[k]).id != p@.id,
            decreases n - i,
        {
            if self.products[i].id == p.id {
                let row = ProductRow {
                    id: self.products[i].id,
                    name: p.name.clone(),
                    description: crate::text::clone_opt_string(&p.description),
                    barcode: p.barcode.clone(),
                    price_cents: p.price.cents,
                    cost_cents: p.cost.cents,
                    stock: p.stock,
                    created_at: self.products[i].created_at.clone(),
                    updated_at: self.products[i].updated_at.clone(),
                };
                proof {
                    assert(self.products@[i as int]@ == old(self)@.products[i as int]);
                    assert(row@ == saved_product_row(old(self)@.products[i as int], p@));
                }
                self.products.set(i, row);
                proof {
                    let target = saved_product_row(old(self)@.products[i as int], p@);
                    assert(self@.products =~~= old(self)@.products.update(i as int, target));
                    assert(self@.invoices =~= old(self)@.invoices);
                    assert(self@.lines =~= old(self)@.lines);
                    assert forall|k: int|
                        0 <= k < old(self)@.products.len() && (#[trigger] old(
                        self,
                    )@.products[k]).id == p@.id implies k == i as int by {
                        if k < i as int {
                            assert((old(self)@.products[k]).id != p@.id);
                        } else if k > i as int {
                            lemma_product_ids_increase(*old(self), i as int, k);
                        }
                    };
                    lemma_products_wf_update(
                        old(self)@.products,
                        old(self)@.next_product_id,
                        i as int,
                        target,
                    );
                }
                return ;
            }
            i = i + 1;
        }
    }

    /// Returns every invoice together with its full line collection, each
    /// line carrying the product snapshot the join finds, produced through
    /// the aggregating join's grouped text column and its decode. An
    /// invoice with no lines appears with an empty collection.
    pub fn get_invoices(&self) -> (res: Vec<Invoice>)
        ensures
            res@.len() == self@.invoices.len(),
            forall|k: int|
                0 <= k < res@.len() ==> (#[trigger] res@[k])@ == spec_agg_invoice(
                    self@,
                    self@.invoices[k],
                ),
    {
        let mut res: Vec<Invoice> = Vec::new();
        let mut i: usize = 0;
        while i < self.invoices.len()
            invariant
                i <= self.invoices.len(),
                res@.len() == i,
                forall|k: int|
                    0 <= k < i ==> (#[trigger] res@[k])@ == spec_agg_invoice(
                        self@,
                        self@.invoices[k],
                    ),
            decreases self.invoices.len() - i,
        {
            let inv = &self.invoices[i];
            let joined = collect_joins(&self.lines, &self.products, inv.id);
            let mut out: Vec<char> = Vec::new();
            push_lines_array(&mut out, &joined);
            let agg = AggInvoiceRow {
                id: inv.id,
                total_cents: inv.total_cents,
                lines_json: string_of(&out),
                created_at: inv.created_at.clone(),
                updated_at: inv.updated_at.clone(),
            };
            let dom = invoice_from_row(&agg);
            proof {
                let js = join_views(joined@);
                assert(agg@.lines_json == enc_lines_array(js));
                assert(joins_fit(js)) by {
                    assert forall|k: int| 0 <= k < js.len() implies line_join_fits(
                        #[trigger] js[k],
                    ) by {
                        assert(js[k] == join_view(joined@[k]));
                    };
                }
                assert(self@.invoices[i as int] == self.invoices@[i as int]@);
                assert(dom@ =~~= spec_agg_invoice(self@, self@.invoices[i as int]));
            }
            res.push(dom);
            i = i + 1;
        }
        res
    }

    /// Returns every line row, each carrying its parent invoice's header
    /// and its product snapshot, produced through the flat join's two
    /// nested object columns and their decode. A dangling reference comes
    /// back absent, not as an error.
    pub fn _get_invoice_lines(&self) -> (res: Vec<InvoiceLine>)
        ensures
            res@.len() == self@.lines.len(),
            forall|k: int|
                0 <= k < res@.len() ==> (#[trigger] res@[k])@ == spec_flat_line(
                    self@,
                    self@.lines[k],
                ),
    {
        let mut res: Vec<InvoiceLine> = Vec::new();
        let mut i: usize = 0;
        while i < self.lines.len()
            invariant
                i <= self.lines.len(),
                res@.len() == i,
                forall|k: int|
                    0 <= k < i ==> (#[trigger] res@[k])@ == spec_flat_line(
                        self@,
                        self@.lines[k],
                    ),
            decreases self.lines.len() - i,
        {
            let lrow = &self.lines[i];
            let inv_found = find_invoice(&self.invoices, lrow.invoice_id);
            let prod_found = find_product(&self.products, lrow.product_id);
            let mut ij: Vec<char> = Vec::new();
            crate::mapper::push_invoice_obj(&mut ij, &inv_found);
            let mut pj: Vec<char> = Vec::new();
            crate::mapper::push_product_obj(&mut pj, &prod_found);
            let flat = crate::rows::FlatLineRow {
                id: lrow.id,
                name: lrow.name.clone(),
                quantity: lrow.quantity,
                price_cents: lrow.price_cents,
                invoice_json: string_of(&ij),
                product_json: string_of(&pj),
                created_at: lrow.created_at.clone(),
                updated_at: lrow.updated_at.clone(),
            };
            let dom = crate::mapper::line_from_row(&flat);
            proof {
                let lv = self@.lines[i as int];
                assert(lv == self.lines@[i as int]@);
                let oh = (match inv_found {
                    Some(ref h) => Some(h@),
                    None => None,
                });
                let op = (match prod_found {
                    Some(ref p) => Some(p@),
                    None => None,
                });
                assert(flat@.invoice_json == crate::mapper::enc_invoice_obj(oh));
                assert(flat@.product_json == crate::mapper::enc_product_obj(op));
                assert(oh == spec_find_invoice(self@.invoices, lv.invoice_id));
                assert(op == spec_find_product(self@.products, lv.product_id));
                assert(dom@ =~~= spec_flat_line(self@, lv));
            }
            res.push(dom);
            i = i + 1;
        }
        res
    }

    /// Creates an invoice from its header and lines, in three phases, as
    /// the handler does: insert the header with the given total (never
    /// recomputed from the lines); then, per line in order, decrement the
    /// referenced product's stock by the line's quantity (no oversell
    /// guard: stock may go negative; a decrement that cannot be stored is
    /// skipped); and insert the line row referencing the new invoice and,
    /// when present, the product. Success is owed once the header can be
    /// inserted; a skipped stock update does not fail the call.
    pub fn create_invoice(&mut self, inv: &Invoice)
        requires
            old(self).wf(),
            old(self)@.next_invoice_id < i64::MAX as int,
            inv@.lines is Some,
            old(self)@.next_line_id + inv@.lines.unwrap().len() <= i64::MAX as int,
        ensures
            final(self).wf(),
            final(self)@.invoices == old(self)@.invoices.push(
                InvoiceRowV {
                    id: old(self)@.next_invoice_id,
                    total_cents: inv@.total_cents,
                    created_at: old(self)@.now,
                    updated_at: old(self)@.now,
                },
            ),
            final(self)@.lines == old(self)@.lines + Seq::new(
                inv@.lines.unwrap().len(),
                |k: int|
                    line_row_of(
                        inv@.lines.unwrap()[k],
                        old(self)@.next_line_id + k,
                        old(self)@.next_invoice_id,
                        old(self)@.now,
                    ),
            ),
            final(self)@.products == apply_stock(old(self)@.products, inv@.lines.unwrap()),
            final(self)@.next_invoice_id == old(self)@.next_invoice_id + 1,
            final(self)@.next_line_id == old(self)@.next_line_id + inv@.lines.unwrap().len(),
            final(self)@.next_product_id == old(self)@.next_product_id,
            final(self)@.now == old(self)@.now,
    {
        let ghost ls = inv@.lines.unwrap();
        let inv_id = self.next_invoice_id;
        let header = InvoiceRow {
            id: inv_id,
            total_cents: inv.total.cents,
            created_at: self.now.clone(),
            updated_at: self.now.clone(),
        };
        self.invoices.push(header);
        self.next_invoice_id = inv_id + 1;
        proof {
            assert(self@.invoices =~~= old(self)@.invoices.push(
                InvoiceRowV {
                    id: old(self)@.next_invoice_id,
                    total_cents: inv@.total_cents,
                    created_at: old(self)@.now,
                    updated_at: old(self)@.now,
                },
            ));
            lemma_invoices_wf_push(
                old(self)@.invoices,
                old(self)@.next_invoice_id,
                self@.invoices.last(),
            );
            assert(self@.products =~= old(self)@.products);
            assert(self@.lines =~= old(self)@.lines);
            assert(ls.take(0) =~= Seq::<InvoiceLineV>::empty());
            assert(self@.lines =~~= old(self)@.lines + Seq::new(
                0,
                |k: int|
                    line_row_of(
                        ls[k],
                        old(self)@.next_line_id + k,
                        old(self)@.next_invoice_id,
                        old(self)@.now,
                    ),
            ));
        }
        let lines: &Vec<InvoiceLine> = match &inv.lines {
            Some(v) => v,
            None => {
                proof {
                    assert(false);
                }
                return ;
            },
        };
        let mut j: usize = 0;
        while j < lines.len()
            invariant
                old(self).wf(),
                old(self)@.next_invoice_id < i64::MAX as int,
                inv@.lines is Some,
                old(self)@.next_line_id + ls.len() <= i64::MAX as int,
                ls == inv@.lines.unwrap(),
                lines@.len() == ls.len(),
                forall|k: int| 0 <= k < ls.len() ==> (#[trigger] lines@[k])@ == ls[k],
                j <= lines.len(),
                inv_id == old(self)@.next_invoice_id,
                self@.invoices == old(self)@.invoices.push(
                    InvoiceRowV {
                        id: old(self)@.next_invoice_id,
                        total_cents: inv@.total_cents,
                        created_at: old(self)@.now,
                        updated_at: old(self)@.now,
                    },
                ),
                self@.next_invoice_id == old(self)@.next_invoice_id + 1,
                self@.next_product_id == old(self)@.next_product_id,
                self@.next_line_id == old(self)@.next_line_id + j,
                self@.now == old(self)@.now,
                self@.products == apply_stock(old(self)@.products, ls.take(j as int)),
                self@.lines == old(self)@.lines + Seq::new(
                    j as nat,
                    |k: int|
                        line_row_of(
                            ls[k],
                            old(self)@.next_line_id + k,
                            old(self)@.next_invoice_id,
                            old(self)@.now,
                        ),
                ),
                self.wf(),
            decreases lines.len() - j,
        {
            let line = &lines[j];
            proof {
                assert(lines@[j as int]@ == ls[j as int]);
            }
            let product_id: Option<i64> = match &line.product {
                Some(prod) => {
                    dec_stock_rows(&mut self.products, prod.id, line.quantity);
                    Some(prod.id)
                },
                None => None,
            };
            proof {
                assert(ls.take(j as int + 1).drop_last() =~= ls.take(j as int));
                assert(ls.take(j as int + 1).last() == ls[j as int]);
                assert(self@.products == apply_stock(old(self)@.products, ls.take(j as int + 1)));
                lemma_apply_stock_shape(old(self)@.products, ls.take(j as int + 1));
                lemma_products_wf_same_ids(
                    old(self)@.products,
                    self@.products,
                    old(self)@.next_product_id,
                );
            }
            let row = LineRow {
                id: self.next_line_id,
                name: line.name.clone(),
                quantity: line.quantity,
                price_cents: line.price.cents,
                product_id,
                invoice_id: inv_id,
                created_at: self.now.clone(),
                updated_at: self.now.clone(),
            };
            proof {
                assert(row@ == line_row_of(
                    ls[j as int],
                    old(self)@.next_line_id + j as int,
                    old(self)@.next_invoice_id,
                    old(self)@.now,
                ));
                lemma_lines_wf_push(self@.lines, self@.next_line_id, row@);
            }
            let ghost prev_lines = self@.lines;
            self.lines.push(row);
            self.next_line_id = self.next_line_id + 1;
            proof {
                assert(self@.lines =~~= prev_lines.push(line_row_of(
                    ls[j as int],
                    old(self)@.next_line_id + j as int,
                    old(self)@.next_invoice_id,
                    old(self)@.now,
                )));
                assert(self@.lines =~~= old(self)@.lines + Seq::new(
                    (j + 1) as nat,
                    |k: int|
                        line_row_of(
                            ls[k],
                            old(self)@.next_line_id + k,
                            old(self)@.next_invoice_id,
                            old(self)@.now,
                        ),
                ));
            }
            j = j + 1;
        }
        proof {
            assert(ls.take(ls.len() as int) =~= ls);
        }
    }
}


} // verus!
