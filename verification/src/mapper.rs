//! The domain mapper: conversion between stored rows and domain objects.
//!
//! The row side keeps money as raw integer cents; the domain side carries
//! the same cents in [`Money`], so the conversion is exact in both
//! directions.

use vstd::prelude::*;
use crate::domain::{Invoice, InvoiceLine, Product, ProductV};
use crate::json::{dec_digits, enc_i64, enc_str, int_at, is_digit, lemma_dec_digits_digits, non_digit_after,
    parse_i64, parse_string, expect_lit, push_i64, push_lit, push_quoted, str_at};
use crate::money::Money;
use crate::rows::{AggInvoiceRow, FlatLineRow, InvoiceRow, InvoiceRowV, LineRow, LineRowV,
    ProductRow, ProductRowV};
use crate::text::{clone_opt_string, string_of};

verus! {

/// A literal stands at position `i` of `s`.
pub open spec fn lit_at(s: Seq<char>, i: int, l: Seq<char>) -> bool {
    &&& 0 <= i
    &&& i + l.len() <= s.len()
    &&& s.subrange(i, i + l.len() as int) == l
}

/// The encoding of an optional text column: the text quoted, or `null`.
pub open spec fn enc_opt_str(o: Option<Seq<char>>) -> Seq<char> {
    match o {
        Some(u) => enc_str(u),
        None => "null"@,
    }
}

/// The object the query layer emits for a product row, with the keys in
/// query order and raw cents in the money fields; a missing product (the
/// join found no row) comes out as the same object with every value
/// `null`.
pub open spec fn enc_product_obj(op: Option<ProductRowV>) -> Seq<char> {
    match op {
        Some(p) => "{\"id\":"@ + enc_i64(p.id) + ",\"name\":"@ + enc_str(p.name)
            + ",\"description\":"@ + enc_opt_str(p.description) + ",\"barcode\":"@ + enc_str(
            p.barcode,
        ) + ",\"price\":"@ + enc_i64(p.price_cents) + ",\"cost\":"@ + enc_i64(p.cost_cents)
            + ",\"stock\":"@ + enc_i64(p.stock) + ",\"created_at\":"@ + enc_str(p.created_at)
            + ",\"updated_at\":"@ + enc_str(p.updated_at) + "}"@,
        None => "{\"id\":"@ + "null"@ + product_null_rest(),
    }
}

/// The tail of the all-null product object, after the null id.
pub open spec fn product_null_rest() -> Seq<char> {
    ",\"name\":null,\"description\":null,\"barcode\":null,\"price\":null,\"cost\":null,\"stock\":null,\"created_at\":null,\"updated_at\":null}"@
}

/// An optional text value stands at position `i`: quoted text or `null`.
pub open spec fn opt_str_at(s: Seq<char>, i: int, o: Option<Seq<char>>) -> bool {
    match o {
        Some(u) => str_at(s, i, u),
        None => lit_at(s, i, "null"@),
    }
}

/// The row's numeric fields fit the machine integers the store uses.
pub open spec fn product_row_fits(p: ProductRowV) -> bool {
    &&& i64::MIN <= p.id <= i64::MAX
    &&& i64::MIN <= p.price_cents <= i64::MAX
    &&& i64::MIN <= p.cost_cents <= i64::MAX
    &&& i64::MIN <= p.stock <= i64::MAX
}

/// The product object's pieces stand in order at position `i` of `s`.
pub open spec fn product_obj_at(s: Seq<char>, i: int, op: Option<ProductRowV>) -> bool {
    match op {
        Some(p) => {
            let i1 = i + "{\"id\":"@.len() as int;
            let i2 = i1 + enc_i64(p.id).len() as int;
            let i3 = i2 + ",\"name\":"@.len() as int;
            let i4 = i3 + enc_str(p.name).len() as int;
            let i5 = i4 + ",\"description\":"@.len() as int;
            let i6 = i5 + enc_opt_str(p.description).len() as int;
            let i7 = i6 + ",\"barcode\":"@.len() as int;
            let i8 = i7 + enc_str(p.barcode).len() as int;
            let i9 = i8 + ",\"price\":"@.len() as int;
            let i10 = i9 + enc_i64(p.price_cents).len() as int;
            let i11 = i10 + ",\"cost\":"@.len() as int;
            let i12 = i11 + enc_i64(p.cost_cents).len() as int;
            let i13 = i12 + ",\"stock\":"@.len() as int;
            let i14 = i13 + enc_i64(p.stock).len() as int;
            let i15 = i14 + ",\"created_at\":"@.len() as int;
            let i16 = i15 + enc_str(p.created_at).len() as int;
            let i17 = i16 + ",\"updated_at\":"@.len() as int;
            let i18 = i17 + enc_str(p.updated_at).len() as int;
            &&& lit_at(s, i, "{\"id\":"@)
            &&& int_at(s, i1, p.id)
            &&& lit_at(s, i2, ",\"name\":"@)
            &&& str_at(s, i3, p.name)
            &&& lit_at(s, i4, ",\"description\":"@)
            &&& opt_str_at(s, i5, p.description)
            &&& lit_at(s, i6, ",\"barcode\":"@)
            &&& str_at(s, i7, p.barcode)
            &&& lit_at(s, i8, ",\"price\":"@)
            &&& int_at(s, i9, p.price_cents)
            &&& lit_at(s, i10, ",\"cost\":"@)
            &&& int_at(s, i11, p.cost_cents)
            &&& lit_at(s, i12, ",\"stock\":"@)
            &&& int_at(s, i13, p.stock)
            &&& lit_at(s, i14, ",\"created_at\":"@)
            &&& str_at(s, i15, p.created_at)
            &&& lit_at(s, i16, ",\"updated_at\":"@)
            &&& str_at(s, i17, p.updated_at)
            &&& lit_at(s, i18, "}"@)
        },
        None => {
            let i1 = i + "{\"id\":"@.len() as int;
            let i2 = i1 + "null"@.len() as int;
            &&& lit_at(s, i, "{\"id\":"@)
            &&& lit_at(s, i1, "null"@)
            &&& lit_at(s, i2, product_null_rest())
        },
    }
}

/// Concatenation of character sequences is associative.
pub proof fn lemma_add_assoc(a: Seq<char>, b: Seq<char>, c: Seq<char>)
    ensures
        (a + b) + c == a + (b + c),
{
    assert((a + b) + c =~= a + (b + c));
}

/// Splits a match of a concatenation into matches of the halves.
pub proof fn lemma_split_at(s: Seq<char>, i: int, a: Seq<char>, b: Seq<char>)
    requires
        0 <= i,
        i + a.len() + b.len() <= s.len(),
        s.subrange(i, i + a.len() + b.len()) == a + b,
    ensures
        s.subrange(i, i + a.len() as int) == a,
        s.subrange(i + a.len() as int, i + a.len() + b.len()) == b,
{
    assert forall|q: int| 0 <= q < a.len() implies #[trigger] s.subrange(i, i + a.len() as int)[q]
        == a[q] by {
        assert(s.subrange(i, i + a.len() + b.len())[q] == s[i + q]);
        assert(s.subrange(i, i + a.len() as int)[q] == s[i + q]);
        assert((a + b)[q] == a[q]);
    };
    assert(s.subrange(i, i + a.len() as int) =~= a);
    assert forall|q: int| 0 <= q < b.len() implies #[trigger] s.subrange(
        i + a.len() as int,
        i + a.len() + b.len(),
    )[q] == b[q] by {
        assert(s.subrange(i, i + a.len() + b.len())[a.len() + q] == s[i + a.len() + q]);
        assert(s.subrange(i + a.len() as int, i + a.len() + b.len())[q] == s[i + a.len() + q]);
        assert((a + b)[a.len() + q] == b[q]);
    };
    assert(s.subrange(i + a.len() as int, i + a.len() + b.len()) =~= b);
}

/// A whole-text match of the product object gives its pieces.
#[verifier::rlimit(60)]
pub proof fn lemma_product_obj_pieces(s: Seq<char>, i: int, op: Option<ProductRowV>)
    requires
        0 <= i,
        i + enc_product_obj(op).len() <= s.len(),
        s.subrange(i, i + enc_product_obj(op).len() as int) == enc_product_obj(op),
    ensures
        product_obj_at(s, i, op),
{
    match op {
        Some(p) => {
            let e1 = "{\"id\":"@;
            let e2 = enc_i64(p.id);
            let e3 = ",\"name\":"@;
            let e4 = enc_str(p.name);
            let e5 = ",\"description\":"@;
            let e6 = enc_opt_str(p.description);
            let e7 = ",\"barcode\":"@;
            let e8 = enc_str(p.barcode);
            let e9 = ",\"price\":"@;
            let e10 = enc_i64(p.price_cents);
            let e11 = ",\"cost\":"@;
            let e12 = enc_i64(p.cost_cents);
            let e13 = ",\"stock\":"@;
            let e14 = enc_i64(p.stock);
            let e15 = ",\"created_at\":"@;
            let e16 = enc_str(p.created_at);
            let e17 = ",\"updated_at\":"@;
            let e18 = enc_str(p.updated_at);
            let e19 = "}"@;
            let c1 = e1;
            let c2 = c1 + e2;
            let c3 = c2 + e3;
            let c4 = c3 + e4;
            let c5 = c4 + e5;
            let c6 = c5 + e6;
            let c7 = c6 + e7;
            let c8 = c7 + e8;
            let c9 = c8 + e9;
            let c10 = c9 + e10;
            let c11 = c10 + e11;
            let c12 = c11 + e12;
            let c13 = c12 + e13;
            let c14 = c13 + e14;
            let c15 = c14 + e15;
            let c16 = c15 + e16;
            let c17 = c16 + e17;
            let c18 = c17 + e18;
            let c19 = c18 + e19;
            assert(enc_product_obj(op) == c19);
            lemma_split_at(s, i, c18, e19);
            lemma_split_at(s, i, c17, e18);
            lemma_split_at(s, i, c16, e17);
            lemma_split_at(s, i, c15, e16);
            lemma_split_at(s, i, c14, e15);
            lemma_split_at(s, i, c13, e14);
            lemma_split_at(s, i, c12, e13);
            lemma_split_at(s, i, c11, e12);
            lemma_split_at(s, i, c10, e11);
            lemma_split_at(s, i, c9, e10);
            lemma_split_at(s, i, c8, e9);
            lemma_split_at(s, i, c7, e8);
            lemma_split_at(s, i, c6, e7);
            lemma_split_at(s, i, c5, e6);
            lemma_split_at(s, i, c4, e5);
            lemma_split_at(s, i, c3, e4);
            lemma_split_at(s, i, c2, e3);
            lemma_split_at(s, i, c1, e2);
        },
        None => {
            let c2 = "{\"id\":"@ + "null"@;
            lemma_split_at(s, i, c2, product_null_rest());
            lemma_split_at(s, i, "{\"id\":"@, "null"@);
        },
    }
}

/// The domain object a product row denotes: a direct field copy, with the
/// cents columns carried over exactly.
pub open spec fn spec_product_of(r: ProductRowV) -> ProductV {
    ProductV {
        id: r.id,
        name: r.name,
        description: r.description,
        barcode: r.barcode,
        price_cents: r.price_cents,
        cost_cents: r.cost_cents,
        stock: r.stock,
        created_at: r.created_at,
        updated_at: r.updated_at,
    }
}

/// What the decoder needs around a product object match: each number is
/// followed by a non-digit, and where a value is present the `null`
/// alternative cannot also match.
pub proof fn lemma_product_obj_facts(s: Seq<char>, i: int, op: Option<ProductRowV>)
    requires
        product_obj_at(s, i, op),
    ensures
        (match op {
            Some(p) => {
                let i1 = i + "{\"id\":"@.len() as int;
                let i2 = i1 + enc_i64(p.id).len() as int;
                let i3 = i2 + ",\"name\":"@.len() as int;
                let i4 = i3 + enc_str(p.name).len() as int;
                let i5 = i4 + ",\"description\":"@.len() as int;
                let i6 = i5 + enc_opt_str(p.description).len() as int;
                let i7 = i6 + ",\"barcode\":"@.len() as int;
                let i8 = i7 + enc_str(p.barcode).len() as int;
                let i9 = i8 + ",\"price\":"@.len() as int;
                let i10 = i9 + enc_i64(p.price_cents).len() as int;
                let i11 = i10 + ",\"cost\":"@.len() as int;
                let i12 = i11 + enc_i64(p.cost_cents).len() as int;
                let i13 = i12 + ",\"stock\":"@.len() as int;
                let i14 = i13 + enc_i64(p.stock).len() as int;
                &&& non_digit_after(s, i2)
                &&& non_digit_after(s, i10)
                &&& non_digit_after(s, i12)
                &&& non_digit_after(s, i14)
                &&& !lit_at(s, i1, "null"@)
                &&& (p.description is Some ==> !lit_at(s, i5, "null"@))
                &&& (product_row_fits(p) ==> int_at(s, i1, (p.id as i64) as int) && int_at(
                    s,
                    i9,
                    (p.price_cents as i64) as int,
                ) && int_at(s, i11, (p.cost_cents as i64) as int) && int_at(
                    s,
                    i13,
                    (p.stock as i64) as int,
                ))
            },
            None => true,
        }),
{
    reveal_strlit("null");
    reveal_strlit(",\"name\":");
    reveal_strlit(",\"cost\":");
    reveal_strlit(",\"stock\":");
    reveal_strlit(",\"created_at\":");
    match op {
        Some(p) => {
            let i1 = i + "{\"id\":"@.len() as int;
            let i2 = i1 + enc_i64(p.id).len() as int;
            let i3 = i2 + ",\"name\":"@.len() as int;
            let i4 = i3 + enc_str(p.name).len() as int;
            let i5 = i4 + ",\"description\":"@.len() as int;
            let i6 = i5 + enc_opt_str(p.description).len() as int;
            let i7 = i6 + ",\"barcode\":"@.len() as int;
            let i8 = i7 + enc_str(p.barcode).len() as int;
            let i9 = i8 + ",\"price\":"@.len() as int;
            let i10 = i9 + enc_i64(p.price_cents).len() as int;
            let i11 = i10 + ",\"cost\":"@.len() as int;
            let i12 = i11 + enc_i64(p.cost_cents).len() as int;
            let i13 = i12 + ",\"stock\":"@.len() as int;
            let i14 = i13 + enc_i64(p.stock).len() as int;
            assert(s.subrange(i2, i2 + ",\"name\":"@.len() as int)[0] == s[i2]);
            assert(s[i2] == ',');
            assert(s.subrange(i10, i10 + ",\"cost\":"@.len() as int)[0] == s[i10]);
            assert(s[i10] == ',');
            assert(s.subrange(i12, i12 + ",\"stock\":"@.len() as int)[0] == s[i12]);
            assert(s[i12] == ',');
            assert(s.subrange(i14, i14 + ",\"created_at\":"@.len() as int)[0] == s[i14]);
            assert(s[i14] == ',');
            lemma_int_first_char(s, i1, p.id);
            if lit_at(s, i1, "null"@) {
                assert(s.subrange(i1, i1 + "null"@.len() as int)[0] == s[i1]);
                assert(s[i1] == 'n');
                assert(false);
            }
            match p.description {
                Some(u) => {
                    crate::json::lemma_str_at_close(s, i5, u);
                    if lit_at(s, i5, "null"@) {
                        assert(s.subrange(i5, i5 + "null"@.len() as int)[0] == s[i5]);
                        assert(s[i5] == 'n');
                        assert(false);
                    }
                },
                None => {},
            }
            if product_row_fits(p) {
                assert((p.id as i64) as int == p.id);
                assert((p.price_cents as i64) as int == p.price_cents);
                assert((p.cost_cents as i64) as int == p.cost_cents);
                assert((p.stock as i64) as int == p.stock);
            }
        },
        None => {},
    }
}

/// The first character of an integer encoding is a digit or the minus
/// sign.
pub proof fn lemma_int_first_char(s: Seq<char>, i: int, v: int)
    requires
        int_at(s, i, v),
    ensures
        is_digit(s[i]) || s[i] == '-',
        0 <= i < s.len(),
{
    lemma_dec_digits_digits((if v < 0 { -v } else { v }) as nat);
    assert(s.subrange(i, i + enc_i64(v).len() as int)[0] == s[i]);
    if v < 0 {
        assert(enc_i64(v)[0] == '-');
    } else {
        assert(enc_i64(v)[0] == dec_digits(v as nat)[0]);
        assert(is_digit(dec_digits(v as nat)[0]));
    }
}

/// Appends the query layer's object for an optionally found product row.
#[verifier::rlimit(100)]
pub(crate) fn push_product_obj(out: &mut Vec<char>, op: &Option<ProductRow>)
    ensures
        final(out)@ == old(out)@ + enc_product_obj(
            match *op {
                Some(r) => Some(r@),
                None => None,
            },
        ),
{
    match op {
        Some(r) => {
            push_lit(out, "{\"id\":");
            push_i64(out, r.id);
            push_lit(out, ",\"name\":");
            push_quoted(out, r.name.as_str());
            push_lit(out, ",\"description\":");
            match &r.description {
                Some(d) => push_quoted(out, d.as_str()),
                None => push_lit(out, "null"),
            }
            push_lit(out, ",\"barcode\":");
            push_quoted(out, r.barcode.as_str());
            push_lit(out, ",\"price\":");
            push_i64(out, r.price_cents);
            push_lit(out, ",\"cost\":");
            push_i64(out, r.cost_cents);
            push_lit(out, ",\"stock\":");
            push_i64(out, r.stock);
            push_lit(out, ",\"created_at\":");
            push_quoted(out, r.created_at.as_str());
            push_lit(out, ",\"updated_at\":");
            push_quoted(out, r.updated_at.as_str());
            push_lit(out, "}");
            proof {
                let o = old(out)@;
                let e1 = "{\"id\":"@;
                let e2 = enc_i64(r@.id);
                let e3 = ",\"name\":"@;
                let e4 = enc_str(r@.name);
                let e5 = ",\"description\":"@;
                let e6 = enc_opt_str(r@.description);
                let e7 = ",\"barcode\":"@;
                let e8 = enc_str(r@.barcode);
                let e9 = ",\"price\":"@;
                let e10 = enc_i64(r@.price_cents);
                let e11 = ",\"cost\":"@;
                let e12 = enc_i64(r@.cost_cents);
                let e13 = ",\"stock\":"@;
                let e14 = enc_i64(r@.stock);
                let e15 = ",\"created_at\":"@;
                let e16 = enc_str(r@.created_at);
                let e17 = ",\"updated_at\":"@;
                let e18 = enc_str(r@.updated_at);
                let e19 = "}"@;
                lemma_add_assoc(o, e1, e2);
                lemma_add_assoc(o, e1 + e2, e3);
                lemma_add_assoc(o, e1 + e2 + e3, e4);
                lemma_add_assoc(o, e1 + e2 + e3 + e4, e5);
                lemma_add_assoc(o, e1 + e2 + e3 + e4 + e5, e6);
                lemma_add_assoc(o, e1 + e2 + e3 + e4 + e5 + e6, e7);
                lemma_add_assoc(o, e1 + e2 + e3 + e4 + e5 + e6 + e7, e8);
                lemma_add_assoc(o, e1 + e2 + e3 + e4 + e5 + e6 + e7 + e8, e9);
                lemma_add_assoc(o, e1 + e2 + e3 + e4 + e5 + e6 + e7 + e8 + e9, e10);
                lemma_add_assoc(o, e1 + e2 + e3 + e4 + e5 + e6 + e7 + e8 + e9 + e10, e11);
                lemma_add_assoc(o, e1 + e2 + e3 + e4 + e5 + e6 + e7 + e8 + e9 + e10 + e11, e12);
                lemma_add_assoc(
                    o,
                    e1 + e2 + e3 + e4 + e5 + e6 + e7 + e8 + e9 + e10 + e11 + e12,
                    e13,
                );
                lemma_add_assoc(
                    o,
                    e1 + e2 + e3 + e4 + e5 + e6 + e7 + e8 + e9 + e10 + e11 + e12 + e13,
                    e14,
                );
                lemma_add_assoc(
                    o,
                    e1 + e2 + e3 + e4 + e5 + e6 + e7 + e8 + e9 + e10 + e11 + e12 + e13 + e14,
                    e15,
                );
                lemma_add_assoc(
                    o,
                    e1 + e2 + e3 + e4 + e5 + e6 + e7 + e8 + e9 + e10 + e11 + e12 + e13 + e14
                        + e15,
                    e16,
                );
                lemma_add_assoc(
                    o,
                    e1 + e2 + e3 + e4 + e5 + e6 + e7 + e8 + e9 + e10 + e11 + e12 + e13 + e14
                        + e15 + e16,
                    e17,
                );
                lemma_add_assoc(
                    o,
                    e1 + e2 + e3 + e4 + e5 + e6 + e7 + e8 + e9 + e10 + e11 + e12 + e13 + e14
                        + e15 + e16 + e17,
                    e18,
                );
                lemma_add_assoc(
                    o,
                    e1 + e2 + e3 + e4 + e5 + e6 + e7 + e8 + e9 + e10 + e11 + e12 + e13 + e14
                        + e15 + e16 + e17 + e18,
                    e19,
                );
            }
        },
        None => {
            push_lit(out, "{\"id\":");
            push_lit(out, "null");
            push_lit(out, ",\"name\":null,\"description\":null,\"barcode\":null,\"price\":null,\"cost\":null,\"stock\":null,\"created_at\":null,\"updated_at\":null}");
            proof {
                let o = old(out)@;
                lemma_add_assoc(o, "{\"id\":"@, "null"@);
                lemma_add_assoc(o, "{\"id\":"@ + "null"@, product_null_rest());
                assert(",\"name\":null,\"description\":null,\"barcode\":null,\"price\":null,\"cost\":null,\"stock\":null,\"created_at\":null,\"updated_at\":null}"@
                    == product_null_rest());
            }
        },
    }
}

/// Reads the query layer's product object at `i`: the object of a found
/// row maps to `Some` of its domain product, the all-null object of a
/// missing row to `None`. Text in neither shape is rejected.
#[verifier::rlimit(100)]
pub(crate) fn parse_product_obj(s: &Vec<char>, i: usize) -> (r: Option<(Option<Product>, usize)>)
    ensures
        (match r {
            Some((_, j)) => i <= j <= s@.len(),
            None => true,
        }),
        forall|op: Option<ProductRowV>|
            #![trigger product_obj_at(s@, i as int, op)]
            product_obj_at(s@, i as int, op) && (match op {
                Some(pv) => product_row_fits(pv),
                None => true,
            }) ==> r is Some && r.unwrap().1 == i + enc_product_obj(op).len() && (match op {
                Some(pv) => r.unwrap().0 is Some && r.unwrap().0.unwrap()@ == spec_product_of(pv),
                None => r.unwrap().0 is None,
            }),
{
    let sl = s.len();
    proof {
        assert(s@.len() == sl);
    }
    let j0 = match expect_lit(s, i, "{\"id\":") {
        Some(j) => j,
        None => {
            proof {
                assert forall|op: Option<ProductRowV>|
                    #[trigger] product_obj_at(s@, i as int, op) && (match op {
                        Some(pv) => product_row_fits(pv),
                        None => true,
                    }) implies false by {
                    lemma_product_obj_facts(s@, i as int, op);
                };
            }
            return None;
        },
    };
    match expect_lit(s, j0, "null") {
        Some(j1) => {
            match expect_lit(
                s,
                j1,
                ",\"name\":null,\"description\":null,\"barcode\":null,\"price\":null,\"cost\":null,\"stock\":null,\"created_at\":null,\"updated_at\":null}",
            ) {
                Some(j2) => {
                    proof {
                        assert forall|op: Option<ProductRowV>|
                            #[trigger] product_obj_at(s@, i as int, op) && (match op {
                                Some(pv) => product_row_fits(pv),
                                None => true,
                            }) implies op is None && j2 == i + enc_product_obj(op).len() by {
                            lemma_product_obj_facts(s@, i as int, op);
                            assert(product_null_rest()
                                == ",\"name\":null,\"description\":null,\"barcode\":null,\"price\":null,\"cost\":null,\"stock\":null,\"created_at\":null,\"updated_at\":null}"@);
                        };
                    }
                    Some((None, j2))
                },
                None => {
                    proof {
                        assert forall|op: Option<ProductRowV>|
                            #[trigger] product_obj_at(s@, i as int, op) && (match op {
                                Some(pv) => product_row_fits(pv),
                                None => true,
                            }) implies false by {
                            lemma_product_obj_facts(s@, i as int, op);
                            assert(product_null_rest()
                                == ",\"name\":null,\"description\":null,\"barcode\":null,\"price\":null,\"cost\":null,\"stock\":null,\"created_at\":null,\"updated_at\":null}"@);
                        };
                    }
                    None
                },
            }
        },
        None => {
            let (id_v, j2, ok1): (i64, usize, bool) = match parse_i64(s, j0) {
                Some((v, j)) => (v, j, true),
                None => (0, 0, false),
            };
            let (j3, ok2): (usize, bool) = match expect_lit(s, j2, ",\"name\":") {
                Some(j) => (j, true),
                None => (0, false),
            };
            let (name_v, j4, ok3): (Vec<char>, usize, bool) = match parse_string(s, j3) {
                Some((u, j)) => (u, j, true),
                None => (Vec::new(), 0, false),
            };
            let (j5, ok4): (usize, bool) = match expect_lit(s, j4, ",\"description\":") {
                Some(j) => (j, true),
                None => (0, false),
            };
            let (desc_v, j6, ok5): (Option<Vec<char>>, usize, bool) = match expect_lit(
                s,
                j5,
                "null",
            ) {
                Some(j) => (None, j, true),
                None => {
                    match parse_string(s, j5) {
                        Some((u, j)) => (Some(u), j, true),
                        None => (None, 0, false),
                    }
                },
            };
            let (j7, ok6): (usize, bool) = match expect_lit(s, j6, ",\"barcode\":") {
                Some(j) => (j, true),
                None => (0, false),
            };
            let (barcode_v, j8, ok7): (Vec<char>, usize, bool) = match parse_string(s, j7) {
                Some((u, j)) => (u, j, true),
                None => (Vec::new(), 0, false),
            };
            let (j9, ok8): (usize, bool) = match expect_lit(s, j8, ",\"price\":") {
                Some(j) => (j, true),
                None => (0, false),
            };
            let (price_v, j10, ok9): (i64, usize, bool) = match parse_i64(s, j9) {
                Some((v, j)) => (v, j, true),
                None => (0, 0, false),
            };
            let (j11, ok10): (usize, bool) = match expect_lit(s, j10, ",\"cost\":") {
                Some(j) => (j, true),
                None => (0, false),
            };
            let (cost_v, j12, ok11): (i64, usize, bool) = match parse_i64(s, j11) {
                Some((v, j)) => (v, j, true),
                None => (0, 0, false),
            };
            let (j13, ok12): (usize, bool) = match expect_lit(s, j12, ",\"stock\":") {
                Some(j) => (j, true),
                None => (0, false),
            };
            let (stock_v, j14, ok13): (i64, usize, bool) = match parse_i64(s, j13) {
                Some((v, j)) => (v, j, true),
                None => (0, 0, false),
            };
            let (j15, ok14): (usize, bool) = match expect_lit(s, j14, ",\"created_at\":") {
                Some(j) => (j, true),
                None => (0, false),
            };
            let (ca_v, j16, ok15): (Vec<char>, usize, bool) = match parse_string(s, j15) {
                Some((u, j)) => (u, j, true),
                None => (Vec::new(), 0, false),
            };
            let (j17, ok16): (usize, bool) = match expect_lit(s, j16, ",\"updated_at\":") {
                Some(j) => (j, true),
                None => (0, false),
            };
            let (ua_v, j18, ok17): (Vec<char>, usize, bool) = match parse_string(s, j17) {
                Some((u, j)) => (u, j, true),
                None => (Vec::new(), 0, false),
            };
            let (j19, ok18): (usize, bool) = match expect_lit(s, j18, "}") {
                Some(j) => (j, true),
                None => (0, false),
            };
            let allok = ok1 && ok2 && ok3 && ok4 && ok5 && ok6 && ok7 && ok8 && ok9 && ok10
                && ok11 && ok12 && ok13 && ok14 && ok15 && ok16 && ok17 && ok18;
            proof {
                assert forall|op: Option<ProductRowV>|
                    #[trigger] product_obj_at(s@, i as int, op) && (match op {
                        Some(pv) => product_row_fits(pv),
                        None => true,
                    }) implies op is Some && allok == true && (match op {
                    Some(pv) => {
                        &&& id_v == pv.id
                        &&& name_v@ == pv.name
                        &&& (match (desc_v, pv.description) {
                            (Some(u), Some(d)) => u@ == d,
                            (None, None) => true,
                            _ => false,
                        })
                        &&& barcode_v@ == pv.barcode
                        &&& price_v == pv.price_cents
                        &&& cost_v == pv.cost_cents
                        &&& stock_v == pv.stock
                        &&& ca_v@ == pv.created_at
                        &&& ua_v@ == pv.updated_at
                        &&& j19 == i + enc_product_obj(op).len()
                    },
                    None => false,
                }) by {
                    lemma_product_obj_facts(s@, i as int, op);
                    match op {
                        Some(p) => {
                            let i1 = i + "{\"id\":"@.len() as int;
                            let i2 = i1 + enc_i64(p.id).len() as int;
                            let i3 = i2 + ",\"name\":"@.len() as int;
                            let i4 = i3 + enc_str(p.name).len() as int;
                            let i5 = i4 + ",\"description\":"@.len() as int;
                            let i6 = i5 + enc_opt_str(p.description).len() as int;
                            let i7 = i6 + ",\"barcode\":"@.len() as int;
                            let i8 = i7 + enc_str(p.barcode).len() as int;
                            let i9 = i8 + ",\"price\":"@.len() as int;
                            let i10 = i9 + enc_i64(p.price_cents).len() as int;
                            let i11 = i10 + ",\"cost\":"@.len() as int;
                            let i12 = i11 + enc_i64(p.cost_cents).len() as int;
                            let i13 = i12 + ",\"stock\":"@.len() as int;
                            let i14 = i13 + enc_i64(p.stock).len() as int;
                            assert(int_at(s@, j0 as int, ((p.id as i64) as int)));
                            assert(non_digit_after(
                                s@,
                                j0 + enc_i64((p.id as i64) as int).len(),
                            ));
                            assert(ok1 && j2 as int == i2);
                            assert(ok2 && j3 as int == i3);
                            assert(str_at(s@, j3 as int, p.name));
                            assert(ok3 && j4 as int == i4);
                            assert(ok4 && j5 as int == i5);
                            match p.description {
                                Some(u) => {
                                    assert(str_at(s@, j5 as int, u));
                                },
                                None => {
                                    assert(lit_at(s@, j5 as int, "null"@));
                                },
                            }
                            assert(ok5 && j6 as int == i6);
                            assert(ok6 && j7 as int == i7);
                            assert(str_at(s@, j7 as int, p.barcode));
                            assert(ok7 && j8 as int == i8);
                            assert(ok8 && j9 as int == i9);
                            assert(int_at(s@, j9 as int, ((p.price_cents as i64) as int)));
                            assert(non_digit_after(
                                s@,
                                j9 + enc_i64((p.price_cents as i64) as int).len(),
                            ));
                            assert(ok9 && j10 as int == i10);
                            assert(ok10 && j11 as int == i11);
                            assert(int_at(s@, j11 as int, ((p.cost_cents as i64) as int)));
                            assert(non_digit_after(
                                s@,
                                j11 + enc_i64((p.cost_cents as i64) as int).len(),
                            ));
                            assert(ok11 && j12 as int == i12);
                            assert(ok12 && j13 as int == i13);
                            assert(int_at(s@, j13 as int, ((p.stock as i64) as int)));
                            assert(non_digit_after(
                                s@,
                                j13 + enc_i64((p.stock as i64) as int).len(),
                            ));
                            assert(ok13 && j14 as int == i14);
                            assert(ok14 && j15 as int == i14 + ",\"created_at\":"@.len());
                            assert(str_at(s@, j15 as int, p.created_at));
                            assert(ok15);
                            assert(ok16);
                            assert(str_at(s@, j17 as int, p.updated_at));
                            assert(ok17);
                            assert(ok18);
                        },
                        None => {
                            assert(lit_at(s@, i + "{\"id\":"@.len() as int, "null"@));
                        },
                    }
                };
            }
            if allok {
                let p = Product {
                    id: id_v,
                    name: string_of(&name_v),
                    description: (match desc_v {
                        Some(u) => Some(string_of(&u)),
                        None => None,
                    }),
                    barcode: string_of(&barcode_v),
                    price: Money::from_cents(price_v),
                    cost: Money::from_cents(cost_v),
                    stock: stock_v,
                    created_at: string_of(&ca_v),
                    updated_at: string_of(&ua_v),
                };
                Some((Some(p), j19))
            } else {
                None
            }
        },
    }
}

/// One line of the aggregating join, as handed to the encoder: the line
/// row together with the product row the join found for it, if any.
#[verifier::ext_equal]
pub ghost struct LineJoin {
    pub line: LineRowV,
    pub product: Option<ProductRowV>,
}

/// The line row's numeric fields fit the machine integers.
pub open spec fn line_row_fits(l: LineRowV) -> bool {
    &&& i64::MIN <= l.id <= i64::MAX
    &&& i64::MIN <= l.quantity <= i64::MAX
    &&& i64::MIN <= l.price_cents <= i64::MAX
}

/// A join line's fields fit the machine integers.
pub open spec fn line_join_fits(j: LineJoin) -> bool {
    &&& line_row_fits(j.line)
    &&& (match j.product {
        Some(p) => product_row_fits(p),
        None => true,
    })
}

/// The domain line a join line denotes: the snapshot fields of the line
/// row, no back-reference, and the found product mapped to its domain
/// object.
pub open spec fn spec_line_of_join(j: LineJoin) -> crate::domain::InvoiceLineV {
    crate::domain::InvoiceLineV {
        id: j.line.id,
        name: j.line.name,
        quantity: j.line.quantity,
        price_cents: j.line.price_cents,
        invoice: None,
        product: (match j.product {
            Some(p) => Some(spec_product_of(p)),
            None => None,
        }),
        created_at: j.line.created_at,
        updated_at: j.line.updated_at,
    }
}

/// The tail of the phantom line object a left join without lines emits,
/// after the null id: every field null, including the nested product
/// object.
pub open spec fn line_null_rest() -> Seq<char> {
    ",\"name\":null,\"quantity\":null,\"price\":null,\"product\":"@ + enc_product_obj(None)
        + ",\"created_at\":null,\"updated_at\":null}"@
}

/// The object the query layer emits for one joined line; `None` is the
/// phantom all-null object of an invoice without lines.
pub open spec fn enc_line_obj(oj: Option<LineJoin>) -> Seq<char> {
    match oj {
        Some(j) => "{\"id\":"@ + enc_i64(j.line.id) + ",\"name\":"@ + enc_str(j.line.name)
            + ",\"quantity\":"@ + enc_i64(j.line.quantity) + ",\"price\":"@ + enc_i64(
            j.line.price_cents,
        ) + ",\"product\":"@ + enc_product_obj(j.product) + ",\"created_at\":"@ + enc_str(
            j.line.created_at,
        ) + ",\"updated_at\":"@ + enc_str(j.line.updated_at) + "}"@,
        None => "{\"id\":"@ + "null"@ + line_null_rest(),
    }
}

/// The line object's pieces stand in order at position `i` of `s`.
pub open spec fn line_obj_at(s: Seq<char>, i: int, oj: Option<LineJoin>) -> bool {
    match oj {
        Some(j) => {
            let i1 = i + "{\"id\":"@.len() as int;
            let i2 = i1 + enc_i64(j.line.id).len() as int;
            let i3 = i2 + ",\"name\":"@.len() as int;
            let i4 = i3 + enc_str(j.line.name).len() as int;
            let i5 = i4 + ",\"quantity\":"@.len() as int;
            let i6 = i5 + enc_i64(j.line.quantity).len() as int;
            let i7 = i6 + ",\"price\":"@.len() as int;
            let i8 = i7 + enc_i64(j.line.price_cents).len() as int;
            let i9 = i8 + ",\"product\":"@.len() as int;
            let i10 = i9 + enc_product_obj(j.product).len() as int;
            let i11 = i10 + ",\"created_at\":"@.len() as int;
            let i12 = i11 + enc_str(j.line.created_at).len() as int;
            let i13 = i12 + ",\"updated_at\":"@.len() as int;
            let i14 = i13 + enc_str(j.line.updated_at).len() as int;
            &&& lit_at(s, i, "{\"id\":"@)
            &&& int_at(s, i1, j.line.id)
            &&& lit_at(s, i2, ",\"name\":"@)
            &&& str_at(s, i3, j.line.name)
            &&& lit_at(s, i4, ",\"quantity\":"@)
            &&& int_at(s, i5, j.line.quantity)
            &&& lit_at(s, i6, ",\"price\":"@)
            &&& int_at(s, i7, j.line.price_cents)
            &&& lit_at(s, i8, ",\"product\":"@)
            &&& product_obj_at(s, i9, j.product)
            &&& lit_at(s, i10, ",\"created_at\":"@)
            &&& str_at(s, i11, j.line.created_at)
            &&& lit_at(s, i12, ",\"updated_at\":"@)
            &&& str_at(s, i13, j.line.updated_at)
            &&& lit_at(s, i14, "}"@)
        },
        None => {
            let i1 = i + "{\"id\":"@.len() as int;
            let i2 = i1 + "null"@.len() as int;
            let i3 = i2 + ",\"name\":null,\"quantity\":null,\"price\":null,\"product\":"@.len() as int;
            let i4 = i3 + enc_product_obj(None).len() as int;
            &&& lit_at(s, i, "{\"id\":"@)
            &&& lit_at(s, i1, "null"@)
            &&& lit_at(s, i2, ",\"name\":null,\"quantity\":null,\"price\":null,\"product\":"@)
            &&& product_obj_at(s, i3, None)
            &&& lit_at(s, i4, ",\"created_at\":null,\"updated_at\":null}"@)
        },
    }
}

/// A whole-text match of the line object gives its pieces.
#[verifier::rlimit(60)]
pub proof fn lemma_line_obj_pieces(s: Seq<char>, i: int, oj: Option<LineJoin>)
    requires
        0 <= i,
        i + enc_line_obj(oj).len() <= s.len(),
        s.subrange(i, i + enc_line_obj(oj).len() as int) == enc_line_obj(oj),
    ensures
        line_obj_at(s, i, oj),
{
    match oj {
        Some(j) => {
            let e1 = "{\"id\":"@;
            let e2 = enc_i64(j.line.id);
            let e3 = ",\"name\":"@;
            let e4 = enc_str(j.line.name);
            let e5 = ",\"quantity\":"@;
            let e6 = enc_i64(j.line.quantity);
            let e7 = ",\"price\":"@;
            let e8 = enc_i64(j.line.price_cents);
            let e9 = ",\"product\":"@;
            let e10 = enc_product_obj(j.product);
            let e11 = ",\"created_at\":"@;
            let e12 = enc_str(j.line.created_at);
            let e13 = ",\"updated_at\":"@;
            let e14 = enc_str(j.line.updated_at);
            let e15 = "}"@;
            let c1 = e1;
            let c2 = c1 + e2;
            let c3 = c2 + e3;
            let c4 = c3 + e4;
            let c5 = c4 + e5;
            let c6 = c5 + e6;
            let c7 = c6 + e7;
            let c8 = c7 + e8;
            let c9 = c8 + e9;
            let c10 = c9 + e10;
            let c11 = c10 + e11;
            let c12 = c11 + e12;
            let c13 = c12 + e13;
            let c14 = c13 + e14;
            let c15 = c14 + e15;
            assert(enc_line_obj(oj) == c15);
            lemma_split_at(s, i, c14, e15);
            lemma_split_at(s, i, c13, e14);
            lemma_split_at(s, i, c12, e13);
            lemma_split_at(s, i, c11, e12);
            lemma_split_at(s, i, c10, e11);
            lemma_split_at(s, i, c9, e10);
            lemma_split_at(s, i, c8, e9);
            lemma_split_at(s, i, c7, e8);
            lemma_split_at(s, i, c6, e7);
            lemma_split_at(s, i, c5, e6);
            lemma_split_at(s, i, c4, e5);
            lemma_split_at(s, i, c3, e4);
            lemma_split_at(s, i, c2, e3);
            lemma_split_at(s, i, c1, e2);
            let i9 = i + c9.len() as int;
            lemma_product_obj_pieces(s, i9, j.product);
        },
        None => {
            let e1 = "{\"id\":"@;
            let e2 = "null"@;
            let e3 = ",\"name\":null,\"quantity\":null,\"price\":null,\"product\":"@;
            let e4 = enc_product_obj(None);
            let e5 = ",\"created_at\":null,\"updated_at\":null}"@;
            let c1 = e1;
            let c2 = c1 + e2;
            let c3 = c2 + e3;
            let c4 = c3 + e4;
            let c5 = c4 + e5;
            assert(line_null_rest() == e3 + e4 + e5);
            assert(enc_line_obj(oj) == c2 + line_null_rest());
            assert(enc_line_obj(oj) =~= c5) by {
                lemma_add_assoc(c2, e3, e4);
                lemma_add_assoc(c2, e3 + e4, e5);
                lemma_add_assoc(e3, e4, e5);
            }
            lemma_split_at(s, i, c4, e5);
            lemma_split_at(s, i, c3, e4);
            lemma_split_at(s, i, c2, e3);
            lemma_split_at(s, i, c1, e2);
            let i3 = i + c3.len() as int;
            lemma_product_obj_pieces(s, i3, None);
        },
    }
}

/// What the decoder needs around a line object match.
pub proof fn lemma_line_obj_facts(s: Seq<char>, i: int, oj: Option<LineJoin>)
    requires
        line_obj_at(s, i, oj),
    ensures
        (match oj {
            Some(j) => {
                let i1 = i + "{\"id\":"@.len() as int;
                let i2 = i1 + enc_i64(j.line.id).len() as int;
                let i3 = i2 + ",\"name\":"@.len() as int;
                let i4 = i3 + enc_str(j.line.name).len() as int;
                let i5 = i4 + ",\"quantity\":"@.len() as int;
                let i6 = i5 + enc_i64(j.line.quantity).len() as int;
                let i7 = i6 + ",\"price\":"@.len() as int;
                let i8 = i7 + enc_i64(j.line.price_cents).len() as int;
                &&& non_digit_after(s, i2)
                &&& non_digit_after(s, i6)
                &&& non_digit_after(s, i8)
                &&& !lit_at(s, i1, "null"@)
                &&& (line_row_fits(j.line) ==> int_at(s, i1, (j.line.id as i64) as int) && int_at(
                    s,
                    i5,
                    (j.line.quantity as i64) as int,
                ) && int_at(s, i7, (j.line.price_cents as i64) as int))
            },
            None => true,
        }),
{
    reveal_strlit("null");
    reveal_strlit(",\"name\":");
    reveal_strlit(",\"price\":");
    reveal_strlit(",\"product\":");
    match oj {
        Some(j) => {
            let i1 = i + "{\"id\":"@.len() as int;
            let i2 = i1 + enc_i64(j.line.id).len() as int;
            let i3 = i2 + ",\"name\":"@.len() as int;
            let i4 = i3 + enc_str(j.line.name).len() as int;
            let i5 = i4 + ",\"quantity\":"@.len() as int;
            let i6 = i5 + enc_i64(j.line.quantity).len() as int;
            let i7 = i6 + ",\"price\":"@.len() as int;
            let i8 = i7 + enc_i64(j.line.price_cents).len() as int;
            assert(s.subrange(i2, i2 + ",\"name\":"@.len() as int)[0] == s[i2]);
            assert(s[i2] == ',');
            assert(s.subrange(i6, i6 + ",\"price\":"@.len() as int)[0] == s[i6]);
            assert(s[i6] == ',');
            assert(s.subrange(i8, i8 + ",\"product\":"@.len() as int)[0] == s[i8]);
            assert(s[i8] == ',');
            lemma_int_first_char(s, i1, j.line.id);
            if lit_at(s, i1, "null"@) {
                assert(s.subrange(i1, i1 + "null"@.len() as int)[0] == s[i1]);
                assert(s[i1] == 'n');
                assert(false);
            }
            if line_row_fits(j.line) {
                assert((j.line.id as i64) as int == j.line.id);
                assert((j.line.quantity as i64) as int == j.line.quantity);
                assert((j.line.price_cents as i64) as int == j.line.price_cents);
            }
        },
        None => {},
    }
}

/// Reads one joined-line object at `i`: a real line maps to `Some` of its
/// domain line, the phantom all-null object to `None`.
#[verifier::rlimit(100)]
pub(crate) fn parse_line_obj(s: &Vec<char>, i: usize) -> (r: Option<
    (Option<crate::domain::InvoiceLine>, usize),
>)
    ensures
        (match r {
            Some((_, j)) => i <= j <= s@.len(),
            None => true,
        }),
        forall|oj: Option<LineJoin>|
            #![trigger line_obj_at(s@, i as int, oj)]
            line_obj_at(s@, i as int, oj) && (match oj {
                Some(jn) => line_join_fits(jn),
                None => true,
            }) ==> r is Some && r.unwrap().1 == i + enc_line_obj(oj).len() && (match oj {
                Some(jn) => r.unwrap().0 is Some && r.unwrap().0.unwrap()@ == spec_line_of_join(
                    jn,
                ),
                None => r.unwrap().0 is None,
            }),
{
    let sl = s.len();
    proof {
        assert(s@.len() == sl);
    }
    let j0 = match expect_lit(s, i, "{\"id\":") {
        Some(j) => j,
        None => {
            proof {
                assert forall|oj: Option<LineJoin>|
                    #[trigger] line_obj_at(s@, i as int, oj) && (match oj {
                        Some(jn) => line_join_fits(jn),
                        None => true,
                    }) implies false by {
                    lemma_line_obj_facts(s@, i as int, oj);
                };
            }
            return None;
        },
    };
    match expect_lit(s, j0, "null") {
        Some(j1) => {
            let (j2, okn1): (usize, bool) = match expect_lit(
                s,
                j1,
                ",\"name\":null,\"quantity\":null,\"price\":null,\"product\":",
            ) {
                Some(j) => (j, true),
                None => (0, false),
            };
            let (pr, j3, okn2): (Option<Product>, usize, bool) = match parse_product_obj(s, j2) {
                Some((p, j)) => (p, j, true),
                None => (None, 0, false),
            };
            let (j4, okn3): (usize, bool) = match expect_lit(
                s,
                j3,
                ",\"created_at\":null,\"updated_at\":null}",
            ) {
                Some(j) => (j, true),
                None => (0, false),
            };
            let allok = okn1 && okn2 && okn3;
            proof {
                assert forall|oj: Option<LineJoin>|
                    #[trigger] line_obj_at(s@, i as int, oj) && (match oj {
                        Some(jn) => line_join_fits(jn),
                        None => true,
                    }) implies oj is None && allok == true && j4 == i + enc_line_obj(oj).len() by {
                    lemma_line_obj_facts(s@, i as int, oj);
                    match oj {
                        Some(jn) => {
                            assert(false);
                        },
                        None => {
                            assert(lit_at(s@, i + "{\"id\":"@.len() as int, "null"@));
                            assert(product_obj_at(s@, j2 as int, None));
                        },
                    }
                };
            }
            if allok {
                Some((None, j4))
            } else {
                None
            }
        },
        None => {
            let (id_v, j2, ok1): (i64, usize, bool) = match parse_i64(s, j0) {
                Some((v, j)) => (v, j, true),
                None => (0, 0, false),
            };
            let (j3, ok2): (usize, bool) = match expect_lit(s, j2, ",\"name\":") {
                Some(j) => (j, true),
                None => (0, false),
            };
            let (name_v, j4, ok3): (Vec<char>, usize, bool) = match parse_string(s, j3) {
                Some((u, j)) => (u, j, true),
                None => (Vec::new(), 0, false),
            };
            let (j5, ok4): (usize, bool) = match expect_lit(s, j4, ",\"quantity\":") {
                Some(j) => (j, true),
                None => (0, false),
            };
            let (qty_v, j6, ok5): (i64, usize, bool) = match parse_i64(s, j5) {
                Some((v, j)) => (v, j, true),
                None => (0, 0, false),
            };
            let (j7, ok6): (usize, bool) = match expect_lit(s, j6, ",\"price\":") {
                Some(j) => (j, true),
                None => (0, false),
            };
            let (price_v, j8, ok7): (i64, usize, bool) = match parse_i64(s, j7) {
                Some((v, j)) => (v, j, true),
                None => (0, 0, false),
            };
            let (j9, ok8): (usize, bool) = match expect_lit(s, j8, ",\"product\":") {
                Some(j) => (j, true),
                None => (0, false),
            };
            let (prod_v, j10, ok9): (Option<Product>, usize, bool) = match parse_product_obj(
                s,
                j9,
            ) {
                Some((p, j)) => (p, j, true),
                None => (None, 0, false),
            };
            let (j11, ok10): (usize, bool) = match expect_lit(s, j10, ",\"created_at\":") {
                Some(j) => (j, true),
                None => (0, false),
            };
            let (ca_v, j12, ok11): (Vec<char>, usize, bool) = match parse_string(s, j11) {
                Some((u, j)) => (u, j, true),
                None => (Vec::new(), 0, false),
            };
            let (j13, ok12): (usize, bool) = match expect_lit(s, j12, ",\"updated_at\":") {
                Some(j) => (j, true),
                None => (0, false),
            };
            let (ua_v, j14, ok13): (Vec<char>, usize, bool) = match parse_string(s, j13) {
                Some((u, j)) => (u, j, true),
                None => (Vec::new(), 0, false),
            };
            let (j15, ok14): (usize, bool) = match expect_lit(s, j14, "}") {
                Some(j) => (j, true),
                None => (0, false),
            };
            let allok = ok1 && ok2 && ok3 && ok4 && ok5 && ok6 && ok7 && ok8 && ok9 && ok10
                && ok11 && ok12 && ok13 && ok14;
            proof {
                assert forall|oj: Option<LineJoin>|
                    #[trigger] line_obj_at(s@, i as int, oj) && (match oj {
                        Some(jn) => line_join_fits(jn),
                        None => true,
                    }) implies oj is Some && allok == true && (match oj {
                    Some(jn) => {
                        &&& id_v == jn.line.id
                        &&& name_v@ == jn.line.name
                        &&& qty_v == jn.line.quantity
                        &&& price_v == jn.line.price_cents
                        &&& (match (prod_v, jn.product) {
                            (Some(ref p), Some(pv)) => p@ == spec_product_of(pv),
                            (None, None) => true,
                            _ => false,
                        })
                        &&& ca_v@ == jn.line.created_at
                        &&& ua_v@ == jn.line.updated_at
                        &&& j15 == i + enc_line_obj(oj).len()
                    },
                    None => false,
                }) by {
                    lemma_line_obj_facts(s@, i as int, oj);
                    match oj {
                        Some(jn) => {
                            let i1 = i + "{\"id\":"@.len() as int;
                            let i2 = i1 + enc_i64(jn.line.id).len() as int;
                            let i3 = i2 + ",\"name\":"@.len() as int;
                            let i4 = i3 + enc_str(jn.line.name).len() as int;
                            let i5 = i4 + ",\"quantity\":"@.len() as int;
                            let i6 = i5 + enc_i64(jn.line.quantity).len() as int;
                            let i7 = i6 + ",\"price\":"@.len() as int;
                            let i8 = i7 + enc_i64(jn.line.price_cents).len() as int;
                            let i9 = i8 + ",\"product\":"@.len() as int;
                            let i10 = i9 + enc_product_obj(jn.product).len() as int;
                            assert(int_at(s@, j0 as int, ((jn.line.id as i64) as int)));
                            assert(non_digit_after(
                                s@,
                                j0 + enc_i64((jn.line.id as i64) as int).len(),
                            ));
                            assert(ok1 && j2 as int == i2);
                            assert(ok2 && j3 as int == i3);
                            assert(str_at(s@, j3 as int, jn.line.name));
                            assert(ok3 && j4 as int == i4);
                            assert(ok4 && j5 as int == i5);
                            assert(int_at(s@, j5 as int, ((jn.line.quantity as i64) as int)));
                            assert(non_digit_after(
                                s@,
                                j5 + enc_i64((jn.line.quantity as i64) as int).len(),
                            ));
                            assert(ok5 && j6 as int == i6);
                            assert(ok6 && j7 as int == i7);
                            assert(int_at(s@, j7 as int, ((jn.line.price_cents as i64) as int)));
                            assert(non_digit_after(
                                s@,
                                j7 + enc_i64((jn.line.price_cents as i64) as int).len(),
                            ));
                            assert(ok7 && j8 as int == i8);
                            assert(ok8 && j9 as int == i9);
                            assert(product_obj_at(s@, j9 as int, jn.product));
                            assert(ok9 && j10 as int == i10);
                            assert(ok10);
                            assert(str_at(s@, j11 as int, jn.line.created_at));
                            assert(ok11);
                            assert(ok12);
                            assert(str_at(s@, j13 as int, jn.line.updated_at));
                            assert(ok13);
                            assert(ok14);
                        },
                        None => {
                            assert(lit_at(s@, i + "{\"id\":"@.len() as int, "null"@));
                        },
                    }
                };
            }
            if allok {
                let ln = crate::domain::InvoiceLine {
                    id: id_v,
                    name: string_of(&name_v),
                    quantity: qty_v,
                    price: Money::from_cents(price_v),
                    invoice: None,
                    product: prod_v,
                    created_at: string_of(&ca_v),
                    updated_at: string_of(&ua_v),
                };
                Some((Some(ln), j15))
            } else {
                None
            }
        },
    }
}

/// Appends the query layer's object for one joined line.
#[verifier::rlimit(100)]
pub(crate) fn push_line_obj(out: &mut Vec<char>, line: &LineRow, product: &Option<ProductRow>)
    ensures
        final(out)@ == old(out)@ + enc_line_obj(
            Some(
                LineJoin {
                    line: line@,
                    product: (match *product {
                        Some(p) => Some(p@),
                        None => None,
                    }),
                },
            ),
        ),
{
    push_lit(out, "{\"id\":");
    push_i64(out, line.id);
    push_lit(out, ",\"name\":");
    push_quoted(out, line.name.as_str());
    push_lit(out, ",\"quantity\":");
    push_i64(out, line.quantity);
    push_lit(out, ",\"price\":");
    push_i64(out, line.price_cents);
    push_lit(out, ",\"product\":");
    push_product_obj(out, product);
    push_lit(out, ",\"created_at\":");
    push_quoted(out, line.created_at.as_str());
    push_lit(out, ",\"updated_at\":");
    push_quoted(out, line.updated_at.as_str());
    push_lit(out, "}");
    proof {
        let o = old(out)@;
        let jn = LineJoin {
            line: line@,
            product: (match product {
                Some(p) => Some(p@),
                None => None,
            }),
        };
        let e1 = "{\"id\":"@;
        let e2 = enc_i64(jn.line.id);
        let e3 = ",\"name\":"@;
        let e4 = enc_str(jn.line.name);
        let e5 = ",\"quantity\":"@;
        let e6 = enc_i64(jn.line.quantity);
        let e7 = ",\"price\":"@;
        let e8 = enc_i64(jn.line.price_cents);
        let e9 = ",\"product\":"@;
        let e10 = enc_product_obj(jn.product);
        let e11 = ",\"created_at\":"@;
        let e12 = enc_str(jn.line.created_at);
        let e13 = ",\"updated_at\":"@;
        let e14 = enc_str(jn.line.updated_at);
        let e15 = "}"@;
        lemma_add_assoc(o, e1, e2);
        lemma_add_assoc(o, e1 + e2, e3);
        lemma_add_assoc(o, e1 + e2 + e3, e4);
        lemma_add_assoc(o, e1 + e2 + e3 + e4, e5);
        lemma_add_assoc(o, e1 + e2 + e3 + e4 + e5, e6);
        lemma_add_assoc(o, e1 + e2 + e3 + e4 + e5 + e6, e7);
        lemma_add_assoc(o, e1 + e2 + e3 + e4 + e5 + e6 + e7, e8);
        lemma_add_assoc(o, e1 + e2 + e3 + e4 + e5 + e6 + e7 + e8, e9);
        lemma_add_assoc(o, e1 + e2 + e3 + e4 + e5 + e6 + e7 + e8 + e9, e10);
        lemma_add_assoc(o, e1 + e2 + e3 + e4 + e5 + e6 + e7 + e8 + e9 + e10, e11);
        lemma_add_assoc(o, e1 + e2 + e3 + e4 + e5 + e6 + e7 + e8 + e9 + e10 + e11, e12);
        lemma_add_assoc(o, e1 + e2 + e3 + e4 + e5 + e6 + e7 + e8 + e9 + e10 + e11 + e12, e13);
        lemma_add_assoc(
            o,
            e1 + e2 + e3 + e4 + e5 + e6 + e7 + e8 + e9 + e10 + e11 + e12 + e13,
            e14,
        );
        lemma_add_assoc(
            o,
            e1 + e2 + e3 + e4 + e5 + e6 + e7 + e8 + e9 + e10 + e11 + e12 + e13 + e14,
            e15,
        );
    }
}

/// Appends the phantom all-null line object.
pub(crate) fn push_phantom_line(out: &mut Vec<char>)
    ensures
        final(out)@ == old(out)@ + enc_line_obj(None),
{
    push_lit(out, "{\"id\":");
    push_lit(out, "null");
    push_lit(out, ",\"name\":null,\"quantity\":null,\"price\":null,\"product\":");
    let none_row: Option<ProductRow> = None;
    push_product_obj(out, &none_row);
    push_lit(out, ",\"created_at\":null,\"updated_at\":null}");
    proof {
        let o = old(out)@;
        let e1 = "{\"id\":"@;
        let e2 = "null"@;
        let e3 = ",\"name\":null,\"quantity\":null,\"price\":null,\"product\":"@;
        let e4 = enc_product_obj(None);
        let e5 = ",\"created_at\":null,\"updated_at\":null}"@;
        lemma_add_assoc(o, e1, e2);
        lemma_add_assoc(o, e1 + e2, e3);
        lemma_add_assoc(o, e1 + e2 + e3, e4);
        lemma_add_assoc(o, e1 + e2 + e3 + e4, e5);
        lemma_add_assoc(e3, e4, e5);
        assert(line_null_rest() == e3 + e4 + e5);
        lemma_add_assoc(e1 + e2, e3 + e4, e5);
        assert((e1 + e2) + (e3 + (e4 + e5)) =~= (e1 + e2) + ((e3 + e4) + e5));
        lemma_add_assoc(e1, e2, line_null_rest());
        assert(enc_line_obj(None) =~= e1 + e2 + e3 + e4 + e5);
        lemma_add_assoc(o, e1 + e2, line_null_rest());
        assert(final(out)@ =~= o + enc_line_obj(None));
    }
}

/// The exec shape of one joined line.
pub open spec fn join_view(t: (LineRow, Option<ProductRow>)) -> LineJoin {
    LineJoin {
        line: t.0@,
        product: (match t.1 {
            Some(p) => Some(p@),
            None => None,
        }),
    }
}

/// The views of the joined lines.
pub open spec fn join_views(v: Seq<(LineRow, Option<ProductRow>)>) -> Seq<LineJoin> {
    v.map_values(|t: (LineRow, Option<ProductRow>)| join_view(t))
}

/// The grouped array body: the joined lines' objects, separated by
/// commas.
pub open spec fn enc_items(js: Seq<LineJoin>) -> Seq<char>
    decreases js.len(),
{
    if js.len() == 0 {
        Seq::empty()
    } else {
        enc_items(js.drop_last()) + (if js.len() == 1 {
            Seq::<char>::empty()
        } else {
            ","@
        }) + enc_line_obj(Some(js.last()))
    }
}

/// The grouped array column for an invoice's joined lines: the line
/// objects in order, or the single phantom object when the invoice has no
/// lines.
pub open spec fn enc_lines_array(js: Seq<LineJoin>) -> Seq<char> {
    "["@ + (if js.len() == 0 {
        enc_line_obj(None)
    } else {
        enc_items(js)
    }) + "]"@
}

/// Every joined line fits the machine integers.
pub open spec fn joins_fit(js: Seq<LineJoin>) -> bool {
    forall|k: int| 0 <= k < js.len() ==> line_join_fits(#[trigger] js[k])
}

/// Encoding one more item appends its separator and object.
pub proof fn lemma_items_take_succ(js: Seq<LineJoin>, k: int)
    requires
        0 <= k < js.len(),
    ensures
        enc_items(js.take(k + 1)) == enc_items(js.take(k)) + (if k == 0 {
            Seq::<char>::empty()
        } else {
            ","@
        }) + enc_line_obj(Some(js[k])),
{
    let q = js.take(k + 1);
    assert(q.len() == k + 1);
    assert(q.drop_last() =~= js.take(k));
    assert(q.last() == js[k]);
}

/// The encoding of the first items is a prefix of the whole body.
pub proof fn lemma_items_prefix(js: Seq<LineJoin>, k: int)
    requires
        0 <= k <= js.len(),
    ensures
        enc_items(js.take(k)).len() + (js.len() - k) <= enc_items(js).len(),
        forall|q: int|
            0 <= q < enc_items(js.take(k)).len() ==> #[trigger] enc_items(js.take(k))[q]
                == enc_items(js)[q],
    decreases js.len() - k,
{
    if k == js.len() {
        assert(js.take(k) =~= js);
    } else {
        lemma_items_prefix(js, k + 1);
        lemma_items_take_succ(js, k);
        assert(enc_line_obj(Some(js[k])).len() >= 1) by {
            reveal_strlit("{\"id\":");
        }
        assert forall|q: int| 0 <= q < enc_items(js.take(k)).len() implies #[trigger] enc_items(
            js.take(k),
        )[q] == enc_items(js)[q] by {
            assert(enc_items(js.take(k + 1))[q] == enc_items(js.take(k))[q]);
            assert(enc_items(js.take(k + 1))[q] == enc_items(js)[q]);
        };
    }
}

/// Appends the grouped array column for the joined lines.
pub(crate) fn push_lines_array(out: &mut Vec<char>, joins: &Vec<(LineRow, Option<ProductRow>)>)
    ensures
        final(out)@ == old(out)@ + enc_lines_array(join_views(joins@)),
{
    let ghost js = join_views(joins@);
    push_lit(out, "[");
    if joins.len() == 0 {
        push_phantom_line(out);
        push_lit(out, "]");
        proof {
            lemma_add_assoc(old(out)@, "["@, enc_line_obj(None));
            lemma_add_assoc(old(out)@, "["@ + enc_line_obj(None), "]"@);
            lemma_add_assoc("["@, enc_line_obj(None), "]"@);
            assert(out@ =~= old(out)@ + enc_lines_array(js));
        }
        return ;
    }
    let mut k: usize = 0;
    while k < joins.len()
        invariant
            1 <= joins.len(),
            k <= joins.len(),
            js == join_views(joins@),
            js.len() == joins@.len(),
            out@ == old(out)@ + ("["@ + enc_items(js.take(k as int))),
        decreases joins.len() - k,
    {
        let ghost pre = out@;
        if k > 0 {
            push_lit(out, ",");
        }
        let jrow = &joins[k];
        push_line_obj(out, &jrow.0, &jrow.1);
        proof {
            lemma_items_take_succ(js, k as int);
            assert(js[k as int] == join_view(joins@[k as int]));
            let o1 = "["@ + enc_items(js.take(k as int));
            let a = enc_items(js.take(k as int));
            let ob = enc_line_obj(Some(js[k as int]));
            if k == 0 {
                assert(a =~= Seq::<char>::empty());
                assert(a + Seq::<char>::empty() =~= a);
                assert(enc_items(js.take(1)) =~= a + ob);
                assert(out@ =~= old(out)@ + ("["@ + enc_items(js.take(k as int + 1))));
            } else {
                assert(out@ == (pre + ","@) + ob);
                lemma_add_assoc(pre, ","@, ob);
                lemma_add_assoc(old(out)@, o1, ","@ + ob);
                lemma_add_assoc("["@, a, ","@ + ob);
                assert(enc_items(js.take(k as int + 1)) =~= a + (","@ + ob));
                assert(out@ =~= old(out)@ + ("["@ + enc_items(js.take(k as int + 1))));
            }
        }
        k = k + 1;
    }
    push_lit(out, "]");
    proof {
        assert(js.take(js.len() as int) =~= js);
        lemma_add_assoc(old(out)@, "["@ + enc_items(js), "]"@);
        lemma_add_assoc("["@, enc_items(js), "]"@);
        assert(out@ =~= old(out)@ + enc_lines_array(js));
    }
}

/// The grouped array stands, whole, at position `i` of `s`.
pub open spec fn lines_array_at(s: Seq<char>, i: int, js: Seq<LineJoin>) -> bool {
    &&& 0 <= i
    &&& i + enc_lines_array(js).len() <= s.len()
    &&& s.subrange(i, i + enc_lines_array(js).len() as int) == enc_lines_array(js)
}

/// The views of a vector of decoded lines.
pub open spec fn line_views(v: Seq<crate::domain::InvoiceLine>) -> Seq<
    crate::domain::InvoiceLineV,
> {
    v.map_values(|l: crate::domain::InvoiceLine| l@)
}

/// A part standing inside a matched whole stands in the text.
pub proof fn lemma_part_at(s: Seq<char>, i: int, whole: Seq<char>, off: int, part: Seq<char>)
    requires
        0 <= i,
        i + whole.len() <= s.len(),
        s.subrange(i, i + whole.len() as int) == whole,
        0 <= off,
        off + part.len() <= whole.len(),
        forall|q: int| 0 <= q < part.len() ==> #[trigger] part[q] == whole[off + q],
    ensures
        s.subrange(i + off, i + off + part.len() as int) == part,
{
    assert forall|q: int| 0 <= q < part.len() implies #[trigger] s.subrange(
        i + off,
        i + off + part.len() as int,
    )[q] == part[q] by {
        assert(s.subrange(i, i + whole.len() as int)[off + q] == s[i + off + q]);
        assert(s.subrange(i + off, i + off + part.len() as int)[q] == s[i + off + q]);
    };
    assert(s.subrange(i + off, i + off + part.len() as int) =~= part);
}

/// The opening of a matched array: the bracket, and the first object.
#[verifier::rlimit(100)]
pub proof fn lemma_array_open(s: Seq<char>, i: int, js: Seq<LineJoin>)
    requires
        lines_array_at(s, i, js),
    ensures
        0 <= i < s.len(),
        s[i] == '[',
        js.len() == 0 ==> line_obj_at(s, i + 1, None) && i + 1 + enc_line_obj(None).len()
            < s.len() && s[i + 1 + enc_line_obj(None).len()] == ']' && enc_lines_array(js).len()
            == 2 + enc_line_obj(None).len(),
        js.len() >= 1 ==> line_obj_at(s, i + 1, Some(js[0])),
{
    reveal_strlit("[");
    reveal_strlit("]");
    let whole = enc_lines_array(js);
    let body = if js.len() == 0 {
        enc_line_obj(None)
    } else {
        enc_items(js)
    };
    assert(whole == "["@ + body + "]"@);
    assert(s.subrange(i, i + whole.len() as int)[0] == s[i]);
    assert(whole[0] == '[');
    if js.len() == 0 {
        assert forall|q: int| 0 <= q < body.len() implies #[trigger] body[q] == whole[1 + q] by {
            assert(whole[1 + q] == ("["@ + body)[1 + q]);
        };
        lemma_part_at(s, i, whole, 1, body);
        lemma_line_obj_pieces(s, i + 1, None);
        assert(s.subrange(i, i + whole.len() as int)[1 + body.len() as int] == s[i + 1 + body.len() as int]);
        assert(whole[1 + body.len() as int] == ']');
    } else {
        lemma_items_prefix(js, 1);
        lemma_items_take_succ(js, 0);
        let part = enc_line_obj(Some(js[0]));
        assert(enc_items(js.take(1)) =~= part) by {
            assert(enc_items(js.take(0)) =~= Seq::<char>::empty());
            assert(enc_items(js.take(1)) == enc_items(js.take(0)) + Seq::<char>::empty() + part);
        }
        assert forall|q: int| 0 <= q < part.len() implies #[trigger] part[q] == whole[1 + q] by {
            assert(enc_items(js.take(1))[q] == part[q]);
            assert(enc_items(js)[q] == enc_items(js.take(1))[q]);
            assert(whole[1 + q] == ("["@ + body)[1 + q]);
        };
        lemma_part_at(s, i, whole, 1, part);
        lemma_line_obj_pieces(s, i + 1, Some(js[0]));
    }
}

/// The separator and object of the `k`-th joined line inside a matched
/// array.
#[verifier::rlimit(100)]
pub proof fn lemma_array_step(s: Seq<char>, i: int, js: Seq<LineJoin>, k: int)
    requires
        lines_array_at(s, i, js),
        1 <= k < js.len(),
    ensures
        0 <= i + 1 + enc_items(js.take(k)).len() < s.len(),
        s[i + 1 + enc_items(js.take(k)).len()] == ',',
        line_obj_at(s, i + 2 + enc_items(js.take(k)).len(), Some(js[k])),
{
    reveal_strlit(",");
    reveal_strlit("[");
    reveal_strlit("]");
    let whole = enc_lines_array(js);
    let body = enc_items(js);
    assert(whole == "["@ + body + "]"@);
    lemma_items_prefix(js, k + 1);
    lemma_items_take_succ(js, k);
    let a = enc_items(js.take(k));
    let part = enc_line_obj(Some(js[k]));
    assert(enc_items(js.take(k + 1)) == a + ","@ + part);
    assert(enc_items(js.take(k + 1))[a.len() as int] == ',') by {
        assert((a + ","@)[a.len() as int] == ','); 
    }
    lemma_items_prefix(js, k);
    assert(body[a.len() as int] == ',') by {
        assert(enc_items(js.take(k + 1))[a.len() as int] == body[a.len() as int]) by {
            assert(a.len() < enc_items(js.take(k + 1)).len());
        }
    }
    assert(s.subrange(i, i + whole.len() as int)[1 + a.len() as int] == s[i + 1 + a.len()]);
    assert(whole[1 + a.len() as int] == body[a.len() as int]) by {
        assert(whole[1 + a.len() as int] == ("["@ + body)[1 + a.len() as int]);
    }
    assert forall|q: int| 0 <= q < part.len() implies #[trigger] part[q] == whole[2 + a.len() + q]
        by {
        assert((a + ","@ + part)[a.len() + 1 + q] == part[q]);
        assert(enc_items(js.take(k + 1))[a.len() + 1 + q] == body[a.len() + 1 + q]);
        assert(whole[2 + a.len() + q] == ("["@ + body)[1 + a.len() + 1 + q]);
    };
    lemma_part_at(s, i, whole, 2 + a.len() as int, part);
    lemma_line_obj_pieces(s, i + 2 + a.len() as int, Some(js[k]));
}

/// The closing bracket of a matched non-empty array.
pub proof fn lemma_array_end(s: Seq<char>, i: int, js: Seq<LineJoin>)
    requires
        lines_array_at(s, i, js),
        js.len() >= 1,
    ensures
        enc_lines_array(js).len() == enc_items(js).len() + 2,
        0 <= i + 1 + enc_items(js).len() < s.len(),
        s[i + 1 + enc_items(js).len()] == ']',
{
    reveal_strlit("[");
    reveal_strlit("]");
    let whole = enc_lines_array(js);
    let body = enc_items(js);
    assert(whole == "["@ + body + "]"@);
    assert(s.subrange(i, i + whole.len() as int)[1 + body.len() as int] == s[i + 1 + body.len() as int]);
    assert(whole[1 + body.len() as int] == ']');
}

/// Reads the grouped array column: the joined lines in order, or nothing
/// for the phantom object of an invoice without lines.
#[verifier::rlimit(100)]
pub(crate) fn parse_lines_array(s: &Vec<char>, i: usize) -> (r: Option<
    (Vec<crate::domain::InvoiceLine>, usize),
>)
    ensures
        (match r {
            Some((_, j)) => i <= j <= s@.len(),
            None => true,
        }),
        forall|js: Seq<LineJoin>|
            #![trigger lines_array_at(s@, i as int, js)]
            lines_array_at(s@, i as int, js) && joins_fit(js) ==> r is Some && r.unwrap().1 == i
                + enc_lines_array(js).len() && line_views(r.unwrap().0@) == js.map_values(
                |j: LineJoin| spec_line_of_join(j),
            ),
{
    let sl = s.len();
    proof {
        assert(s@.len() == sl);
    }
    if i >= sl || s[i] != '[' {
        proof {
            assert forall|js: Seq<LineJoin>|
                #[trigger] lines_array_at(s@, i as int, js) && joins_fit(js) implies false by {
                lemma_array_open(s@, i as int, js);
            };
        }
        return None;
    }
    match parse_line_obj(s, i + 1) {
        None => {
            proof {
                assert forall|js: Seq<LineJoin>|
                    #[trigger] lines_array_at(s@, i as int, js) && joins_fit(js) implies false by {
                    lemma_array_open(s@, i as int, js);
                };
            }
            None
        },
        Some((None, j1)) => {
            if j1 < sl && s[j1] == ']' {
                let r: Vec<crate::domain::InvoiceLine> = Vec::new();
                proof {
                    assert forall|js: Seq<LineJoin>|
                        #[trigger] lines_array_at(s@, i as int, js) && joins_fit(js) implies
                        js.len() == 0 && j1 + 1 == i + enc_lines_array(js).len() && line_views(
                        r@,
                    ) == js.map_values(|j: LineJoin| spec_line_of_join(j)) by {
                        lemma_array_open(s@, i as int, js);
                        if js.len() >= 1 {
                            assert(false);
                        }
                        assert(line_views(r@) =~= js.map_values(
                            |j: LineJoin| spec_line_of_join(j),
                        ));
                    };
                }
                Some((r, j1 + 1))
            } else {
                proof {
                    assert forall|js: Seq<LineJoin>|
                        #[trigger] lines_array_at(s@, i as int, js) && joins_fit(js) implies false
                        by {
                        lemma_array_open(s@, i as int, js);
                        if js.len() >= 1 {
                            assert(false);
                        }
                    };
                }
                None
            }
        },
        Some((Some(ln0), j1)) => {
            let mut acc: Vec<crate::domain::InvoiceLine> = Vec::new();
            acc.push(ln0);
            let mut j: usize = j1;
            proof {
                assert forall|js: Seq<LineJoin>|
                    #[trigger] lines_array_at(s@, i as int, js) && joins_fit(js) implies js.len()
                    >= 1 && 1 <= js.len() && j == i + 1 + enc_items(js.take(1)).len()
                    && line_views(acc@) == js.take(1).map_values(
                    |jx: LineJoin| spec_line_of_join(jx),
                ) by {
                    lemma_array_open(s@, i as int, js);
                    if js.len() == 0 {
                        assert(false);
                    }
                    assert(line_join_fits(js[0]));
                    lemma_items_take_succ(js, 0);
                    assert(enc_items(js.take(0)) =~= Seq::<char>::empty());
                    assert(enc_items(js.take(1)) =~= enc_line_obj(Some(js[0])));
                    assert(line_views(acc@) =~= js.take(1).map_values(
                        |jx: LineJoin| spec_line_of_join(jx),
                    ));
                };
            }
            loop
                invariant
                    sl == s@.len(),
                    i < j <= sl,
                    acc@.len() >= 1,
                    forall|js: Seq<LineJoin>|
                        #![trigger lines_array_at(s@, i as int, js)]
                        lines_array_at(s@, i as int, js) && joins_fit(js) ==> js.len() >= 1
                            && acc@.len() <= js.len() && j == i + 1 + enc_items(
                            js.take(acc@.len() as int),
                        ).len() && line_views(acc@) == js.take(acc@.len() as int).map_values(
                            |jx: LineJoin| spec_line_of_join(jx),
                        ),
                decreases sl - j,
            {
                proof {
                    assert forall|js: Seq<LineJoin>|
                        #[trigger] lines_array_at(s@, i as int, js) && joins_fit(js) implies j
                        < sl by {
                        if acc@.len() < js.len() {
                            lemma_items_prefix(js, acc@.len() as int);
                            lemma_array_end(s@, i as int, js);
                        } else {
                            assert(js.take(js.len() as int) =~= js);
                            lemma_array_end(s@, i as int, js);
                        }
                    };
                }
                if j >= sl {
                    return None;
                }
                let c = s[j];
                if c == ']' {
                    proof {
                        assert forall|js: Seq<LineJoin>|
                            #[trigger] lines_array_at(s@, i as int, js) && joins_fit(js) implies
                            acc@.len() == js.len() && j + 1 == i + enc_lines_array(js).len()
                            && line_views(acc@) == js.map_values(
                            |jx: LineJoin| spec_line_of_join(jx),
                        ) by {
                            if acc@.len() < js.len() {
                                lemma_array_step(s@, i as int, js, acc@.len() as int);
                                assert(s@[j as int] == ',');
                                assert(false);
                            }
                            assert(js.take(js.len() as int) =~= js);
                            lemma_array_end(s@, i as int, js);
                        };
                    }
                    return Some((acc, j + 1));
                }
                if c == ',' {
                    proof {
                        assert forall|js: Seq<LineJoin>|
                            #[trigger] lines_array_at(s@, i as int, js) && joins_fit(js) implies
                            acc@.len() < js.len() && line_obj_at(
                            s@,
                            j as int + 1,
                            Some(js[acc@.len() as int]),
                        ) && line_join_fits(js[acc@.len() as int]) by {
                            if acc@.len() == js.len() {
                                assert(js.take(js.len() as int) =~= js);
                                lemma_array_end(s@, i as int, js);
                                assert(s@[j as int] == ']');
                                assert(false);
                            }
                            lemma_array_step(s@, i as int, js, acc@.len() as int);
                        };
                    }
                    match parse_line_obj(s, j + 1) {
                        Some((Some(ln), j2)) => {
                            if j2 <= j {
                                proof {
                                    assert forall|js: Seq<LineJoin>|
                                        #[trigger] lines_array_at(s@, i as int, js) && joins_fit(
                                            js,
                                        ) implies false by {
                                        reveal_strlit("{\"id\":");
                                        lemma_array_step(s@, i as int, js, acc@.len() as int);
                                    };
                                }
                                return None;
                            }
                            let ghost old_len = acc@.len();
                            let ghost ln_pre = acc@;
                            acc.push(ln);
                            proof {
                                assert forall|js: Seq<LineJoin>|
                                    #[trigger] lines_array_at(s@, i as int, js) && joins_fit(js)
                                    implies js.len() >= 1 && acc@.len() <= js.len() && j2 == i + 1
                                    + enc_items(js.take(acc@.len() as int)).len() && line_views(
                                    acc@,
                                ) == js.take(acc@.len() as int).map_values(
                                    |jx: LineJoin| spec_line_of_join(jx),
                                ) by {
                                    reveal_strlit(",");
                                    lemma_array_step(s@, i as int, js, old_len as int);
                                    lemma_items_take_succ(js, old_len as int);
                                    assert(j as int == i + 1 + enc_items(
                                        js.take(old_len as int),
                                    ).len());
                                    assert(line_obj_at(s@, j as int + 1, Some(js[old_len as int])));
                                    assert(line_join_fits(js[old_len as int]));
                                    assert(ln@ == spec_line_of_join(js[old_len as int]));
                                    assert(j2 as int == j + 1 + enc_line_obj(
                                        Some(js[old_len as int]),
                                    ).len());
                                    let target = js.take(acc@.len() as int).map_values(
                                        |jx: LineJoin| spec_line_of_join(jx),
                                    );
                                    assert(line_views(acc@).len() == target.len());
                                    assert forall|tt: int| 0 <= tt < target.len() implies
                                        line_views(acc@)[tt] == target[tt] by {
                                        assert(js.take(acc@.len() as int)[tt] == js[tt]);
                                        if tt < old_len {
                                            assert(js.take(old_len as int)[tt] == js[tt]);
                                            assert(line_views(acc.view())[tt] == acc@[tt]@);
                                            assert(acc@[tt] == ln_pre[tt]);
                                            assert(line_views(ln_pre)[tt] == ln_pre[tt]@);
                                            assert(line_views(ln_pre)[tt] == js.take(
                                                old_len as int,
                                            ).map_values(|jx: LineJoin| spec_line_of_join(jx))[tt]);
                                        } else {
                                            assert(acc@[tt] == ln);
                                        }
                                    };
                                    assert(line_views(acc@) =~= target);
                                };
                            }
                            j = j2;
                        },
                        _ => {
                            proof {
                                assert forall|js: Seq<LineJoin>|
                                    #[trigger] lines_array_at(s@, i as int, js) && joins_fit(js)
                                    implies false by {
                                    lemma_array_step(s@, i as int, js, acc@.len() as int);
                                };
                            }
                            return None;
                        },
                    }
                } else {
                    proof {
                        assert forall|js: Seq<LineJoin>|
                            #[trigger] lines_array_at(s@, i as int, js) && joins_fit(js) implies
                            false by {
                            if acc@.len() == js.len() {
                                assert(js.take(js.len() as int) =~= js);
                                lemma_array_end(s@, i as int, js);
                            } else {
                                lemma_array_step(s@, i as int, js, acc@.len() as int);
                            }
                        };
                    }
                    return None;
                }
            }
        },
    }
}

/// Maps a row of the aggregating invoice query to its domain invoice.
///
/// The plain columns are copied exactly, the cents column carried over as
/// is. The grouped lines column is decoded as a whole: when it holds the
/// query layer's array for some sequence of joined lines, the invoice
/// carries exactly those lines, in order — the phantom all-null object of
/// a lineless invoice decodes to an empty collection, never to a line of
/// nulls. Any other text leaves the lines absent; a malformed aggregate
/// never fails the row.
pub fn invoice_from_row(r: &AggInvoiceRow) -> (inv: Invoice)
    ensures
        inv@.id == r@.id,
        inv@.total_cents == r@.total_cents,
        inv@.created_at == r@.created_at,
        inv@.updated_at == r@.updated_at,
        forall|js: Seq<LineJoin>|
            #![trigger enc_lines_array(js)]
            r@.lines_json == enc_lines_array(js) && joins_fit(js) ==> inv@.lines == Some(
                js.map_values(|j: LineJoin| spec_line_of_join(j)),
            ),
{
    let cs = crate::text::chars_of(r.lines_json.as_str());
    let lines: Option<Vec<InvoiceLine>> = match parse_lines_array(&cs, 0) {
        Some((ls, j)) => {
            if j == cs.len() {
                Some(ls)
            } else {
                None
            }
        },
        None => None,
    };
    let inv = Invoice {
        id: r.id,
        total: Money::from_cents(r.total_cents),
        lines,
        created_at: r.created_at.clone(),
        updated_at: r.updated_at.clone(),
    };
    proof {
        assert forall|js: Seq<LineJoin>|
            r@.lines_json == #[trigger] enc_lines_array(js) && joins_fit(js) implies inv@.lines
            == Some(js.map_values(|j: LineJoin| spec_line_of_join(j))) by {
            assert(cs@.subrange(0, enc_lines_array(js).len() as int) =~= enc_lines_array(js));
            assert(lines_array_at(cs@, 0, js));
            let ls0 = lines.unwrap();
            assert(line_views(ls0@) == js.map_values(|j: LineJoin| spec_line_of_join(j)));
            assert(inv@.lines == Some(Seq::new(ls0@.len(), |k: int| ls0@[k]@)));
            assert(Seq::new(ls0@.len(), |k: int| ls0@[k]@) =~= line_views(ls0@));
        };
    }
    inv
}

/// The invoice row's numeric fields fit the machine integers.
pub open spec fn invoice_row_fits(h: InvoiceRowV) -> bool {
    &&& i64::MIN <= h.id <= i64::MAX
    &&& i64::MIN <= h.total_cents <= i64::MAX
}

/// The header a nested invoice object denotes.
pub open spec fn spec_header_of(h: InvoiceRowV) -> crate::domain::InvoiceHeaderV {
    crate::domain::InvoiceHeaderV {
        id: h.id,
        total_cents: h.total_cents,
        created_at: h.created_at,
        updated_at: h.updated_at,
    }
}

/// The object the flat line query emits for the parent invoice; a missing
/// parent comes out as the same object with every value `null`.
pub open spec fn enc_invoice_obj(oh: Option<InvoiceRowV>) -> Seq<char> {
    match oh {
        Some(h) => "{\"id\":"@ + enc_i64(h.id) + ",\"total\":"@ + enc_i64(h.total_cents)
            + ",\"created_at\":"@ + enc_str(h.created_at) + ",\"updated_at\":"@ + enc_str(
            h.updated_at,
        ) + "}"@,
        None => "{\"id\":"@ + "null"@ + ",\"total\":null,\"created_at\":null,\"updated_at\":null}"@,
    }
}

/// The invoice object's pieces stand in order at position `i` of `s`.
pub open spec fn invoice_obj_at(s: Seq<char>, i: int, oh: Option<InvoiceRowV>) -> bool {
    match oh {
        Some(h) => {
            let i1 = i + "{\"id\":"@.len() as int;
            let i2 = i1 + enc_i64(h.id).len() as int;
            let i3 = i2 + ",\"total\":"@.len() as int;
            let i4 = i3 + enc_i64(h.total_cents).len() as int;
            let i5 = i4 + ",\"created_at\":"@.len() as int;
            let i6 = i5 + enc_str(h.created_at).len() as int;
            let i7 = i6 + ",\"updated_at\":"@.len() as int;
            let i8 = i7 + enc_str(h.updated_at).len() as int;
            &&& lit_at(s, i, "{\"id\":"@)
            &&& int_at(s, i1, h.id)
            &&& lit_at(s, i2, ",\"total\":"@)
            &&& int_at(s, i3, h.total_cents)
            &&& lit_at(s, i4, ",\"created_at\":"@)
            &&& str_at(s, i5, h.created_at)
            &&& lit_at(s, i6, ",\"updated_at\":"@)
            &&& str_at(s, i7, h.updated_at)
            &&& lit_at(s, i8, "}"@)
        },
        None => {
            let i1 = i + "{\"id\":"@.len() as int;
            let i2 = i1 + "null"@.len() as int;
            &&& lit_at(s, i, "{\"id\":"@)
            &&& lit_at(s, i1, "null"@)
            &&& lit_at(s, i2, ",\"total\":null,\"created_at\":null,\"updated_at\":null}"@)
        },
    }
}

/// A whole-text match of the invoice object gives its pieces.
#[verifier::rlimit(60)]
pub proof fn lemma_invoice_obj_pieces(s: Seq<char>, i: int, oh: Option<InvoiceRowV>)
    requires
        0 <= i,
        i + enc_invoice_obj(oh).len() <= s.len(),
        s.subrange(i, i + enc_invoice_obj(oh).len() as int) == enc_invoice_obj(oh),
    ensures
        invoice_obj_at(s, i, oh),
{
    match oh {
        Some(h) => {
            let e1 = "{\"id\":"@;
            let e2 = enc_i64(h.id);
            let e3 = ",\"total\":"@;
            let e4 = enc_i64(h.total_cents);
            let e5 = ",\"created_at\":"@;
            let e6 = enc_str(h.created_at);
            let e7 = ",\"updated_at\":"@;
            let e8 = enc_str(h.updated_at);
            let e9 = "}"@;
            let c1 = e1;
            let c2 = c1 + e2;
            let c3 = c2 + e3;
            let c4 = c3 + e4;
            let c5 = c4 + e5;
            let c6 = c5 + e6;
            let c7 = c6 + e7;
            let c8 = c7 + e8;
            let c9 = c8 + e9;
            assert(enc_invoice_obj(oh) == c9);
            lemma_split_at(s, i, c8, e9);
            lemma_split_at(s, i, c7, e8);
            lemma_split_at(s, i, c6, e7);
            lemma_split_at(s, i, c5, e6);
            lemma_split_at(s, i, c4, e5);
            lemma_split_at(s, i, c3, e4);
            lemma_split_at(s, i, c2, e3);
            lemma_split_at(s, i, c1, e2);
        },
        None => {
            let c2 = "{\"id\":"@ + "null"@;
            lemma_split_at(s, i, c2, ",\"total\":null,\"created_at\":null,\"updated_at\":null}"@);
            lemma_split_at(s, i, "{\"id\":"@, "null"@);
        },
    }
}

/// What the decoder needs around an invoice object match.
pub proof fn lemma_invoice_obj_facts(s: Seq<char>, i: int, oh: Option<InvoiceRowV>)
    requires
        invoice_obj_at(s, i, oh),
    ensures
        (match oh {
            Some(h) => {
                let i1 = i + "{\"id\":"@.len() as int;
                let i2 = i1 + enc_i64(h.id).len() as int;
                let i3 = i2 + ",\"total\":"@.len() as int;
                let i4 = i3 + enc_i64(h.total_cents).len() as int;
                &&& non_digit_after(s, i2)
                &&& non_digit_after(s, i4)
                &&& !lit_at(s, i1, "null"@)
                &&& (invoice_row_fits(h) ==> int_at(s, i1, (h.id as i64) as int) && int_at(
                    s,
                    i3,
                    (h.total_cents as i64) as int,
                ))
            },
            None => true,
        }),
{
    reveal_strlit("null");
    reveal_strlit(",\"total\":");
    reveal_strlit(",\"created_at\":");
    match oh {
        Some(h) => {
            let i1 = i + "{\"id\":"@.len() as int;
            let i2 = i1 + enc_i64(h.id).len() as int;
            let i3 = i2 + ",\"total\":"@.len() as int;
            let i4 = i3 + enc_i64(h.total_cents).len() as int;
            assert(s.subrange(i2, i2 + ",\"total\":"@.len() as int)[0] == s[i2]);
            assert(s[i2] == ',');
            assert(s.subrange(i4, i4 + ",\"created_at\":"@.len() as int)[0] == s[i4]);
            assert(s[i4] == ',');
            lemma_int_first_char(s, i1, h.id);
            if lit_at(s, i1, "null"@) {
                assert(s.subrange(i1, i1 + "null"@.len() as int)[0] == s[i1]);
                assert(s[i1] == 'n');
                assert(false);
            }
            if invoice_row_fits(h) {
                assert((h.id as i64) as int == h.id);
                assert((h.total_cents as i64) as int == h.total_cents);
            }
        },
        None => {},
    }
}

/// Appends the flat line query's object for an optionally found parent
/// invoice.
pub(crate) fn push_invoice_obj(out: &mut Vec<char>, oh: &Option<InvoiceRow>)
    ensures
        final(out)@ == old(out)@ + enc_invoice_obj(
            match oh {
                Some(h) => Some(h@),
                None => None,
            },
        ),
{
    match oh {
        Some(h) => {
            push_lit(out, "{\"id\":");
            push_i64(out, h.id);
            push_lit(out, ",\"total\":");
            push_i64(out, h.total_cents);
            push_lit(out, ",\"created_at\":");
            push_quoted(out, h.created_at.as_str());
            push_lit(out, ",\"updated_at\":");
            push_quoted(out, h.updated_at.as_str());
            push_lit(out, "}");
            proof {
                let o = old(out)@;
                let e1 = "{\"id\":"@;
                let e2 = enc_i64(h@.id);
                let e3 = ",\"total\":"@;
                let e4 = enc_i64(h@.total_cents);
                let e5 = ",\"created_at\":"@;
                let e6 = enc_str(h@.created_at);
                let e7 = ",\"updated_at\":"@;
                let e8 = enc_str(h@.updated_at);
                let e9 = "}"@;
                lemma_add_assoc(o, e1, e2);
                lemma_add_assoc(o, e1 + e2, e3);
                lemma_add_assoc(o, e1 + e2 + e3, e4);
                lemma_add_assoc(o, e1 + e2 + e3 + e4, e5);
                lemma_add_assoc(o, e1 + e2 + e3 + e4 + e5, e6);
                lemma_add_assoc(o, e1 + e2 + e3 + e4 + e5 + e6, e7);
                lemma_add_assoc(o, e1 + e2 + e3 + e4 + e5 + e6 + e7, e8);
                lemma_add_assoc(o, e1 + e2 + e3 + e4 + e5 + e6 + e7 + e8, e9);
            }
        },
        None => {
            push_lit(out, "{\"id\":");
            push_lit(out, "null");
            push_lit(out, ",\"total\":null,\"created_at\":null,\"updated_at\":null}");
            proof {
                let o = old(out)@;
                lemma_add_assoc(o, "{\"id\":"@, "null"@);
                lemma_add_assoc(
                    o,
                    "{\"id\":"@ + "null"@,
                    ",\"total\":null,\"created_at\":null,\"updated_at\":null}"@,
                );
            }
        },
    }
}

/// Reads the flat line query's invoice object at `i`.
#[verifier::rlimit(100)]
pub(crate) fn parse_invoice_obj(s: &Vec<char>, i: usize) -> (r: Option<
    (Option<crate::domain::InvoiceHeader>, usize),
>)
    ensures
        (match r {
            Some((_, j)) => i <= j <= s@.len(),
            None => true,
        }),
        forall|oh: Option<InvoiceRowV>|
            #![trigger invoice_obj_at(s@, i as int, oh)]
            invoice_obj_at(s@, i as int, oh) && (match oh {
                Some(h) => invoice_row_fits(h),
                None => true,
            }) ==> r is Some && r.unwrap().1 == i + enc_invoice_obj(oh).len() && (match oh {
                Some(h) => r.unwrap().0 is Some && r.unwrap().0.unwrap()@ == spec_header_of(h),
                None => r.unwrap().0 is None,
            }),
{
    let sl = s.len();
    proof {
        assert(s@.len() == sl);
    }
    let j0 = match expect_lit(s, i, "{\"id\":") {
        Some(j) => j,
        None => {
            proof {
                assert forall|oh: Option<InvoiceRowV>|
                    #[trigger] invoice_obj_at(s@, i as int, oh) && (match oh {
                        Some(h) => invoice_row_fits(h),
                        None => true,
                    }) implies false by {
                    lemma_invoice_obj_facts(s@, i as int, oh);
                };
            }
            return None;
        },
    };
    match expect_lit(s, j0, "null") {
        Some(j1) => {
            let (j2, okn): (usize, bool) = match expect_lit(
                s,
                j1,
                ",\"total\":null,\"created_at\":null,\"updated_at\":null}",
            ) {
                Some(j) => (j, true),
                None => (0, false),
            };
            proof {
                assert forall|oh: Option<InvoiceRowV>|
                    #[trigger] invoice_obj_at(s@, i as int, oh) && (match oh {
                        Some(h) => invoice_row_fits(h),
                        None => true,
                    }) implies oh is None && okn == true && j2 == i + enc_invoice_obj(
                    oh,
                ).len() by {
                    lemma_invoice_obj_facts(s@, i as int, oh);
                };
            }
            if okn {
                Some((None, j2))
            } else {
                None
            }
        },
        None => {
            let (id_v, j2, ok1): (i64, usize, bool) = match parse_i64(s, j0) {
                Some((v, j)) => (v, j, true),
                None => (0, 0, false),
            };
            let (j3, ok2): (usize, bool) = match expect_lit(s, j2, ",\"total\":") {
                Some(j) => (j, true),
                None => (0, false),
            };
            let (total_v, j4, ok3): (i64, usize, bool) = match parse_i64(s, j3) {
                Some((v, j)) => (v, j, true),
                None => (0, 0, false),
            };
            let (j5, ok4): (usize, bool) = match expect_lit(s, j4, ",\"created_at\":") {
                Some(j) => (j, true),
                None => (0, false),
            };
            let (ca_v, j6, ok5): (Vec<char>, usize, bool) = match parse_string(s, j5) {
                Some((u, j)) => (u, j, true),
                None => (Vec::new(), 0, false),
            };
            let (j7, ok6): (usize, bool) = match expect_lit(s, j6, ",\"updated_at\":") {
                Some(j) => (j, true),
                None => (0, false),
            };
            let (ua_v, j8, ok7): (Vec<char>, usize, bool) = match parse_string(s, j7) {
                Some((u, j)) => (u, j, true),
                None => (Vec::new(), 0, false),
            };
            let (j9, ok8): (usize, bool) = match expect_lit(s, j8, "}") {
                Some(j) => (j, true),
                None => (0, false),
            };
            let allok = ok1 && ok2 && ok3 && ok4 && ok5 && ok6 && ok7 && ok8;
            proof {
                assert forall|oh: Option<InvoiceRowV>|
                    #[trigger] invoice_obj_at(s@, i as int, oh) && (match oh {
                        Some(h) => invoice_row_fits(h),
                        None => true,
                    }) implies oh is Some && allok == true && (match oh {
                    Some(h) => {
                        &&& id_v == h.id
                        &&& total_v == h.total_cents
                        &&& ca_v@ == h.created_at
                        &&& ua_v@ == h.updated_at
                        &&& j9 == i + enc_invoice_obj(oh).len()
                    },
                    None => false,
                }) by {
                    lemma_invoice_obj_facts(s@, i as int, oh);
                    match oh {
                        Some(h) => {
                            let i1 = i + "{\"id\":"@.len() as int;
                            let i2 = i1 + enc_i64(h.id).len() as int;
                            let i3 = i2 + ",\"total\":"@.len() as int;
                            let i4 = i3 + enc_i64(h.total_cents).len() as int;
                            assert(int_at(s@, j0 as int, ((h.id as i64) as int)));
                            assert(non_digit_after(
                                s@,
                                j0 + enc_i64((h.id as i64) as int).len(),
                            ));
                            assert(ok1 && j2 as int == i2);
                            assert(ok2 && j3 as int == i3);
                            assert(int_at(s@, j3 as int, ((h.total_cents as i64) as int)));
                            assert(non_digit_after(
                                s@,
                                j3 + enc_i64((h.total_cents as i64) as int).len(),
                            ));
                            assert(ok3 && j4 as int == i4);
                            assert(ok4);
                            assert(str_at(s@, j5 as int, h.created_at));
                            assert(ok5);
                            assert(ok6);
                            assert(str_at(s@, j7 as int, h.updated_at));
                            assert(ok7);
                            assert(ok8);
                        },
                        None => {
                            assert(lit_at(s@, i + "{\"id\":"@.len() as int, "null"@));
                        },
                    }
                };
            }
            if allok {
                let h = crate::domain::InvoiceHeader {
                    id: id_v,
                    total: Money::from_cents(total_v),
                    created_at: string_of(&ca_v),
                    updated_at: string_of(&ua_v),
                };
                Some((Some(h), j9))
            } else {
                None
            }
        },
    }
}

/// Maps a row of the flat line query to its domain line.
///
/// The plain columns are copied exactly, the cents column carried over as
/// is. The two nested object columns are decoded independently and
/// fault-tolerantly: when a column holds the query layer's object for a
/// row, the reference is present and exact; a missing join partner's
/// all-null object, or text in neither shape, leaves that reference
/// absent, and never fails the row.
pub fn line_from_row(r: &FlatLineRow) -> (l: InvoiceLine)
    ensures
        l@.id == r@.id,
        l@.name == r@.name,
        l@.quantity == r@.quantity,
        l@.price_cents == r@.price_cents,
        l@.created_at == r@.created_at,
        l@.updated_at == r@.updated_at,
        forall|oh: Option<InvoiceRowV>|
            #![trigger enc_invoice_obj(oh)]
            r@.invoice_json == enc_invoice_obj(oh) && (match oh {
                Some(h) => invoice_row_fits(h),
                None => true,
            }) ==> l@.invoice == (match oh {
                Some(h) => Some(spec_header_of(h)),
                None => None,
            }),
        forall|op: Option<ProductRowV>|
            #![trigger enc_product_obj(op)]
            r@.product_json == enc_product_obj(op) && (match op {
                Some(p) => product_row_fits(p),
                None => true,
            }) ==> l@.product == (match op {
                Some(p) => Some(spec_product_of(p)),
                None => None,
            }),
{
    let ics = crate::text::chars_of(r.invoice_json.as_str());
    let invoice: Option<crate::domain::InvoiceHeader> = match parse_invoice_obj(&ics, 0) {
        Some((h, j)) => {
            if j == ics.len() {
                h
            } else {
                None
            }
        },
        None => None,
    };
    let pcs = crate::text::chars_of(r.product_json.as_str());
    let product: Option<Product> = match parse_product_obj(&pcs, 0) {
        Some((p, j)) => {
            if j == pcs.len() {
                p
            } else {
                None
            }
        },
        None => None,
    };
    let l = InvoiceLine {
        id: r.id,
        name: r.name.clone(),
        quantity: r.quantity,
        price: Money::from_cents(r.price_cents),
        invoice,
        product,
        created_at: r.created_at.clone(),
        updated_at: r.updated_at.clone(),
    };
    proof {
        assert forall|oh: Option<InvoiceRowV>|
            r@.invoice_json == #[trigger] enc_invoice_obj(oh) && (match oh {
                Some(h) => invoice_row_fits(h),
                None => true,
            }) implies l@.invoice == (match oh {
            Some(h) => Some(spec_header_of(h)),
            None => None,
        }) by {
            assert(ics@.subrange(0, enc_invoice_obj(oh).len() as int) =~= enc_invoice_obj(oh));
            lemma_invoice_obj_pieces(ics@, 0, oh);
        };
        assert forall|op: Option<ProductRowV>|
            r@.product_json == #[trigger] enc_product_obj(op) && (match op {
                Some(p) => product_row_fits(p),
                None => true,
            }) implies l@.product == (match op {
            Some(p) => Some(spec_product_of(p)),
            None => None,
        }) by {
            assert(pcs@.subrange(0, enc_product_obj(op).len() as int) =~= enc_product_obj(op));
            lemma_product_obj_pieces(pcs@, 0, op);
        };
    }
    l
}

/// Maps a product row to its domain object.
pub fn product_from_row(r: &ProductRow) -> (p: Product)
    ensures
        p@ == spec_product_of(r@),
{
    Product {
        id: r.id,
        name: r.name.clone(),
        description: clone_opt_string(&r.description),
        barcode: r.barcode.clone(),
        price: Money::from_cents(r.price_cents),
        cost: Money::from_cents(r.cost_cents),
        stock: r.stock,
        created_at: r.created_at.clone(),
        updated_at: r.updated_at.clone(),
    }
}

} // verus!
