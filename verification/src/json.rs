//! The JSON-shaped text codec for the nested aggregate columns.
//!
//! The query layer hands nested aggregates to the mapper as text: an
//! object per referenced row, an array per line collection. This module
//! holds the primitives both sides share: decimal integers and quoted
//! strings (with `"` and `\` escaped), written over character vectors.
//! The decoders are strict parse-and-validate steps: text that is not in
//! the produced shape is rejected, which the mapper turns into "field
//! absent", never a hard failure.

use vstd::prelude::*;
use vstd::arithmetic::div_mod::lemma_fundamental_div_mod;

verus! {

/// A decimal digit.
pub open spec fn is_digit(c: char) -> bool {
    '0' <= c && c <= '9'
}

/// The numeric value of a digit character.
pub open spec fn digit_val(c: char) -> int {
    (c as u32) - 48
}

/// The digit character for a value below ten.
pub open spec fn digit_char(d: int) -> char {
    ((48 + d) as u8) as char
}

/// The decimal digits of a natural number, most significant first.
pub open spec fn dec_digits(n: nat) -> Seq<char>
    decreases n,
{
    if n < 10 {
        seq![digit_char(n as int)]
    } else {
        dec_digits(n / 10).push(digit_char((n % 10) as int))
    }
}

/// The decimal encoding of an integer: a minus sign for negative values,
/// then the digits of the magnitude.
pub open spec fn enc_i64(v: int) -> Seq<char> {
    if v < 0 {
        seq!['-'] + dec_digits((-v) as nat)
    } else {
        dec_digits(v as nat)
    }
}

/// The value a digit string denotes.
pub open spec fn value_of(ds: Seq<char>) -> int
    decreases ds.len(),
{
    if ds.len() == 0 {
        0
    } else {
        value_of(ds.drop_last()) * 10 + digit_val(ds.last())
    }
}

/// Every character is a digit.
pub open spec fn all_digits(ds: Seq<char>) -> bool {
    forall|k: int| 0 <= k < ds.len() ==> is_digit(#[trigger] ds[k])
}

/// The digit string of a number holds digits only, and at least one.
pub proof fn lemma_dec_digits_digits(n: nat)
    ensures
        all_digits(dec_digits(n)),
        dec_digits(n).len() >= 1,
    decreases n,
{
    if n < 10 {
        assert(is_digit(digit_char(n as int)));
        assert(forall|k: int|
            0 <= k < dec_digits(n).len() ==> is_digit(#[trigger] dec_digits(n)[k]));
    } else {
        lemma_dec_digits_digits(n / 10);
        assert(is_digit(digit_char((n % 10) as int)));
        assert(forall|k: int|
            0 <= k < dec_digits(n).len() ==> is_digit(#[trigger] dec_digits(n)[k]));
    }
}

/// Reading the digit string of a number back gives the number.
pub proof fn lemma_value_of_dec_digits(n: nat)
    ensures
        value_of(dec_digits(n)) == n,
    decreases n,
{
    if n < 10 {
        let ds = dec_digits(n);
        assert(ds == seq![digit_char(n as int)]);
        assert(ds.len() == 1);
        assert(ds.drop_last() =~= Seq::<char>::empty());
        assert(value_of(Seq::<char>::empty()) == 0);
        assert(value_of(ds.drop_last()) == 0);
        assert(ds.last() == digit_char(n as int));
        assert(value_of(ds) == value_of(ds.drop_last()) * 10 + digit_val(ds.last()));
        assert(digit_val(digit_char(n as int)) == n);
    } else {
        lemma_value_of_dec_digits(n / 10);
        let ds = dec_digits(n);
        assert(ds == dec_digits(n / 10).push(digit_char((n % 10) as int)));
        assert(ds.drop_last() =~= dec_digits(n / 10));
        assert(ds.last() == digit_char((n % 10) as int));
        lemma_fundamental_div_mod(n as int, 10);
    }
}

/// Digit strings denote non-negative values.
pub proof fn lemma_value_of_nonneg(ds: Seq<char>)
    requires
        all_digits(ds),
    ensures
        value_of(ds) >= 0,
    decreases ds.len(),
{
    if ds.len() > 0 {
        assert(all_digits(ds.drop_last())) by {
            assert(forall|k: int| 0 <= k < ds.len() - 1 ==> ds.drop_last()[k] == #[trigger] ds[k]);
        }
        lemma_value_of_nonneg(ds.drop_last());
        assert(is_digit(ds.last()));
    }
}

/// A prefix of a digit string denotes at most the whole string's value.
pub proof fn lemma_value_of_prefix_le(ds: Seq<char>, p: int)
    requires
        all_digits(ds),
        0 <= p <= ds.len(),
    ensures
        value_of(ds.take(p)) <= value_of(ds),
    decreases ds.len() - p,
{
    if p == ds.len() {
        assert(ds.take(p) =~= ds);
    } else {
        lemma_value_of_prefix_le(ds, p + 1);
        let q = ds.take(p + 1);
        assert(q.drop_last() =~= ds.take(p));
        assert(q.last() == ds[p]);
        assert(all_digits(ds.take(p))) by {
            assert(forall|k: int| 0 <= k < p ==> ds.take(p)[k] == #[trigger] ds[k]);
        }
        lemma_value_of_nonneg(ds.take(p));
        assert(is_digit(ds[p]));
        assert(value_of(q) == value_of(ds.take(p)) * 10 + digit_val(ds[p]));
        assert(value_of(ds.take(p)) <= value_of(q)) by (nonlinear_arith)
            requires
                value_of(ds.take(p)) >= 0,
                digit_val(ds[p]) >= 0,
                value_of(q) == value_of(ds.take(p)) * 10 + digit_val(ds[p]),
        ;
    }
}

/// An unsigned decimal number stands at position `i` of `s`.
pub open spec fn uint_at(s: Seq<char>, i: int, n: nat) -> bool {
    &&& 0 <= i
    &&& i + dec_digits(n).len() <= s.len()
    &&& s.subrange(i, i + dec_digits(n).len() as int) == dec_digits(n)
}

/// A signed decimal number stands at position `i` of `s`.
pub open spec fn int_at(s: Seq<char>, i: int, v: int) -> bool {
    &&& 0 <= i
    &&& i + enc_i64(v).len() <= s.len()
    &&& s.subrange(i, i + enc_i64(v).len() as int) == enc_i64(v)
}

/// Position `j` does not continue a number: it is the end of the text or
/// holds a non-digit.
pub open spec fn non_digit_after(s: Seq<char>, j: int) -> bool {
    j == s.len() || (0 <= j < s.len() && !is_digit(s[j]))
}

/// The digit character of a value below ten.
pub(crate) fn digit_char_x(d: u64) -> (c: char)
    requires
        d < 10,
    ensures
        c == digit_char(d as int),
{
    (48 + d as u8) as char
}

/// Appends the decimal digits of `n`.
pub(crate) fn push_digits(out: &mut Vec<char>, n: u64)
    ensures
        final(out)@ == old(out)@ + dec_digits(n as nat),
    decreases n,
{
    if n < 10 {
        out.push(digit_char_x(n));
        proof {
            assert(final(out)@ =~= old(out)@ + dec_digits(n as nat));
        }
    } else {
        push_digits(out, n / 10);
        out.push(digit_char_x(n % 10));
        proof {
            assert(final(out)@ =~= old(out)@ + dec_digits(n as nat));
        }
    }
}

/// Appends the decimal encoding of `v`.
pub(crate) fn push_i64(out: &mut Vec<char>, v: i64)
    ensures
        final(out)@ == old(out)@ + enc_i64(v as int),
{
    if v >= 0 {
        push_digits(out, v as u64);
    } else {
        out.push('-');
        let mag: u64 = ((-(v + 1)) as u64) + 1;
        proof {
            assert(mag as nat == (-(v as int)) as nat);
        }
        push_digits(out, mag);
        proof {
            assert(final(out)@ =~= old(out)@ + enc_i64(v as int));
        }
    }
}

/// Reads an unsigned decimal number: one or more digits, greedily. The
/// value read is exact: wherever the digits of `n` stand at `i` and are
/// not followed by a further digit, the parse returns `n` and stops right
/// after it.
pub(crate) fn parse_u64(s: &Vec<char>, i: usize) -> (r: Option<(u64, usize)>)
    ensures
        (match r {
            Some((v, j)) => i < j <= s@.len(),
            None => true,
        }),
        forall|n: nat|
            #![trigger uint_at(s@, i as int, n)]
            uint_at(s@, i as int, n) && n <= u64::MAX && non_digit_after(
                s@,
                i + dec_digits(n).len(),
            ) ==> r == Some((n as u64, (i + dec_digits(n).len()) as usize)),
{
    let len = s.len();
    if i >= len {
        proof {
            assert forall|n: nat| uint_at(s@, i as int, n) implies false by {
                lemma_dec_digits_digits(n);
            };
        }
        return None;
    }
    let mut j: usize = i;
    let mut acc: u64 = 0;
    while j < len && s[j] >= '0' && s[j] <= '9'
        invariant
            i <= j <= len,
            len == s@.len(),
            forall|k: int| i <= k < j ==> is_digit(#[trigger] s@[k]),
            acc as int == value_of(s@.subrange(i as int, j as int)),
        decreases len - j,
    {
        let d: u64 = (s[j] as u8 - 48) as u64;
        proof {
            assert(d as int == digit_val(s@[j as int]));
        }
        let ghost pre = s@.subrange(i as int, j as int);
        proof {
            assert(s@.subrange(i as int, j as int + 1).drop_last() =~= pre);
            assert(s@.subrange(i as int, j as int + 1).last() == s@[j as int]);
        }
        let acc10 = match acc.checked_mul(10) {
            Some(a) => a,
            None => {
                proof {
                    lemma_no_overflow(s@, i as int, j as int, acc as int, d as int);
                }
                return None;
            },
        };
        let acc2 = match acc10.checked_add(d) {
            Some(a) => a,
            None => {
                proof {
                    lemma_no_overflow(s@, i as int, j as int, acc as int, d as int);
                }
                return None;
            },
        };
        acc = acc2;
        j = j + 1;
    }
    if j == i {
        proof {
            assert forall|n: nat| uint_at(s@, i as int, n) implies false by {
                lemma_dec_digits_digits(n);
                assert(s@.subrange(i as int, i + dec_digits(n).len() as int)[0] == s@[i as int]);
                assert(is_digit(s@[i as int]));
            };
        }
        return None;
    }
    proof {
        assert forall|n: nat|
            uint_at(s@, i as int, n) && n <= u64::MAX && non_digit_after(
                s@,
                i + dec_digits(n).len(),
            ) implies Some((acc, j)) == Some((n as u64, (i + dec_digits(n).len()) as usize)) by {
            lemma_dec_digits_digits(n);
            let l = dec_digits(n).len() as int;
            assert forall|k: int| i <= k < i + l implies is_digit(#[trigger] s@[k]) by {
                assert(s@.subrange(i as int, i + l)[k - i] == s@[k]);
                assert(is_digit(dec_digits(n)[k - i]));
            };
            if j < i + l {
                assert(is_digit(s@[j as int]));
                assert(j < s@.len());
                assert(false);
            }
            if j > i + l {
                assert(is_digit(s@[i + l]));
                assert(!non_digit_after(s@, i + l));
                assert(false);
            }
            assert(j == i + l);
            assert(s@.subrange(i as int, j as int) == dec_digits(n));
            lemma_value_of_dec_digits(n);
            assert(acc as int == n);
        };
    }
    Some((acc, j))
}

/// No scan of a digit string that continues a number small enough for the
/// machine word can overflow the accumulator.
proof fn lemma_no_overflow(s: Seq<char>, i: int, j: int, acc: int, d: int)
    requires
        0 <= i <= j < s.len(),
        forall|k: int| i <= k < j ==> is_digit(#[trigger] s[k]),
        is_digit(s[j]),
        acc == value_of(s.subrange(i, j)),
        d == digit_val(s[j]),
        acc * 10 + d > u64::MAX,
    ensures
        forall|n: nat|
            #![trigger uint_at(s, i, n)]
            uint_at(s, i, n) && n <= u64::MAX ==> !non_digit_after(s, i + dec_digits(n).len()),
{
    assert forall|n: nat|
        uint_at(s, i, n) && n <= u64::MAX implies !non_digit_after(
        s,
        i + dec_digits(n).len(),
    ) by {
        lemma_dec_digits_digits(n);
        let l = dec_digits(n).len() as int;
        if non_digit_after(s, i + l) {
            assert forall|k: int| i <= k < i + l implies is_digit(#[trigger] s[k]) by {
                assert(s.subrange(i, i + l)[k - i] == s[k]);
                assert(is_digit(dec_digits(n)[k - i]));
            };
            if j >= i + l {
                assert(is_digit(s[i + l]));
                assert(false);
            }
            assert(j + 1 <= i + l);
            let whole = dec_digits(n);
            assert(s.subrange(i, j + 1) =~= whole.take(j + 1 - i));
            assert(s.subrange(i, j) =~= whole.take(j - i));
            assert(whole.take(j + 1 - i).drop_last() =~= whole.take(j - i));
            assert(whole.take(j + 1 - i).last() == whole[j - i]);
            assert(whole[j - i] == s.subrange(i, i + l)[j - i]);
            assert(value_of(whole.take(j + 1 - i)) == acc * 10 + d);
            lemma_value_of_prefix_le(whole, j + 1 - i);
            lemma_value_of_dec_digits(n);
            assert(acc * 10 + d <= n);
            assert(false);
        }
    };
}

/// Appends the decimal digits read back as the number: a signed reader on
/// top of [`parse_u64`]. Wherever the encoding of `v` stands at `i` and
/// is not followed by a further digit, the parse returns `v` and stops
/// right after it.
pub(crate) fn parse_i64(s: &Vec<char>, i: usize) -> (r: Option<(i64, usize)>)
    ensures
        (match r {
            Some((v, j)) => i < j <= s@.len(),
            None => true,
        }),
        forall|v: i64|
            #![trigger int_at(s@, i as int, v as int)]
            int_at(s@, i as int, v as int) && non_digit_after(
                s@,
                i + enc_i64(v as int).len(),
            ) ==> r == Some((v, (i + enc_i64(v as int).len()) as usize)),
{
    let len = s.len();
    if i < len && s[i] == '-' {
        match parse_u64(s, i + 1) {
            Some((mag, j)) => {
                if mag <= i64::MAX as u64 {
                    let r = Some((-(mag as i64), j));
                    proof {
                        lemma_parse_i64_neg(s@, i as int, mag as nat, j as int);
                    }
                    r
                } else if mag == (i64::MAX as u64) + 1 {
                    let r = Some((i64::MIN, j));
                    proof {
                        lemma_parse_i64_neg(s@, i as int, mag as nat, j as int);
                    }
                    r
                } else {
                    proof {
                        lemma_parse_i64_neg(s@, i as int, mag as nat, j as int);
                        assert forall|v: i64|
                            int_at(s@, i as int, v as int) && non_digit_after(
                                s@,
                                i + enc_i64(v as int).len(),
                            ) implies false by {
                            assert((-(v as int)) as nat == mag as nat);
                            assert(v as int >= i64::MIN as int);
                        };
                    }
                    None
                }
            },
            None => {
                proof {
                    assert forall|v: i64|
                        int_at(s@, i as int, v as int) && non_digit_after(
                            s@,
                            i + enc_i64(v as int).len(),
                        ) implies false by {
                        if v >= 0 {
                            lemma_dec_digits_digits(v as nat);
                            assert(s@.subrange(i as int, i + enc_i64(v as int).len() as int)[0]
                                == s@[i as int]);
                            assert(is_digit(enc_i64(v as int)[0]));
                            assert(false);
                        } else {
                            lemma_int_at_neg(s@, i as int, v as int);
                            let n = (-(v as int)) as nat;
                            assert(uint_at(s@, i as int + 1, n));
                            assert(n <= u64::MAX);
                            assert(enc_i64(v as int).len() == 1 + dec_digits(n).len());
                            assert(non_digit_after(s@, i as int + 1 + dec_digits(n).len()));
                            assert(false);
                        }
                    };
                }
                None
            },
        }
    } else {
        match parse_u64(s, i) {
            Some((mag, j)) => {
                if mag <= i64::MAX as u64 {
                    let r = Some((mag as i64, j));
                    proof {
                        assert forall|v: i64|
                            int_at(s@, i as int, v as int) && non_digit_after(
                                s@,
                                i + enc_i64(v as int).len(),
                            ) implies r == Some((v, (i + enc_i64(v as int).len()) as usize)) by {
                            if v >= 0 {
                                assert(uint_at(s@, i as int, v as nat));
                            } else {
                                assert(enc_i64(v as int)[0] == '-');
                                assert(s@.subrange(
                                    i as int,
                                    i + enc_i64(v as int).len() as int,
                                )[0] == s@[i as int]);
                                assert(s@[i as int] == '-');
                                assert(false);
                            }
                        };
                    }
                    r
                } else {
                    proof {
                        assert forall|v: i64|
                            int_at(s@, i as int, v as int) && non_digit_after(
                                s@,
                                i + enc_i64(v as int).len(),
                            ) implies false by {
                            if v >= 0 {
                                assert(uint_at(s@, i as int, v as nat));
                                assert(mag as nat == v as nat);
                            } else {
                                assert(s@.subrange(
                                    i as int,
                                    i + enc_i64(v as int).len() as int,
                                )[0] == s@[i as int]);
                                assert(s@[i as int] == '-');
                                assert(false);
                            }
                        };
                    }
                    None
                }
            },
            None => {
                proof {
                    assert forall|v: i64|
                        int_at(s@, i as int, v as int) && non_digit_after(
                            s@,
                            i + enc_i64(v as int).len(),
                        ) implies false by {
                        if v >= 0 {
                            assert(uint_at(s@, i as int, v as nat));
                        } else {
                            assert(s@.subrange(i as int, i + enc_i64(v as int).len() as int)[0]
                                == s@[i as int]);
                            assert(s@[i as int] == '-');
                            assert(false);
                        }
                    };
                }
                None
            },
        }
    }
}

/// A negative encoding at `i` puts the magnitude's digits at `i + 1`.
proof fn lemma_int_at_neg(s: Seq<char>, i: int, v: int)
    requires
        int_at(s, i, v),
        0 <= i < s.len(),
        s[i] == '-',
        v < 0 ==> true,
        int_at(s, i, v),
    ensures
        v < 0 ==> uint_at(s, i + 1, (-v) as nat),
{
    if v < 0 {
        let n = (-v) as nat;
        let e = enc_i64(v);
        assert(e == seq!['-'] + dec_digits(n));
        assert(e.len() == 1 + dec_digits(n).len());
        assert forall|k: int| 0 <= k < dec_digits(n).len() implies #[trigger] s.subrange(
            i + 1,
            i + 1 + dec_digits(n).len() as int,
        )[k] == dec_digits(n)[k] by {
            assert(s.subrange(i + 1, i + 1 + dec_digits(n).len() as int)[k] == s[i + 1 + k]);
            assert(s.subrange(i, i + e.len() as int)[k + 1] == s[i + 1 + k]);
            assert(e[k + 1] == dec_digits(n)[k]);
        };
        assert(s.subrange(i + 1, i + 1 + dec_digits(n).len() as int) =~= dec_digits(n));
    }
}

/// Completes the negative branch of [`parse_i64`]: the unsigned parse at
/// `i + 1` pins the signed result.
proof fn lemma_parse_i64_neg(s: Seq<char>, i: int, mag: nat, j: int)
    requires
        0 <= i < s.len(),
        s[i] == '-',
        forall|n: nat|
            #![trigger uint_at(s, i + 1, n)]
            uint_at(s, i + 1, n) && n <= u64::MAX && non_digit_after(
                s,
                i + 1 + dec_digits(n).len(),
            ) ==> Some((mag, j)) == Some((n, i + 1 + dec_digits(n).len())),
    ensures
        forall|v: i64|
            #![trigger int_at(s, i, v as int)]
            int_at(s, i, v as int) && non_digit_after(s, i + enc_i64(v as int).len())
                && -(mag as int) == v as int ==> j == i + enc_i64(v as int).len(),
        forall|v: i64|
            #![trigger int_at(s, i, v as int)]
            int_at(s, i, v as int) && non_digit_after(s, i + enc_i64(v as int).len()) ==> (-(
            v as int)) as nat == mag && v < 0,
{
    assert forall|v: i64|
        int_at(s, i, v as int) && non_digit_after(s, i + enc_i64(v as int).len()) implies (-(
    v as int)) as nat == mag && v < 0 && j == i + enc_i64(v as int).len() by {
        if v >= 0 {
            lemma_dec_digits_digits(v as nat);
            assert(s.subrange(i, i + enc_i64(v as int).len() as int)[0] == s[i]);
            assert(is_digit(enc_i64(v as int)[0]));
            assert(!is_digit('-'));
            assert(false);
        } else {
            lemma_int_at_neg(s, i, v as int);
            let n = (-(v as int)) as nat;
            assert(uint_at(s, i + 1, n));
            assert(n <= u64::MAX) by {
                assert(v as int >= i64::MIN as int);
            }
            assert(enc_i64(v as int).len() == 1 + dec_digits(n).len());
            assert(non_digit_after(s, i + 1 + dec_digits(n).len()));
            assert(Some((mag, j)) == Some((n, i + 1 + dec_digits(n).len())));
        }
    };
}

/// The escape of one character inside a quoted string: quote and
/// backslash are escaped with a backslash, everything else stands as it
/// is.
pub open spec fn esc_char(c: char) -> Seq<char> {
    if c == '"' || c == '\\' {
        seq!['\\', c]
    } else {
        seq![c]
    }
}

/// The escaped body of a quoted string.
pub open spec fn esc(t: Seq<char>) -> Seq<char>
    decreases t.len(),
{
    if t.len() == 0 {
        Seq::empty()
    } else {
        esc(t.drop_last()) + esc_char(t.last())
    }
}

/// The quoted encoding of a string.
pub open spec fn enc_str(t: Seq<char>) -> Seq<char> {
    seq!['"'] + esc(t) + seq!['"']
}

/// The quoted encoding of `t` stands at position `i` of `s`.
pub open spec fn str_at(s: Seq<char>, i: int, t: Seq<char>) -> bool {
    &&& 0 <= i
    &&& i + enc_str(t).len() <= s.len()
    &&& s.subrange(i, i + enc_str(t).len() as int) == enc_str(t)
}

/// Escaping one more character appends its escape.
pub proof fn lemma_esc_take_succ(t: Seq<char>, p: int)
    requires
        0 <= p < t.len(),
    ensures
        esc(t.take(p + 1)) == esc(t.take(p)) + esc_char(t[p]),
{
    let q = t.take(p + 1);
    assert(q.len() == p + 1);
    assert(q.drop_last() =~= t.take(p));
    assert(q.last() == t[p]);
}

/// The escape of a prefix is a prefix of the escape.
pub proof fn lemma_esc_take_prefix(t: Seq<char>, p: int)
    requires
        0 <= p <= t.len(),
    ensures
        esc(t.take(p)).len() + (t.len() - p) <= esc(t).len(),
        forall|q: int|
            0 <= q < esc(t.take(p)).len() ==> #[trigger] esc(t.take(p))[q] == esc(t)[q],
    decreases t.len() - p,
{
    if p == t.len() {
        assert(t.take(p) =~= t);
    } else {
        lemma_esc_take_prefix(t, p + 1);
        lemma_esc_take_succ(t, p);
        assert(esc_char(t[p]).len() >= 1);
        assert forall|q: int| 0 <= q < esc(t.take(p)).len() implies #[trigger] esc(t.take(p))[q]
            == esc(t)[q] by {
            assert(esc(t.take(p + 1))[q] == esc(t.take(p))[q]);
            assert(esc(t.take(p + 1))[q] == esc(t)[q]);
        };
    }
}

/// A character of the escaped body, read through the encoding standing in
/// a larger text.
pub proof fn lemma_str_at_char(s: Seq<char>, i: int, t: Seq<char>, q: int)
    requires
        str_at(s, i, t),
        0 <= q < esc(t).len(),
    ensures
        s[i + 1 + q] == esc(t)[q],
{
    assert(s.subrange(i, i + enc_str(t).len() as int)[1 + q] == s[i + 1 + q]);
    assert(enc_str(t)[1 + q] == esc(t)[q]);
}

/// The closing quote of an encoding standing in a larger text.
pub proof fn lemma_str_at_close(s: Seq<char>, i: int, t: Seq<char>)
    requires
        str_at(s, i, t),
    ensures
        s[i] == '"',
        s[i + 1 + esc(t).len()] == '"',
{
    assert(s.subrange(i, i + enc_str(t).len() as int)[0] == s[i]);
    assert(enc_str(t)[0] == '"');
    let e: int = 1 + esc(t).len() as int;
    assert(s.subrange(i, i + enc_str(t).len() as int)[e] == s[i + e]);
    assert(enc_str(t)[e] == '"');
}

/// While the body is not fully read, the next characters of the text are
/// the escape of the next character of `t`.
pub proof fn lemma_str_at_step(s: Seq<char>, i: int, t: Seq<char>, p: int)
    requires
        str_at(s, i, t),
        0 <= p < t.len(),
    ensures
        esc(t.take(p)).len() + esc_char(t[p]).len() <= esc(t).len(),
        forall|q: int|
            0 <= q < esc_char(t[p]).len() ==> s[i + 1 + esc(t.take(p)).len() + q] == #[trigger]
            esc_char(t[p])[q],
{
    lemma_esc_take_prefix(t, p + 1);
    lemma_esc_take_succ(t, p);
    let lp = esc(t.take(p)).len() as int;
    assert forall|q: int| 0 <= q < esc_char(t[p]).len() implies s[i + 1 + lp + q] == #[trigger]
    esc_char(t[p])[q] by {
        assert(esc(t.take(p + 1))[lp + q] == esc_char(t[p])[q]);
        assert(esc(t.take(p + 1))[lp + q] == esc(t)[lp + q]);
        lemma_str_at_char(s, i, t, lp + q);
    };
}

/// Appends the characters of a literal.
pub(crate) fn push_lit(out: &mut Vec<char>, lit: &str)
    ensures
        final(out)@ == old(out)@ + lit@,
{
    let n = lit.unicode_len();
    let mut k: usize = 0;
    while k < n
        invariant
            k <= n,
            n == lit@.len(),
            out@ == old(out)@ + lit@.subrange(0, k as int),
        decreases n - k,
    {
        out.push(lit.get_char(k));
        proof {
            assert(old(out)@ + lit@.subrange(0, k as int + 1) =~= (old(out)@ + lit@.subrange(
                0,
                k as int,
            )).push(lit@[k as int]));
        }
        k = k + 1;
    }
    proof {
        assert(lit@.subrange(0, lit@.len() as int) =~= lit@);
    }
}

/// Appends the quoted encoding of a string.
pub(crate) fn push_quoted(out: &mut Vec<char>, s: &str)
    ensures
        final(out)@ == old(out)@ + enc_str(s@),
{
    let cs = crate::text::chars_of(s);
    out.push('"');
    let mut k: usize = 0;
    while k < cs.len()
        invariant
            k <= cs.len(),
            cs@ == s@,
            out@ == old(out)@ + seq!['"'] + esc(s@.take(k as int)),
        decreases cs.len() - k,
    {
        let c = cs[k];
        proof {
            lemma_esc_take_succ(s@, k as int);
        }
        if c == '"' || c == '\\' {
            out.push('\\');
            out.push(c);
            proof {
                assert(out@ =~= old(out)@ + seq!['"'] + esc(s@.take(k as int + 1)));
            }
        } else {
            out.push(c);
            proof {
                assert(out@ =~= old(out)@ + seq!['"'] + esc(s@.take(k as int + 1)));
            }
        }
        k = k + 1;
    }
    out.push('"');
    proof {
        assert(s@.take(s@.len() as int) =~= s@);
        assert(out@ =~= old(out)@ + enc_str(s@));
    }
}

/// Tests whether the given literal stands at position `i`, if and only
/// if.
pub(crate) fn expect_lit(s: &Vec<char>, i: usize, lit: &str) -> (r: Option<usize>)
    ensures
        (match r {
            Some(j) => j == i + lit@.len() && i + lit@.len() <= s@.len() && s@.subrange(
                i as int,
                i + lit@.len() as int,
            ) == lit@,
            None => !(i + lit@.len() <= s@.len() && s@.subrange(i as int, i + lit@.len() as int)
                == lit@),
        }),
{
    let n = lit.unicode_len();
    let sl = s.len();
    if i > sl || n > sl - i {
        return None;
    }
    let mut k: usize = 0;
    while k < n
        invariant
            k <= n,
            n == lit@.len(),
            sl == s@.len(),
            i + n <= sl,
            forall|q: int| 0 <= q < k ==> s@[i + q] == #[trigger] lit@[q],
        decreases n - k,
    {
        if s[i + k] != lit.get_char(k) {
            proof {
                assert(s@.subrange(i as int, i + lit@.len() as int)[k as int] == s@[i + k]);
            }
            return None;
        }
        k = k + 1;
    }
    proof {
        assert(s@.subrange(i as int, i + lit@.len() as int) =~= lit@);
    }
    Some(i + n)
}

/// Reads a quoted string with the two escapes, strictly: wherever the
/// encoding of `t` stands at `i`, the parse returns exactly `t` and stops
/// right after the closing quote.
pub(crate) fn parse_string(s: &Vec<char>, i: usize) -> (r: Option<(Vec<char>, usize)>)
    ensures
        (match r {
            Some((t, j)) => i < j <= s@.len(),
            None => true,
        }),
        forall|t: Seq<char>|
            #![trigger str_at(s@, i as int, t)]
            str_at(s@, i as int, t) ==> r is Some && r.unwrap().0@ == t && r.unwrap().1 == i
                + enc_str(t).len(),
{
    let len = s.len();
    if i >= len || s[i] != '"' {
        proof {
            assert forall|t: Seq<char>| str_at(s@, i as int, t) implies false by {
                lemma_str_at_close(s@, i as int, t);
            };
        }
        return None;
    }
    let mut j: usize = i + 1;
    let mut acc: Vec<char> = Vec::new();
    loop
        invariant
            i + 1 <= j <= len,
            len == s@.len(),
            forall|t: Seq<char>|
                #![trigger str_at(s@, i as int, t)]
                str_at(s@, i as int, t) ==> acc@.len() <= t.len() && acc@ == t.take(
                    acc@.len() as int,
                ) && j == i + 1 + esc(t.take(acc@.len() as int)).len(),
        decreases len - j,
    {
        proof {
            assert forall|t: Seq<char>| #[trigger] str_at(s@, i as int, t) implies j < len by {
                let p = acc@.len() as int;
                lemma_esc_take_prefix(t, p);
                assert(i + 1 + esc(t).len() < s@.len());
            };
        }
        if j >= len {
            return None;
        }
        let c = s[j];
        if c == '"' {
            proof {
                assert forall|t: Seq<char>| #[trigger] str_at(s@, i as int, t) implies acc@ == t
                    && j + 1 == i + enc_str(t).len() by {
                    let p = acc@.len() as int;
                    if p < t.len() {
                        lemma_str_at_step(s@, i as int, t, p);
                        assert(esc_char(t[p]).len() >= 1);
                        assert(s@[i + 1 + esc(t.take(p)).len() + 0] == esc_char(t[p])[0]);
                        assert(s@[j as int] == esc_char(t[p])[0]);
                        if t[p] == '"' || t[p] == '\\' {
                            assert(esc_char(t[p])[0] == '\\');
                        } else {
                            assert(esc_char(t[p])[0] == t[p]);
                        }
                        assert(false);
                    }
                    assert(t.take(t.len() as int) =~= t);
                };
            }
            return Some((acc, j + 1));
        }
        if c == '\\' {
            proof {
                assert forall|t: Seq<char>| #[trigger] str_at(s@, i as int, t) implies acc@.len()
                    < t.len() && (t[acc@.len() as int] == '"' || t[acc@.len() as int] == '\\')
                    && j + 1 < len && s@[j as int + 1] == t[acc@.len() as int] by {
                    let p = acc@.len() as int;
                    if p == t.len() {
                        lemma_str_at_close(s@, i as int, t);
                        assert(t.take(p) =~= t);
                        assert(s@[j as int] == '"');
                        assert(false);
                    }
                    lemma_str_at_step(s@, i as int, t, p);
                    assert(esc_char(t[p]).len() >= 1);
                    assert(s@[i + 1 + esc(t.take(p)).len() + 0] == esc_char(t[p])[0]);
                    assert(s@[j as int] == esc_char(t[p])[0]);
                    if t[p] == '"' || t[p] == '\\' {
                    } else {
                        assert(esc_char(t[p])[0] == t[p]);
                        assert(false);
                    }
                    assert(esc_char(t[p]).len() == 2);
                    assert(s@[i + 1 + esc(t.take(p)).len() + 1] == esc_char(t[p])[1]);
                    assert(esc_char(t[p])[1] == t[p]);
                    lemma_esc_take_prefix(t, p + 1);
                    lemma_esc_take_succ(t, p);
                    assert(i + 1 + esc(t).len() < s@.len());
                };
            }
            if j + 1 >= len {
                return None;
            }
            let c2 = s[j + 1];
            if c2 == '"' || c2 == '\\' {
                let ghost old_acc = acc@;
                acc.push(c2);
                proof {
                    assert forall|t: Seq<char>|
                        #[trigger] str_at(s@, i as int, t) implies acc@.len() <= t.len() && acc@
                        == t.take(acc@.len() as int) && j + 2 == i + 1 + esc(
                        t.take(acc@.len() as int),
                    ).len() by {
                        let p = old_acc.len() as int;
                        assert(t[p] == s@[j as int + 1]);
                        assert(old_acc == t.take(p));
                        assert(acc@ =~= t.take(p + 1));
                        lemma_esc_take_succ(t, p);
                        assert(esc_char(t[p]).len() == 2);
                    };
                }
                j = j + 2;
            } else {
                proof {
                    assert forall|t: Seq<char>| #[trigger] str_at(s@, i as int, t) implies false by {
                        assert(s@[j as int + 1] == t[acc@.len() as int]);
                    };
                }
                return None;
            }
        } else {
            let ghost old_acc = acc@;
            proof {
                assert forall|t: Seq<char>| #[trigger] str_at(s@, i as int, t) implies acc@.len()
                    < t.len() && t[acc@.len() as int] == c by {
                    let p = acc@.len() as int;
                    if p == t.len() {
                        lemma_str_at_close(s@, i as int, t);
                        assert(t.take(p) =~= t);
                        assert(s@[j as int] == '"');
                        assert(false);
                    }
                    lemma_str_at_step(s@, i as int, t, p);
                    assert(esc_char(t[p]).len() >= 1);
                    assert(s@[i + 1 + esc(t.take(p)).len() + 0] == esc_char(t[p])[0]);
                    assert(s@[j as int] == esc_char(t[p])[0]);
                    if t[p] == '"' || t[p] == '\\' {
                        assert(esc_char(t[p])[0] == '\\');
                        assert(false);
                    }
                    assert(esc_char(t[p])[0] == t[p]);
                };
            }
            acc.push(c);
            proof {
                assert forall|t: Seq<char>|
                    #[trigger] str_at(s@, i as int, t) implies acc@.len() <= t.len() && acc@
                    == t.take(acc@.len() as int) && j + 1 == i + 1 + esc(
                    t.take(acc@.len() as int),
                ).len() by {
                    let p = old_acc.len() as int;
                    assert(t[p] == c);
                    assert(old_acc == t.take(p));
                    assert(acc@ =~= t.take(p + 1));
                    lemma_esc_take_succ(t, p);
                    assert(esc_char(t[p]).len() == 1);
                };
            }
            j = j + 1;
        }
    }
}

} // verus!

