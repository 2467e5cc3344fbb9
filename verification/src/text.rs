//! Character-level text helpers: building strings, and the case-insensitive
//! substring match that product search uses (the store's collation folds
//! ASCII letters only).

use vstd::prelude::*;
use vstd::string::StrSliceExecFns;
use vstd::string::StringExecFns;

verus! {

/// Relies on String::push: appends the given character to the end of the
/// string.
#[verifier::external_body]
pub(crate) fn push_char(s: &mut String, c: char)
    ensures
        final(s)@ == old(s)@.push(c),
{
    s.push(c);
}

/// Builds the string holding exactly the given characters.
pub(crate) fn string_of(cs: &Vec<char>) -> (s: String)
    ensures
        s@ == cs@,
{
    let mut s = String::new();
    let mut i: usize = 0;
    while i < cs.len()
        invariant
            i <= cs.len(),
            s@ == cs@.subrange(0, i as int),
        decreases cs.len() - i,
    {
        push_char(&mut s, cs[i]);
        proof {
            assert(cs@.subrange(0, i as int).push(cs@[i as int]) =~= cs@.subrange(
                0,
                i as int + 1,
            ));
        }
        i = i + 1;
    }
    proof {
        assert(cs@.subrange(0, cs@.len() as int) =~= cs@);
    }
    s
}

/// The characters of a string, as a vector.
pub(crate) fn chars_of(s: &str) -> (cs: Vec<char>)
    ensures
        cs@ == s@,
{
    let n = s.unicode_len();
    let mut cs: Vec<char> = Vec::new();
    let mut i: usize = 0;
    while i < n
        invariant
            i <= n,
            n == s@.len(),
            cs@ == s@.subrange(0, i as int),
        decreases n - i,
    {
        cs.push(s.get_char(i));
        proof {
            assert(s@.subrange(0, i as int).push(s@[i as int]) =~= s@.subrange(0, i as int + 1));
        }
        i = i + 1;
    }
    proof {
        assert(s@.subrange(0, s@.len() as int) =~= s@);
    }
    cs
}

/// Clones an optional string.
pub(crate) fn clone_opt_string(s: &Option<String>) -> (r: Option<String>)
    ensures
        r == *s,
{
    match s {
        Some(t) => Some(t.clone()),
        None => None,
    }
}

/// Decides whether two character vectors hold the same characters.
pub(crate) fn eq_chars(a: &Vec<char>, b: &Vec<char>) -> (r: bool)
    ensures
        r == (a@ == b@),
{
    if a.len() != b.len() {
        return false;
    }
    let mut i: usize = 0;
    while i < a.len()
        invariant
            a@.len() == b@.len(),
            i <= a.len(),
            forall|k: int| 0 <= k < i ==> a@[k] == b@[k],
        decreases a.len() - i,
    {
        if a[i] != b[i] {
            return false;
        }
        i = i + 1;
    }
    proof {
        assert(a@ =~= b@);
    }
    true
}

/// ASCII-lowercase folding of one character: the case rule of the store's
/// default collation.
pub open spec fn lower_char(c: char) -> char {
    if 'A' <= c && c <= 'Z' {
        (((c as u8) + 32) as u8) as char
    } else {
        c
    }
}

/// Executable ASCII-lowercase folding.
pub fn lower_char_x(c: char) -> (r: char)
    ensures
        r == lower_char(c),
{
    if 'A' <= c && c <= 'Z' {
        ((c as u8) + 32) as char
    } else {
        c
    }
}

/// Folding twice folds once: lower-casing is idempotent.
pub proof fn lemma_lower_char_idempotent(c: char)
    ensures
        lower_char(lower_char(c)) == lower_char(c),
{
}

/// `q` occurs in `name` at position `i`, comparing ASCII letters without
/// regard to case.
pub open spec fn matches_at(name: Seq<char>, q: Seq<char>, i: int) -> bool {
    &&& 0 <= i
    &&& i + q.len() <= name.len()
    &&& forall|k: int| 0 <= k < q.len() ==> lower_char(name[i + k]) == lower_char(q[k])
}

/// `q` occurs somewhere in `name`, comparing ASCII letters without regard
/// to case. The empty query occurs in every string.
pub open spec fn contains_ci(name: Seq<char>, q: Seq<char>) -> bool {
    exists|i: int| matches_at(name, q, i)
}

/// Decides [`contains_ci`].
pub fn contains_ci_x(name: &Vec<char>, q: &Vec<char>) -> (b: bool)
    ensures
        b == contains_ci(name@, q@),
{
    let n = name.len();
    let m = q.len();
    if m > n {
        proof {
            assert(forall|i: int| !matches_at(name@, q@, i));
        }
        return false;
    }
    let mut i: usize = 0;
    while i <= n - m
        invariant
            m <= n,
            n == name@.len(),
            m == q@.len(),
            i <= n - m + 1,
            forall|j: int| 0 <= j < i ==> !matches_at(name@, q@, j),
        decreases n - m - i + 1,
    {
        let mut k: usize = 0;
        let mut all: bool = true;
        while k < m
            invariant
                m <= n,
                n == name@.len(),
                m == q@.len(),
                i + m <= n,
                k <= m,
                all == forall|t: int| 0 <= t < k ==> lower_char(name@[i + t]) == lower_char(
                    q@[t],
                ),
            decreases m - k,
        {
            if lower_char_x(name[i + k]) != lower_char_x(q[k]) {
                all = false;
            }
            k = k + 1;
        }
        if all {
            proof {
                assert(matches_at(name@, q@, i as int));
            }
            return true;
        }
        i = i + 1;
    }
    proof {
        assert(forall|j: int| matches_at(name@, q@, j) ==> 0 <= j <= n - m);
        assert(forall|j: int| !matches_at(name@, q@, j));
    }
    false
}

} // verus!
