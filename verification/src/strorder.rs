//! Lexicographic ordering on character sequences.
//!
//! Keys are listed in key order and conflict resolution breaks timestamp
//! ties by the writer's id, so the core needs a total order on strings:
//! `str_lt` is the strict lexicographic order by Unicode scalar value, and
//! `str_compare` is its executable three-way comparator.

use vstd::prelude::*;
use vstd::string::StrSliceExecFns;

verus! {

broadcast use vstd::utf8::char_u32_cast;

/// Strict lexicographic order on character sequences, by scalar value.
pub open spec fn str_lt(a: Seq<char>, b: Seq<char>) -> bool
    decreases a.len(),
{
    if b.len() == 0 {
        false
    } else if a.len() == 0 {
        true
    } else if (a[0] as u32) < (b[0] as u32) {
        true
    } else if (b[0] as u32) < (a[0] as u32) {
        false
    } else {
        str_lt(a.drop_first(), b.drop_first())
    }
}

/// The strict order never relates a sequence to itself.
pub proof fn lemma_str_lt_irrefl(a: Seq<char>)
    ensures
        !str_lt(a, a),
    decreases a.len(),
{
    if a.len() > 0 {
        lemma_str_lt_irrefl(a.drop_first());
    }
}

/// Of two distinct sequences, exactly one is below the other.
pub proof fn lemma_str_lt_trichotomy(a: Seq<char>, b: Seq<char>)
    ensures
        str_lt(a, b) || str_lt(b, a) || a == b,
        str_lt(a, b) ==> !str_lt(b, a),
        str_lt(a, b) ==> a != b,
    decreases a.len(),
{
    if a.len() == 0 || b.len() == 0 {
        if a.len() == b.len() {
            assert(a =~= b);
        }
    } else if (a[0] as u32) == (b[0] as u32) {
        vstd::utf8::char_u32_cast(a[0], a[0] as u32);
        vstd::utf8::char_u32_cast(b[0], b[0] as u32);
        assert(a[0] == b[0]);
        lemma_str_lt_trichotomy(a.drop_first(), b.drop_first());
        if a.drop_first() == b.drop_first() {
            assert forall|i: int| 0 <= i < a.len() implies a[i] == b[i] by {
                if i > 0 {
                    assert(a.drop_first()[i - 1] == a[i]);
                    assert(b.drop_first()[i - 1] == b[i]);
                }
            }
            assert(a =~= b);
        }
        if a == b {
            lemma_str_lt_irrefl(a);
        }
    }
}

/// The strict order is transitive.
pub proof fn lemma_str_lt_trans(a: Seq<char>, b: Seq<char>, c: Seq<char>)
    requires
        str_lt(a, b),
        str_lt(b, c),
    ensures
        str_lt(a, c),
    decreases a.len(),
{
    if b.len() == 0 {
        // str_lt(a, b) is then false
    } else if c.len() == 0 {
        // str_lt(b, c) is then false
    } else if a.len() == 0 {
        // immediate: c is non-empty
    } else {
        if (a[0] as u32) == (b[0] as u32) && (b[0] as u32) == (c[0] as u32) {
            lemma_str_lt_trans(a.drop_first(), b.drop_first(), c.drop_first());
        }
    }
}

/// A common prefix of length `i` can be peeled off both sides of the order.
proof fn lemma_str_lt_skip(a: Seq<char>, b: Seq<char>, i: int)
    requires
        0 <= i <= a.len(),
        i <= b.len(),
        forall|j: int| 0 <= j < i ==> a[j] == b[j],
    ensures
        str_lt(a, b) == str_lt(a.skip(i), b.skip(i)),
    decreases i,
{
    if i > 0 {
        assert(a.len() > 0 && b.len() > 0);
        assert(a[0] == b[0]);
        assert((a[0] as u32) == (b[0] as u32));
        assert(str_lt(a, b) == str_lt(a.drop_first(), b.drop_first()));
        lemma_str_lt_skip(a.drop_first(), b.drop_first(), i - 1);
        assert(a.drop_first().skip(i - 1) =~= a.skip(i));
        assert(b.drop_first().skip(i - 1) =~= b.skip(i));
    } else {
        assert(a.skip(0) =~= a);
        assert(b.skip(0) =~= b);
    }
}

/// Three-way comparison of two strings under `str_lt`:
/// negative means the first is smaller, zero means equal views,
/// positive means the second is smaller.
pub fn str_compare(a: &str, b: &str) -> (r: i8)
    ensures
        (r == -1i8) <==> str_lt(a@, b@),
        (r == 0i8) <==> a@ == b@,
        (r == 1i8) <==> str_lt(b@, a@),
{
    let alen: usize = a.unicode_len();
    let blen: usize = b.unicode_len();
    let mut i: usize = 0;
    loop
        invariant
            0 <= i <= alen,
            i <= blen,
            alen == a@.len(),
            blen == b@.len(),
            forall|j: int| 0 <= j < i ==> a@[j] == b@[j],
        decreases alen - i,
    {
        proof {
            lemma_str_lt_skip(a@, b@, i as int);
            lemma_str_lt_skip(b@, a@, i as int);
        }
        if i >= alen || i >= blen {
            if alen == blen {
                assert(a@ =~= b@);
                proof {
                    lemma_str_lt_irrefl(a@);
                }
                return 0i8;
            } else if alen < blen {
                assert(str_lt(a@.skip(i as int), b@.skip(i as int)));
                assert(!str_lt(b@.skip(i as int), a@.skip(i as int)));
                assert(a@.len() != b@.len());
                return -1i8;
            } else {
                assert(str_lt(b@.skip(i as int), a@.skip(i as int)));
                assert(!str_lt(a@.skip(i as int), b@.skip(i as int)));
                return 1i8;
            }
        }
        let ca: char = a.get_char(i);
        let cb: char = b.get_char(i);
        if (ca as u32) < (cb as u32) {
            assert(a@.skip(i as int)[0] == ca && b@.skip(i as int)[0] == cb);
            assert(str_lt(a@.skip(i as int), b@.skip(i as int)));
            assert(!str_lt(b@.skip(i as int), a@.skip(i as int)));
            assert(a@ != b@);
            return -1i8;
        } else if (cb as u32) < (ca as u32) {
            assert(str_lt(b@.skip(i as int), a@.skip(i as int)));
            assert(!str_lt(a@.skip(i as int), b@.skip(i as int)));
            assert(a@ != b@);
            return 1i8;
        }
        assert(ca == cb);
        i = i + 1;
    }
}

/// Executable test for strict lexicographic order.
pub fn str_less(a: &str, b: &str) -> (r: bool)
    ensures
        r == str_lt(a@, b@),
{
    str_compare(a, b) == -1i8
}

/// Executable test for view equality of two strings.
pub fn str_equal(a: &str, b: &str) -> (r: bool)
    ensures
        r == (a@ == b@),
{
    str_compare(a, b) == 0i8
}

} // verus!
