//! Lexicographic ordering of character sequences and the numeric weight
//! key used to order font variants.

use vstd::prelude::*;
use crate::text::{is_digit_char, is_digit};

verus! {

// ---------------------------------------------------------------------------
// Lexicographic order on Seq<char>
// ---------------------------------------------------------------------------

/// Strict lexicographic order by Unicode scalar value.
pub open spec fn seq_lt(a: Seq<char>, b: Seq<char>) -> bool
    decreases a.len(),
{
    if b.len() == 0 {
        false
    } else if a.len() == 0 {
        true
    } else if a[0] != b[0] {
        a[0] < b[0]
    } else {
        seq_lt(a.drop_first(), b.drop_first())
    }
}

/// Lexicographic order, allowing equality.
pub open spec fn seq_le(a: Seq<char>, b: Seq<char>) -> bool {
    seq_lt(a, b) || a == b
}

pub proof fn lemma_seq_lt_irreflexive(a: Seq<char>)
    ensures
        !seq_lt(a, a),
    decreases a.len(),
{
    if a.len() > 0 {
        lemma_seq_lt_irreflexive(a.drop_first());
    }
}

pub proof fn lemma_seq_lt_asymmetric(a: Seq<char>, b: Seq<char>)
    ensures
        !(seq_lt(a, b) && seq_lt(b, a)),
    decreases a.len(),
{
    if a.len() > 0 && b.len() > 0 && a[0] == b[0] {
        lemma_seq_lt_asymmetric(a.drop_first(), b.drop_first());
    }
}

pub proof fn lemma_seq_lt_connected(a: Seq<char>, b: Seq<char>)
    ensures
        a != b ==> seq_lt(a, b) || seq_lt(b, a),
    decreases a.len(),
{
    if a.len() == 0 && b.len() == 0 {
        assert(a =~= b);
    } else if a.len() > 0 && b.len() > 0 && a[0] == b[0] {
        lemma_seq_lt_connected(a.drop_first(), b.drop_first());
        if a.drop_first() == b.drop_first() {
            assert(a.drop_first().len() == a.len() - 1);
            assert(b.drop_first().len() == b.len() - 1);
            assert(a.len() == b.len());
            assert forall|i: int| 0 <= i < a.len() implies a[i] == b[i] by {
                if i > 0 {
                    assert(a[i] == a.drop_first()[i - 1]);
                    assert(b[i] == b.drop_first()[i - 1]);
                }
            }
            assert(a =~= b);
        }
    }
}

pub proof fn lemma_seq_lt_transitive(a: Seq<char>, b: Seq<char>, c: Seq<char>)
    ensures
        seq_lt(a, b) && seq_lt(b, c) ==> seq_lt(a, c),
    decreases a.len(),
{
    if seq_lt(a, b) && seq_lt(b, c) {
        if a.len() == 0 {
        } else {
            // b and c are non-empty here
            if a[0] == b[0] && b[0] == c[0] {
                lemma_seq_lt_transitive(a.drop_first(), b.drop_first(), c.drop_first());
            }
        }
    }
}

/// `seq_le` is a total order on character sequences.
pub proof fn lemma_seq_le_total_ordering()
    ensures
        vstd::relations::total_ordering(|a: Seq<char>, b: Seq<char>| seq_le(a, b)),
{
    let r = |a: Seq<char>, b: Seq<char>| seq_le(a, b);
    assert forall|a: Seq<char>| #[trigger] r(a, a) by {
        assert(seq_le(a, a));
    }
    assert forall|a: Seq<char>, b: Seq<char>| #[trigger] r(a, b) && #[trigger] r(b, a) implies a
        == b by {
        lemma_seq_lt_asymmetric(a, b);
    }
    assert forall|a: Seq<char>, b: Seq<char>, c: Seq<char>|
        #[trigger] r(a, b) && #[trigger] r(b, c) implies r(a, c) by {
        lemma_seq_lt_transitive(a, b, c);
    }
    assert forall|a: Seq<char>, b: Seq<char>| #[trigger] r(a, b) || #[trigger] r(b, a) by {
        lemma_seq_lt_connected(a, b);
    }
}

fn str_le_from(a: &str, na: usize, b: &str, nb: usize, i: usize) -> (r: bool)
    requires
        na == a@.len(),
        nb == b@.len(),
        i <= na,
        i <= nb,
    ensures
        r == seq_le(a@.skip(i as int), b@.skip(i as int)),
    decreases na - i,
{
    let ghost x = a@.skip(i as int);
    let ghost y = b@.skip(i as int);
    if i == nb {
        proof {
            if i == na {
                assert(x =~= y);
            } else {
                assert(x.len() > 0 && y.len() == 0);
            }
        }
        i == na
    } else if i == na {
        proof {
            assert(x.len() == 0 && y.len() > 0);
        }
        true
    } else {
        let ca = a.get_char(i);
        let cb = b.get_char(i);
        if ca != cb {
            proof {
                assert(x[0] == ca && y[0] == cb);
                assert(x != y);
            }
            ca < cb
        } else {
            let r = str_le_from(a, na, b, nb, i + 1);
            proof {
                assert(x.drop_first() =~= a@.skip(i + 1));
                assert(y.drop_first() =~= b@.skip(i + 1));
                assert(x[0] == ca && y[0] == cb);
                if x.drop_first() == y.drop_first() {
                    assert forall|k: int| 0 <= k < x.len() implies x[k] == y[k] by {
                        if k > 0 {
                            assert(x[k] == x.drop_first()[k - 1]);
                            assert(y[k] == y.drop_first()[k - 1]);
                        }
                    }
                    assert(x =~= y);
                }
                if x == y {
                    assert(x.drop_first() =~= y.drop_first());
                }
            }
            r
        }
    }
}

/// Whether `a` comes no later than `b` in lexicographic order.
pub fn str_le(a: &str, b: &str) -> (r: bool)
    ensures
        r == seq_le(a@, b@),
{
    let na = a.unicode_len();
    let nb = b.unicode_len();
    let r = str_le_from(a, na, b, nb, 0);
    proof {
        assert(a@.skip(0) =~= a@);
        assert(b@.skip(0) =~= b@);
    }
    r
}

// ---------------------------------------------------------------------------
// Numeric weight key
// ---------------------------------------------------------------------------

/// Value of a digit string, most significant digit first.
pub open spec fn digits_val(s: Seq<char>) -> int
    decreases s.len(),
{
    if s.len() == 0 {
        0
    } else {
        digits_val(s.drop_last()) * 10 + ((s.last() as u32) - 48)
    }
}

pub open spec fn all_digits(s: Seq<char>) -> bool {
    s.len() > 0 && forall|i: int| 0 <= i < s.len() ==> is_digit_char(#[trigger] s[i])
}

/// The number a weight string stands for when ordering variants: its value
/// as a signed 32-bit decimal (optional sign, digits only, in range), and
/// 400 for anything else. Keyword weights therefore order as 400.
pub open spec fn weight_num(s: Seq<char>) -> int {
    if s.len() > 0 && s[0] == '-' && all_digits(s.skip(1)) && digits_val(s.skip(1)) <= 2147483648 {
        -digits_val(s.skip(1))
    } else if s.len() > 0 && s[0] == '+' && all_digits(s.skip(1)) && digits_val(s.skip(1))
        <= 2147483647 {
        digits_val(s.skip(1))
    } else if all_digits(s) && digits_val(s) <= 2147483647 {
        digits_val(s)
    } else {
        400
    }
}

proof fn lemma_digits_val_nonneg(s: Seq<char>)
    requires
        forall|i: int| 0 <= i < s.len() ==> is_digit_char(#[trigger] s[i]),
    ensures
        digits_val(s) >= 0,
    decreases s.len(),
{
    if s.len() > 0 {
        lemma_digits_val_nonneg(s.drop_last());
    }
}

proof fn lemma_digits_val_mono(s: Seq<char>, k: int)
    requires
        forall|i: int| 0 <= i < s.len() ==> is_digit_char(#[trigger] s[i]),
        0 <= k <= s.len(),
    ensures
        digits_val(s) >= digits_val(s.take(k)),
    decreases s.len() - k,
{
    if k < s.len() {
        lemma_digits_val_mono(s, k + 1);
        assert(s.take(k + 1).drop_last() =~= s.take(k));
        assert(s.take(k + 1).last() == s[k]);
        lemma_digits_val_nonneg(s.take(k));
    } else {
        assert(s.take(k) =~= s);
    }
}

/// The numeric key a weight string orders by.
pub fn weight_key(s: &str) -> (r: i64)
    ensures
        r as int == weight_num(s@),
{
    let n = s.unicode_len();
    if n == 0 {
        return 400;
    }
    let c0 = s.get_char(0);
    let neg = c0 == '-';
    let signed = c0 == '-' || c0 == '+';
    let start: usize = if signed { 1 } else { 0 };
    let ghost d = if signed { s@.skip(1) } else { s@ };
    if start == n {
        proof {
            if signed {
                assert(d.len() == 0);
            }
        }
        return 400;
    }
    // check every character from `start` on is a digit
    let mut k: usize = start;
    while k < n
        invariant
            start <= k <= n,
            0 < n == s@.len(),
            c0 == s@[0],
            signed == (c0 == '-' || c0 == '+'),
            start == if signed { 1int } else { 0int },
            d == if signed { s@.skip(1) } else { s@ },
            forall|i: int| start <= i < k ==> is_digit_char(#[trigger] s@[i]),
        decreases n - k,
    {
        if !is_digit(s.get_char(k)) {
            proof {
                assert(s@[0] == c0);
                assert(!is_digit_char(s@[k as int]));
                if signed {
                    assert(d[k - start] == s@[k as int]);
                    assert(!all_digits(d));
                    assert(!all_digits(s@)) by {
                        if all_digits(s@) {
                            assert(is_digit_char(s@[k as int]));
                        }
                    }
                } else {
                    assert(c0 != '-' && c0 != '+');
                    assert(!all_digits(s@));
                }
            }
            return 400;
        }
        k = k + 1;
    }
    proof {
        assert(forall|i: int| 0 <= i < d.len() ==> is_digit_char(#[trigger] d[i]));
        assert(all_digits(d));
    }
    // accumulate, giving up as soon as the value cannot fit
    let mut acc: u64 = 0;
    let mut j: usize = start;
    while j < n
        invariant
            start <= j <= n,
            0 < n == s@.len(),
            c0 == s@[0],
            neg == (c0 == '-'),
            signed == (c0 == '-' || c0 == '+'),
            start == if signed { 1int } else { 0int },
            d == if signed { s@.skip(1) } else { s@ },
            all_digits(d),
            acc as int == digits_val(d.take(j - start)),
            acc <= 2147483648,
        decreases n - j,
    {
        let c = s.get_char(j);
        proof {
            assert(d[j - start] == s@[j as int]);
            assert(is_digit_char(c));
            assert(d.take(j - start + 1).drop_last() =~= d.take(j - start));
            assert(d.take(j - start + 1).last() == d[j - start]);
        }
        let dv: u64 = (c as u64) - 48;
        let acc2: u64 = acc * 10 + dv;
        if acc2 > 2147483648 {
            proof {
                lemma_digits_val_mono(d, j - start + 1);
            }
            return 400;
        }
        acc = acc2;
        j = j + 1;
    }
    proof {
        assert(d.take(n - start) =~= d);
    }
    if neg {
        proof {
            assert(s@[0] == '-');
        }
        -(acc as i64)
    } else {
        if acc > 2147483647 {
            proof {
                assert(s@[0] == c0);
                if signed {
                    assert(c0 == '+');
                    assert(!is_digit_char('+'));
                    assert(!all_digits(s@)) by {
                        if all_digits(s@) {
                            assert(is_digit_char(s@[0]));
                        }
                    }
                } else {
                    assert(c0 != '-' && c0 != '+');
                    assert(digits_val(s@) > 2147483647);
                }
            }
            400
        } else {
            proof {
                assert(s@[0] == c0);
                if !signed {
                    assert(c0 != '-' && c0 != '+');
                }
            }
            acc as i64
        }
    }
}

} // verus!
