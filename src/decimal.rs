use vstd::prelude::*;

verus! {

/// `c` is an ASCII decimal digit.
pub open spec fn is_digit(c: char) -> bool {
    '0' <= c && c <= '9'
}

/// The value of a decimal digit.
pub open spec fn digit_value(c: char) -> nat {
    ((c as u32) - 48) as nat
}

/// The value of the decimal numeral `d`, most significant digit first.
pub open spec fn decimal_value(d: Seq<char>) -> nat
    decreases d.len(),
{
    if d.len() == 0 {
        0
    } else {
        decimal_value(d.drop_last()) * 10 + digit_value(d.last())
    }
}

/// The digits of an unsigned numeral: one leading `+` is allowed.
pub open spec fn unsigned_digits(t: Seq<char>) -> Seq<char> {
    if t.len() > 0 && t[0] == '+' {
        t.drop_first()
    } else {
        t
    }
}

/// `t` is an unsigned decimal numeral whose value fits in a `usize`.
pub open spec fn is_usize_numeral(t: Seq<char>) -> bool {
    let d = unsigned_digits(t);
    &&& d.len() > 0
    &&& forall|i: int| 0 <= i < d.len() ==> is_digit(#[trigger] d[i])
    &&& decimal_value(d) <= usize::MAX
}

/// What `t` reads as, as a `usize`: `None` unless it is an unsigned decimal
/// numeral that fits.
pub open spec fn usize_of(t: Seq<char>) -> Option<usize> {
    if is_usize_numeral(t) {
        Some(decimal_value(unsigned_digits(t)) as usize)
    } else {
        None
    }
}

/// A numeral is worth at least as much as each of its prefixes.
proof fn lemma_prefix_value_le(d: Seq<char>, j: int)
    requires
        0 <= j <= d.len(),
    ensures
        decimal_value(d.take(j)) <= decimal_value(d),
    decreases d.len(),
{
    if j == d.len() {
        assert(d.take(j) =~= d);
    } else {
        lemma_prefix_value_le(d.drop_last(), j);
        assert(d.drop_last().take(j) =~= d.take(j));
    }
}

/// Reads the characters of `l` from `start` on as an unsigned decimal numeral.
pub fn parse_usize(l: &Vec<char>, start: usize) -> (r: Option<usize>)
    requires
        start <= l.len(),
    ensures
        r == usize_of(l@.subrange(start as int, l.len() as int)),
{
    let ghost t = l@.subrange(start as int, l.len() as int);
    let mut p: usize = start;
    if p < l.len() && l[p] == '+' {
        p = p + 1;
    }
    let p0: usize = p;
    let ghost d = unsigned_digits(t);
    assert(d =~= l@.subrange(p0 as int, l.len() as int));
    if p0 == l.len() {
        return None;
    }
    let mut acc: usize = 0;
    while p < l.len()
        invariant
            start <= p0 <= p <= l.len(),
            t == l@.subrange(start as int, l.len() as int),
            d == unsigned_digits(t),
            d == l@.subrange(p0 as int, l.len() as int),
            acc == decimal_value(d.take(p - p0)),
            forall|i: int| 0 <= i < p - p0 ==> is_digit(#[trigger] d[i]),
        decreases l.len() - p,
    {
        let c = l[p];
        let ghost j: int = p - p0;
        assert(d[j] == c);
        if !('0' <= c && c <= '9') {
            return None;
        }
        let v: usize = ((c as u32) - 48) as usize;
        assert(d.take(j + 1).drop_last() =~= d.take(j));
        assert(decimal_value(d.take(j + 1)) == acc * 10 + v);
        let m = acc.checked_mul(10);
        if m.is_none() {
            proof {
                lemma_prefix_value_le(d, j + 1);
            }
            return None;
        }
        let m = m.unwrap();
        let n = m.checked_add(v);
        if n.is_none() {
            proof {
                lemma_prefix_value_le(d, j + 1);
            }
            return None;
        }
        acc = n.unwrap();
        p = p + 1;
    }
    assert(d.take(p - p0) =~= d);
    Some(acc)
}

} // verus!
