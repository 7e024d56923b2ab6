use vstd::prelude::*;

verus! {

/// The byte of `,`.
pub const COMMA: u8 = 44;

/// The byte of `+`.
pub const PLUS: u8 = 43;

pub open spec fn is_digit(b: u8) -> bool {
    48 <= b <= 57
}

pub open spec fn all_digits(s: Seq<u8>) -> bool {
    forall|i: int| 0 <= i < s.len() ==> is_digit(#[trigger] s[i])
}

/// The value of a string of decimal digits.
pub open spec fn digits_value(s: Seq<u8>) -> int
    decreases s.len(),
{
    if s.len() == 0 {
        0
    } else {
        digits_value(s.drop_last()) * 10 + (s.last() - 48)
    }
}

/// The unsigned number a field spells, as Rust's integer parsing reads it
/// (decimal digits, optionally after one `+`), if it is at most `max`.
#[verifier::opaque]
pub open spec fn decimal_field(s: Seq<u8>, max: int) -> Option<int> {
    let d = if s.len() > 0 && s[0] == PLUS {
        s.subrange(1, s.len() as int)
    } else {
        s
    };
    if d.len() > 0 && all_digits(d) && digits_value(d) <= max {
        Some(digits_value(d))
    } else {
        None
    }
}

/// The positions of the commas among the first `n` bytes of `s`.
pub open spec fn commas_upto(s: Seq<u8>, n: int) -> Seq<usize>
    decreases n,
{
    if n <= 0 {
        seq![]
    } else if s[n - 1] == COMMA {
        commas_upto(s, n - 1).push((n - 1) as usize)
    } else {
        commas_upto(s, n - 1)
    }
}

/// The positions of the commas of `s`.
pub open spec fn commas(s: Seq<u8>) -> Seq<usize> {
    commas_upto(s, s.len() as int)
}

/// Field `k` of `s`, where `c` holds the positions of its commas.
pub open spec fn field(s: Seq<u8>, c: Seq<usize>, k: int) -> Seq<u8> {
    s.subrange(
        if k == 0 {
            0
        } else {
            c[k - 1] + 1
        },
        if k < c.len() {
            c[k] as int
        } else {
            s.len() as int
        },
    )
}

proof fn lemma_digits_prefix(s: Seq<u8>, k: int)
    requires
        0 <= k <= s.len(),
        all_digits(s),
    ensures
        digits_value(s.subrange(0, k)) <= digits_value(s),
        digits_value(s) >= 0,
    decreases s.len(),
{
    if s.len() > 0 {
        assert(all_digits(s.drop_last()));
        if k == s.len() {
            assert(s.subrange(0, k) =~= s);
            lemma_digits_prefix(s.drop_last(), 0);
        } else {
            assert(s.drop_last().subrange(0, k) =~= s.subrange(0, k));
            lemma_digits_prefix(s.drop_last(), k);
        }
    } else {
        assert(s.subrange(0, k) =~= s);
    }
}

/// Reads the unsigned decimal in `buf[start..end]`, if it is at most `max`.
pub fn parse_decimal(buf: &[u8], start: usize, end: usize, max: u64) -> (r: Option<u64>)
    requires
        start <= end <= buf@.len(),
        max <= u32::MAX,
    ensures
        r is None <==> decimal_field(buf@.subrange(start as int, end as int), max as int) is None,
        r is Some ==> decimal_field(buf@.subrange(start as int, end as int), max as int) == Some(
            r->0 as int,
        ) && r->0 <= max,
{
    reveal(decimal_field);
    let ghost s = buf@.subrange(start as int, end as int);
    let mut p: usize = start;
    if end > start && buf[start] == PLUS {
        p = start + 1;
    }
    let ghost d = buf@.subrange(p as int, end as int);
    assert(d =~= (if s.len() > 0 && s[0] == PLUS {
        s.subrange(1, s.len() as int)
    } else {
        s
    }));
    if p == end {
        return None;
    }
    let mut acc: u64 = 0;
    let mut i: usize = p;
    assert(buf@.subrange(p as int, p as int) =~= Seq::<u8>::empty());
    while i < end
        invariant
            p <= i <= end <= buf@.len(),
            d == buf@.subrange(p as int, end as int),
            s == buf@.subrange(start as int, end as int),
            d == (if s.len() > 0 && s[0] == PLUS {
                s.subrange(1, s.len() as int)
            } else {
                s
            }),
            d.len() > 0,
            max <= u32::MAX,
            acc <= max,
            all_digits(buf@.subrange(p as int, i as int)),
            acc == digits_value(buf@.subrange(p as int, i as int)),
        decreases end - i,
    {
        let b = buf[i];
        if b < 48 || b > 57 {
            assert(d[i - p] == b);
            reveal(decimal_field);
            return None;
        }
        assert(buf@.subrange(p as int, i + 1).drop_last() =~= buf@.subrange(p as int, i as int));
        let next: u64 = acc * 10 + (b - 48) as u64;
        if next > max {
            proof {
                reveal(decimal_field);
                if all_digits(d) {
                    assert(buf@.subrange(p as int, i + 1) =~= d.subrange(0, i + 1 - p));
                    lemma_digits_prefix(d, i + 1 - p);
                }
            }
            return None;
        }
        acc = next;
        i = i + 1;
    }
    assert(buf@.subrange(p as int, i as int) =~= d);
    Some(acc)
}

/// The positions of the commas of `buf`, in order.
pub fn comma_positions(buf: &[u8]) -> (r: Vec<usize>)
    ensures
        r@ == commas(buf@),
        forall|k: int| 0 <= k < r@.len() ==> #[trigger] r@[k] < buf@.len(),
        forall|j: int, k: int| 0 <= j < k < r@.len() ==> r@[j] < r@[k],
{
    let mut r: Vec<usize> = Vec::new();
    let mut i: usize = 0;
    while i < buf.len()
        invariant
            i <= buf@.len(),
            r@ == commas_upto(buf@, i as int),
            forall|k: int| 0 <= k < r@.len() ==> #[trigger] r@[k] < i,
            forall|j: int, k: int| 0 <= j < k < r@.len() ==> r@[j] < r@[k],
        decreases buf@.len() - i,
    {
        if buf[i] == COMMA {
            r.push(i);
        }
        i = i + 1;
    }
    r
}

/// A copy of `buf[start..end]`.
pub fn copy_range(buf: &[u8], start: usize, end: usize) -> (r: Vec<u8>)
    requires
        start <= end <= buf@.len(),
    ensures
        r@ == buf@.subrange(start as int, end as int),
{
    let mut r: Vec<u8> = Vec::new();
    let mut i: usize = start;
    while i < end
        invariant
            start <= i <= end <= buf@.len(),
            r@ == buf@.subrange(start as int, i as int),
        decreases end - i,
    {
        r.push(buf[i]);
        assert(r@ =~= buf@.subrange(start as int, i + 1));
        i = i + 1;
    }
    r
}

} // verus!
