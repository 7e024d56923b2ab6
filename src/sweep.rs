use crate::lru::{monotone, run, simulate, spans_of};
use crate::row::is_digit;
use crate::sim_record::Access;
use vstd::arithmetic::div_mod::{lemma_basic_div, lemma_fundamental_div_mod};
use vstd::arithmetic::mul::lemma_mul_inequality;
use vstd::arithmetic::power2::{lemma2_to64, lemma_pow2_strictly_increases, pow2};
use vstd::bits::lemma_u64_shr_is_div;
use vstd::prelude::*;
use vstd::string::StringSliceAdditionalSpecFns;

verus! {

/// Why a sweep could not be set up.
#[derive(Debug, PartialEq, Eq, Structural, Clone, Copy)]
pub enum SweepError {
    /// The maximum cache size is not a size.
    InvalidSize,
}

/// The number of bytes that a size such as `"10 KB"`, `"0.2 MiB"` or `"20000"`
/// stands for, if it stands for one that fits in a `u64`.
pub uninterp spec fn parsed_size(text: Seq<char>) -> Option<u64>;

/// Size texts with more decimal digits than this are refused before they are
/// parsed; every number of bytes that fits a `u64` can be written with fewer.
pub const MAX_SIZE_DIGITS: usize = 20;

/// The number of decimal digits among the bytes of `s`.
pub open spec fn digit_count(s: Seq<u8>) -> int
    decreases s.len(),
{
    if s.len() == 0 {
        0
    } else {
        digit_count(s.drop_last()) + if is_digit(s.last()) {
            1int
        } else {
            0int
        }
    }
}

/// The number of decimal digits in `text`.
pub fn count_digits(text: &str) -> (r: usize)
    ensures
        r == digit_count(text.spec_bytes()),
{
    let b = text.as_bytes();
    let mut count: usize = 0;
    let mut i: usize = 0;
    while i < b.len()
        invariant
            i <= b@.len(),
            count <= i,
            count == digit_count(b@.subrange(0, i as int)),
        decreases b@.len() - i,
    {
        assert(b@.subrange(0, i + 1).drop_last() =~= b@.subrange(0, i as int));
        if b[i] >= 48 && b[i] <= 57 {
            count = count + 1;
        }
        i = i + 1;
    }
    assert(b@.subrange(0, i as int) =~= b@);
    count
}

/// Relies on parse_size's `parse_size` (default configuration): the number of
/// bytes the text stands for, or an error, depending on the text alone. With
/// more than twenty digits its mantissa can overflow, so such texts are left out.
#[verifier::external_body]
fn parse_size_text(text: &str) -> (r: Option<u64>)
    requires
        digit_count(text.spec_bytes()) <= MAX_SIZE_DIGITS,
    ensures
        r == parsed_size(text@),
{
    parse_size::parse_size(text).ok()
}

/// The log-spaced budgets of a sweep, from a maximum size given as text, and
/// how many steps were skipped because their budget came to zero. A text with
/// more than `MAX_SIZE_DIGITS` digits is refused.
pub fn budgets_for(max_size: &str, num_steps: u64) -> (r: Result<(Vec<u64>, u64), SweepError>)
    ensures
        digit_count(max_size.spec_bytes()) > MAX_SIZE_DIGITS ==> r == Err::<(Vec<u64>, u64), SweepError>(
            SweepError::InvalidSize,
        ),
        digit_count(max_size.spec_bytes()) <= MAX_SIZE_DIGITS ==> match parsed_size(max_size@) {
            Some(m) => r is Ok && r->Ok_0.0@ == log_budgets(m, num_steps as nat) && r->Ok_0.1
                == num_steps - log_budgets(m, num_steps as nat).len(),
            None => r == Err::<(Vec<u64>, u64), SweepError>(SweepError::InvalidSize),
        },
{
    if count_digits(max_size) > MAX_SIZE_DIGITS {
        return Err(SweepError::InvalidSize);
    }
    match parse_size_text(max_size) {
        Some(m) => {
            let budgets = logspace(m, num_steps);
            proof {
                lemma_log_budgets_len(m, num_steps as nat);
            }
            let skipped = num_steps - budgets.len() as u64;
            Ok((budgets, skipped))
        },
        None => Err(SweepError::InvalidSize),
    }
}

/// There is at most one budget per step.
pub proof fn lemma_log_budgets_len(max: u64, k: nat)
    ensures
        log_budgets(max, k).len() <= k,
    decreases k,
{
    if k > 0 {
        lemma_log_budgets_len(max, (k - 1) as nat);
    }
}

/// Replays `trace` once for each budget, each time from an empty cache, and
/// returns the lifespans recorded under each budget.
pub fn sweep(trace: &Vec<Access>, budgets: &Vec<u64>) -> (r: Vec<Vec<u64>>)
    requires
        monotone(trace@),
    ensures
        r@.len() == budgets@.len(),
        forall|i: int|
            0 <= i < budgets@.len() ==> spans_of(#[trigger] r@[i]@) == run(trace@, budgets@[i]).1,
{
    let mut out: Vec<Vec<u64>> = Vec::new();
    let mut i: usize = 0;
    while i < budgets.len()
        invariant
            i <= budgets@.len(),
            out@.len() == i,
            monotone(trace@),
            forall|j: int| 0 <= j < i ==> spans_of(#[trigger] out@[j]@) == run(trace@, budgets@[j]).1,
        decreases budgets@.len() - i,
    {
        let spans = simulate(trace, budgets[i]);
        out.push(spans);
        i = i + 1;
    }
    out
}

/// `b` as a one-element budget list, or nothing when it is zero.
pub open spec fn nonzero(b: int) -> Seq<u64> {
    if b == 0 {
        seq![]
    } else {
        seq![b as u64]
    }
}

/// The log-spaced budgets `max / 2^(k-1)`, ..., `max / 2^0`, zeros left out.
pub open spec fn log_budgets(max: u64, k: nat) -> Seq<u64>
    decreases k,
{
    if k == 0 {
        seq![]
    } else {
        nonzero(max as int / pow2((k - 1) as nat) as int) + log_budgets(max, (k - 1) as nat)
    }
}

/// The linear budgets `1 * (max / n)`, ..., `k * (max / n)`, zeros left out.
pub open spec fn lin_budgets(max: u64, n: nat, k: nat) -> Seq<u64>
    decreases k,
{
    if k == 0 || n == 0 {
        seq![]
    } else {
        lin_budgets(max, n, (k - 1) as nat) + nonzero(k * (max as int / n as int))
    }
}

/// The TTLs declared in `trace`, scaled from seconds to milliseconds; absent
/// and zero TTLs left out.
pub open spec fn ttl_spans(trace: Seq<Access>) -> Seq<int>
    decreases trace.len(),
{
    if trace.len() == 0 {
        seq![]
    } else {
        ttl_spans(trace.drop_last()) + match trace.last().ttl {
            Some(t) => if t > 0 {
                seq![t * 1000]
            } else {
                seq![]
            },
            None => seq![],
        }
    }
}

/// Budgets `max_size / 2^(num_steps - i)` for `i` in `1..=num_steps`, smallest
/// first, with those that come to zero left out.
pub fn logspace(max_size: u64, max_num_steps: u64) -> (r: Vec<u64>)
    ensures
        r@ == log_budgets(max_size, max_num_steps as nat),
{
    let mut space: Vec<u64> = Vec::new();
    let mut remaining: u64 = max_num_steps;
    assert(space@ + log_budgets(max_size, remaining as nat) =~= log_budgets(
        max_size,
        max_num_steps as nat,
    ));
    while remaining > 0
        invariant
            space@ + log_budgets(max_size, remaining as nat) == log_budgets(
                max_size,
                max_num_steps as nat,
            ),
        decreases remaining,
    {
        let shift: u64 = remaining - 1;
        let cache_size: u64 = if shift >= 64 {
            proof {
                lemma2_to64();
                if shift > 64 {
                    lemma_pow2_strictly_increases(64, shift as nat);
                }
                lemma_basic_div(max_size as int, pow2(shift as nat) as int);
            }
            0
        } else {
            proof {
                lemma_u64_shr_is_div(max_size, shift);
            }
            max_size >> shift
        };
        assert(cache_size == max_size as int / pow2(shift as nat) as int);
        let ghost before = space@;
        if cache_size != 0 {
            space.push(cache_size);
        }
        assert(space@ =~= before + nonzero(cache_size as int));
        remaining = remaining - 1;
        assert(space@ + log_budgets(max_size, remaining as nat) =~= before + log_budgets(
            max_size,
            (remaining + 1) as nat,
        ));
    }
    space
}

/// Budgets `i * (max_size / num_steps)` for `i` in `1..=num_steps`, with those
/// that come to zero left out.
pub fn linspace(max_size: u64, max_num_steps: u64) -> (r: Vec<u64>)
    requires
        max_num_steps > 0,
    ensures
        r@ == lin_budgets(max_size, max_num_steps as nat, max_num_steps as nat),
{
    let mut space: Vec<u64> = Vec::new();
    let step: u64 = max_size / max_num_steps;
    let mut done: u64 = 0;
    proof {
        lemma_fundamental_div_mod(max_size as int, max_num_steps as int);
    }
    while done < max_num_steps
        invariant
            done <= max_num_steps,
            step == max_size as int / max_num_steps as int,
            max_num_steps * step <= max_size,
            space@ == lin_budgets(max_size, max_num_steps as nat, done as nat),
        decreases max_num_steps - done,
    {
        let i: u64 = done + 1;
        proof {
            lemma_mul_inequality(i as int, max_num_steps as int, step as int);
        }
        let cache_size: u64 = i * step;
        if cache_size != 0 {
            space.push(cache_size);
        }
        assert(space@ =~= lin_budgets(max_size, max_num_steps as nat, i as nat));
        done = i;
    }
    space
}

/// The TTL of every access that declares one, in milliseconds, in trace order.
pub fn get_ttls(trace: &Vec<Access>) -> (r: Vec<u64>)
    ensures
        r@.map_values(|x: u64| x as int) == ttl_spans(trace@),
{
    let mut lifespans: Vec<u64> = Vec::new();
    let mut i: usize = 0;
    assert(trace@.subrange(0, 0) =~= Seq::<Access>::empty());
    assert(lifespans@.map_values(|x: u64| x as int) =~= Seq::<int>::empty());
    while i < trace.len()
        invariant
            i <= trace@.len(),
            lifespans@.map_values(|x: u64| x as int) == ttl_spans(trace@.subrange(0, i as int)),
        decreases trace@.len() - i,
    {
        let ghost before = lifespans@;
        if let Some(ttl) = trace[i].ttl {
            if ttl > 0 {
                lifespans.push(ttl as u64 * 1000u64);
            }
        }
        assert(trace@.subrange(0, i + 1).drop_last() =~= trace@.subrange(0, i as int));
        assert(lifespans@.map_values(|x: u64| x as int) =~= ttl_spans(
            trace@.subrange(0, i + 1),
        ));
        i = i + 1;
    }
    assert(trace@.subrange(0, i as int) =~= trace@);
    lifespans
}

} // verus!
