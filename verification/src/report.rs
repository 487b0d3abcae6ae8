//! Run-wide counters and the two-line summary they are reported in.

use crate::engine::{OutcomeModel, PairOutcome};
use vstd::prelude::*;

verus! {

/// The decimal digits of `n`, most significant first; empty for zero.
pub open spec fn digits_of(n: nat) -> Seq<u8>
    decreases n,
{
    if n == 0 {
        Seq::empty()
    } else {
        digits_of(n / 10) + seq![(48 + (n % 10)) as u8]
    }
}

/// The decimal rendering of `n`: its digits, or `0` for zero.
pub open spec fn decimal_of(n: nat) -> Seq<u8> {
    if n == 0 {
        seq![48u8]
    } else {
        digits_of(n)
    }
}

/// The bytes of the label `filter read: `.
pub open spec fn filter_label() -> Seq<u8> {
    seq![
        102u8,
        105u8,
        108u8,
        116u8,
        101u8,
        114u8,
        32u8,
        114u8,
        101u8,
        97u8,
        100u8,
        58u8,
        32u8,
    ]
}

/// The bytes of the label `remain read: `.
pub open spec fn remain_label() -> Seq<u8> {
    seq![
        114u8,
        101u8,
        109u8,
        97u8,
        105u8,
        110u8,
        32u8,
        114u8,
        101u8,
        97u8,
        100u8,
        58u8,
        32u8,
    ]
}

/// The whole summary: one `filter read` line and one `remain read` line.
pub open spec fn spec_report(filtered: nat, retained: nat) -> Seq<u8> {
    filter_label() + decimal_of(filtered) + seq![10u8] + remain_label() + decimal_of(retained)
        + seq![10u8]
}

proof fn lemma_reverse_push(s: Seq<u8>, d: u8)
    ensures
        (s.push(d)).reverse() == seq![d] + s.reverse(),
{
    assert((s.push(d)).reverse() =~= seq![d] + s.reverse());
}

/// The decimal rendering of `n` as bytes.
pub fn decimal_bytes(n: usize) -> (r: Vec<u8>)
    ensures
        r@ == decimal_of(n as nat),
{
    if n == 0 {
        let mut out: Vec<u8> = Vec::new();
        out.push(48u8);
        proof {
            assert(out@ =~= decimal_of(0));
        }
        return out;
    }
    let mut rev: Vec<u8> = Vec::new();
    let mut m: usize = n;
    while m > 0
        invariant
            digits_of(n as nat) == digits_of(m as nat) + rev@.reverse(),
        decreases m,
    {
        let d: u8 = (m % 10) as u8 + 48;
        proof {
            lemma_reverse_push(rev@, d);
            assert(digits_of(m as nat) + rev@.reverse() =~= digits_of((m / 10) as nat) + (seq![d]
                + rev@.reverse()));
        }
        rev.push(d);
        m = m / 10;
    }
    let mut out: Vec<u8> = Vec::new();
    proof {
        assert(digits_of(n as nat) =~= out@ + rev@.reverse());
    }
    while rev.len() > 0
        invariant
            digits_of(n as nat) == out@ + rev@.reverse(),
        decreases rev@.len(),
    {
        proof {
            lemma_reverse_push(rev@.drop_last(), rev@.last());
            assert(rev@.drop_last().push(rev@.last()) =~= rev@);
        }
        let d: u8 = match rev.pop() {
            Some(d) => d,
            None => 48u8,
        };
        out.push(d);
        proof {
            assert(digits_of(n as nat) =~= out@ + rev@.reverse());
        }
    }
    proof {
        assert(digits_of(n as nat) =~= out@);
    }
    out
}

/// The run-wide counters: how many pairs were filtered out and how many
/// were kept.
pub struct Reporter {
    pub filter_read: usize,
    pub remain_read: usize,
}

impl Reporter {
    /// How many pairs this reporter has counted in all.
    pub open spec fn total(&self) -> int {
        self.filter_read + self.remain_read
    }

    /// Fresh counters at run start.
    pub fn new() -> (r: Self)
        ensures
            r.filter_read == 0,
            r.remain_read == 0,
    {
        Reporter { filter_read: 0, remain_read: 0 }
    }

    /// Counts one outcome: a kept pair bumps `remain_read`, a discarded
    /// pair bumps `filter_read`, and nothing else changes, so every
    /// processed pair is counted exactly once.
    pub fn record(&mut self, outcome: &PairOutcome)
        requires
            old(self).total() < usize::MAX,
        ensures
            final(self).total() == old(self).total() + 1,
            outcome@ is Keep ==> final(self).remain_read == old(self).remain_read + 1
                && final(self).filter_read == old(self).filter_read,
            outcome@ is Discard ==> final(self).filter_read == old(self).filter_read + 1
                && final(self).remain_read == old(self).remain_read,
    {
        match outcome {
            PairOutcome::Keep { .. } => {
                self.remain_read = self.remain_read + 1;
            },
            PairOutcome::Discard => {
                self.filter_read = self.filter_read + 1;
            },
        }
    }

    /// The final counts, filtered first and retained second.
    pub fn summary(&self) -> (r: (usize, usize))
        ensures
            r.0 == self.filter_read,
            r.1 == self.remain_read,
    {
        (self.filter_read, self.remain_read)
    }

    /// The two-line summary of this reporter's counts, as bytes.
    pub fn report_bytes(&self) -> (r: Vec<u8>)
        ensures
            r@ == spec_report(self.filter_read as nat, self.remain_read as nat),
    {
        let mut out: Vec<u8> = Vec::new();
        push_filter_label(&mut out);
        let mut d1 = decimal_bytes(self.filter_read);
        out.append(&mut d1);
        out.push(10u8);
        push_remain_label(&mut out);
        let mut d2 = decimal_bytes(self.remain_read);
        out.append(&mut d2);
        out.push(10u8);
        proof {
            assert(out@ =~= spec_report(self.filter_read as nat, self.remain_read as nat));
        }
        out
    }
}

/// Appends the `filter read: ` label to `out`.
fn push_filter_label(out: &mut Vec<u8>)
    ensures
        final(out)@ == old(out)@ + filter_label(),
{
    out.push(102u8);
    out.push(105u8);
    out.push(108u8);
    out.push(116u8);
    out.push(101u8);
    out.push(114u8);
    out.push(32u8);
    out.push(114u8);
    out.push(101u8);
    out.push(97u8);
    out.push(100u8);
    out.push(58u8);
    out.push(32u8);
    proof {
        assert(out@ =~= old(out)@ + filter_label());
    }
}

/// Appends the `remain read: ` label to `out`.
fn push_remain_label(out: &mut Vec<u8>)
    ensures
        final(out)@ == old(out)@ + remain_label(),
{
    out.push(114u8);
    out.push(101u8);
    out.push(109u8);
    out.push(97u8);
    out.push(105u8);
    out.push(110u8);
    out.push(32u8);
    out.push(114u8);
    out.push(101u8);
    out.push(97u8);
    out.push(100u8);
    out.push(58u8);
    out.push(32u8);
    proof {
        assert(out@ =~= old(out)@ + remain_label());
    }
}

/// How many of a run's outcomes were keeps.
pub open spec fn count_kept(os: Seq<OutcomeModel>) -> nat
    decreases os.len(),
{
    if os.len() == 0 {
        0
    } else {
        count_kept(os.drop_last()) + (if os.last() is Keep {
            1nat
        } else {
            0nat
        })
    }
}

/// How many of a run's outcomes were discards.
pub open spec fn count_discarded(os: Seq<OutcomeModel>) -> nat
    decreases os.len(),
{
    if os.len() == 0 {
        0
    } else {
        count_discarded(os.drop_last()) + (if os.last() is Discard {
            1nat
        } else {
            0nat
        })
    }
}

/// Law: over any run, the filtered and the retained pairs together are
/// exactly the pairs consumed.
pub proof fn lemma_filtered_plus_retained(os: Seq<OutcomeModel>)
    ensures
        count_kept(os) + count_discarded(os) == os.len(),
    decreases os.len(),
{
    if os.len() > 0 {
        lemma_filtered_plus_retained(os.drop_last());
    }
}

} // verus!
