//! The per-pair extraction and filter algorithm: apply the anchored
//! matcher to read 1's sequence, keep the pair when both named groups
//! `cb` and `umi` are present, and rebuild read 1 from the two matched
//! spans of its sequence and quality.

use crate::matcher::{named_span, Matcher};
use crate::record::{copy_bytes, copy_opt_bytes, push_range, wf_record, RecordModel, SequenceRecord};
use crate::report::{count_discarded, count_kept, Reporter};
use vstd::prelude::*;
use vstd::string::StringSliceAdditionalSpecFns;
use vstd::utf8::valid_utf8;

verus! {

/// Read 1's sequence was not valid text; the run aborts on it.
#[derive(Debug)]
pub struct EncodingError {}

/// What becomes of one read pair.
pub enum PairOutcome {
    /// The pair is kept: the rewritten read 1 and the untouched read 2.
    Keep { read1: SequenceRecord, read2: SequenceRecord },
    /// The pair is dropped and counted as filtered.
    Discard,
}

/// Mathematical view of a pair outcome.
#[verifier::ext_equal]
pub enum OutcomeModel {
    Keep { read1: RecordModel, read2: RecordModel },
    Discard,
}

impl View for PairOutcome {
    type V = OutcomeModel;

    open spec fn view(&self) -> OutcomeModel {
        match self {
            PairOutcome::Keep { read1, read2 } => OutcomeModel::Keep {
                read1: read1@,
                read2: read2@,
            },
            PairOutcome::Discard => OutcomeModel::Discard,
        }
    }
}

/// A half-open byte range that lies within a sequence of length `len`.
pub open spec fn span_fits(sp: (int, int), len: int) -> bool {
    0 <= sp.0 <= sp.1 <= len
}

/// Read 1 rewritten from the two matched spans: the new sequence is the
/// `cb` bytes followed by the `umi` bytes, and the new quality is the
/// quality bytes at the same spans in the same order; identifier and
/// description are unchanged.
pub open spec fn extracted(r1: RecordModel, cb: (int, int), umi: (int, int)) -> RecordModel {
    RecordModel {
        id: r1.id,
        desc: r1.desc,
        seq: r1.seq.subrange(cb.0, cb.1) + r1.seq.subrange(umi.0, umi.1),
        qual: r1.qual.subrange(cb.0, cb.1) + r1.qual.subrange(umi.0, umi.1),
    }
}

/// The keep/discard decision on one pair: keep exactly when the anchored
/// pattern matches read 1's sequence and both named groups `cb` and
/// `umi` took part in the match.
pub open spec fn decide(fragment: Seq<char>, r1: RecordModel, r2: RecordModel) -> OutcomeModel {
    match (named_span(fragment, r1.seq, "cb"@), named_span(fragment, r1.seq, "umi"@)) {
        (Some(Some(cb)), Some(Some(umi))) => if span_fits(cb, r1.seq.len() as int) && span_fits(
            umi,
            r1.seq.len() as int,
        ) {
            OutcomeModel::Keep { read1: extracted(r1, cb, umi), read2: r2 }
        } else {
            OutcomeModel::Discard
        },
        _ => OutcomeModel::Discard,
    }
}

/// Relies on `core::str::from_utf8`: it succeeds exactly on valid UTF-8
/// input, and the resulting string slice views the same bytes.
#[verifier::external_body]
fn decode_utf8(bytes: &[u8]) -> (r: Option<&str>)
    ensures
        r is Some <==> valid_utf8(bytes@),
        r matches Some(s) ==> s.spec_bytes() == bytes@,
{
    core::str::from_utf8(bytes).ok()
}

impl Matcher {
    /// The core per-pair operation: decode read 1's sequence, query the
    /// matcher for the `cb` and `umi` spans, and either rebuild read 1
    /// from them or discard the pair.  A sequence that is not valid text
    /// is a hard error, not a discard.
    pub fn process(&self, r1: &SequenceRecord, r2: &SequenceRecord) -> (out: Result<
        PairOutcome,
        EncodingError,
    >)
        requires
            wf_record(r1@),
        ensures
            out matches Ok(o) ==> valid_utf8(r1@.seq) && o@ == decide(self.fragment(), r1@, r2@),
            out is Err <==> !valid_utf8(r1@.seq),
    {
        let s = match decode_utf8(r1.seq.as_slice()) {
            Some(s) => s,
            None => {
                return Err(EncodingError {});
            },
        };
        let cb = self.named_span_raw(s, "cb");
        let umi = self.named_span_raw(s, "umi");
        match (cb, umi) {
            (Some(Some(cb)), Some(Some(umi))) => {
                let mut seq: Vec<u8> = Vec::new();
                push_range(&mut seq, &r1.seq, cb.0, cb.1);
                push_range(&mut seq, &r1.seq, umi.0, umi.1);
                let mut qual: Vec<u8> = Vec::new();
                push_range(&mut qual, &r1.qual, cb.0, cb.1);
                push_range(&mut qual, &r1.qual, umi.0, umi.1);
                let read1 = SequenceRecord {
                    id: copy_bytes(&r1.id),
                    desc: copy_opt_bytes(&r1.desc),
                    seq,
                    qual,
                };
                let read2 = SequenceRecord {
                    id: copy_bytes(&r2.id),
                    desc: copy_opt_bytes(&r2.desc),
                    seq: copy_bytes(&r2.seq),
                    qual: copy_bytes(&r2.qual),
                };
                let out = PairOutcome::Keep { read1, read2 };
                proof {
                    assert(out@ =~= decide(self.fragment(), r1@, r2@));
                }
                Ok(out)
            },
            _ => {
                proof {
                    assert(decide(self.fragment(), r1@, r2@) is Discard);
                }
                Ok(PairOutcome::Discard)
            },
        }
    }
}

/// The views of a sequence of read pairs.
pub open spec fn pair_models(prs: Seq<(SequenceRecord, SequenceRecord)>) -> Seq<
    (RecordModel, RecordModel),
> {
    Seq::new(prs.len(), |i: int| (prs[i].0@, prs[i].1@))
}

/// The outcome of every pair of a run, in order.
pub open spec fn run_outcomes(fragment: Seq<char>, prs: Seq<(RecordModel, RecordModel)>) -> Seq<
    OutcomeModel,
> {
    Seq::new(prs.len(), |i: int| decide(fragment, prs[i].0, prs[i].1))
}

/// The kept pairs of a run, in order.
pub open spec fn kept_pairs(os: Seq<OutcomeModel>) -> Seq<(RecordModel, RecordModel)>
    decreases os.len(),
{
    if os.len() == 0 {
        Seq::empty()
    } else {
        kept_pairs(os.drop_last()) + (match os.last() {
            OutcomeModel::Keep { read1, read2 } => seq![(read1, read2)],
            OutcomeModel::Discard => Seq::<(RecordModel, RecordModel)>::empty(),
        })
    }
}

impl Matcher {
    /// One full run over a batch of pairs: every pair is processed in
    /// order and counted exactly once, the kept pairs come out in order,
    /// and the run aborts on the first read 1 whose sequence is not
    /// valid text.
    pub fn process_pairs(&self, pairs: &Vec<(SequenceRecord, SequenceRecord)>, rep: &mut Reporter)
        -> (r: Result<Vec<(SequenceRecord, SequenceRecord)>, EncodingError>)
        requires
            forall|i: int| 0 <= i < pairs@.len() ==> wf_record(#[trigger] pairs@[i].0@),
            old(rep).total() + pairs@.len() <= usize::MAX,
        ensures
            ({
                let models = pair_models(pairs@);
                let os = run_outcomes(self.fragment(), models);
                &&& (r is Ok <==> forall|i: int|
                    0 <= i < models.len() ==> valid_utf8(#[trigger] models[i].0.seq))
                &&& (r matches Ok(kept) ==> {
                    &&& final(rep).filter_read == old(rep).filter_read + count_discarded(os)
                    &&& final(rep).remain_read == old(rep).remain_read + count_kept(os)
                    &&& final(rep).total() == old(rep).total() + pairs@.len()
                    &&& pair_models(kept@) == kept_pairs(os)
                })
            }),
    {
        let ghost models = pair_models(pairs@);
        let mut kept: Vec<(SequenceRecord, SequenceRecord)> = Vec::new();
        let mut i: usize = 0;
        while i < pairs.len()
            invariant
                0 <= i <= pairs@.len(),
                models == pair_models(pairs@),
                forall|j: int| 0 <= j < pairs@.len() ==> wf_record(#[trigger] pairs@[j].0@),
                old(rep).total() + pairs@.len() <= usize::MAX,
                forall|j: int| 0 <= j < i ==> valid_utf8(#[trigger] models[j].0.seq),
                rep.filter_read == old(rep).filter_read + count_discarded(
                    run_outcomes(self.fragment(), models.take(i as int)),
                ),
                rep.remain_read == old(rep).remain_read + count_kept(
                    run_outcomes(self.fragment(), models.take(i as int)),
                ),
                rep.total() == old(rep).total() + i,
                pair_models(kept@) == kept_pairs(run_outcomes(self.fragment(), models.take(i as int))),
            decreases pairs@.len() - i,
        {
            let outcome = match self.process(&pairs[i].0, &pairs[i].1) {
                Ok(o) => o,
                Err(e) => {
                    proof {
                        assert(!valid_utf8(models[i as int].0.seq));
                    }
                    return Err(e);
                },
            };
            rep.record(&outcome);
            proof {
                let os_i = run_outcomes(self.fragment(), models.take(i as int));
                let os_i1 = run_outcomes(self.fragment(), models.take(i + 1));
                assert(os_i1.drop_last() =~= os_i);
                assert(os_i1.last() == outcome@);
            }
            match outcome {
                PairOutcome::Keep { read1, read2 } => {
                    kept.push((read1, read2));
                    proof {
                        let os_i = run_outcomes(self.fragment(), models.take(i as int));
                        let os_i1 = run_outcomes(self.fragment(), models.take(i + 1));
                        assert(pair_models(kept@) =~= kept_pairs(os_i) + seq![
                            (kept@.last().0@, kept@.last().1@),
                        ]);
                        assert(kept_pairs(os_i1) == kept_pairs(os_i) + (match os_i1.last() {
                            OutcomeModel::Keep { read1, read2 } => seq![(read1, read2)],
                            OutcomeModel::Discard => Seq::<(RecordModel, RecordModel)>::empty(),
                        }));
                        assert(pair_models(kept@) =~= kept_pairs(os_i1));
                    }
                },
                PairOutcome::Discard => {
                    proof {
                        let os_i = run_outcomes(self.fragment(), models.take(i as int));
                        let os_i1 = run_outcomes(self.fragment(), models.take(i + 1));
                        assert(kept_pairs(os_i1) =~= kept_pairs(os_i));
                    }
                },
            }
            i = i + 1;
        }
        proof {
            assert(models.take(pairs@.len() as int) =~= models);
        }
        Ok(kept)
    }
}

/// Law: a kept pair's rewritten read 1 has a sequence and a quality of
/// the same length, both the length of the `cb` span plus the length of
/// the `umi` span.
pub proof fn lemma_kept_lengths(fragment: Seq<char>, r1: RecordModel, r2: RecordModel, cb: (
    int,
    int,
), umi: (int, int))
    requires
        wf_record(r1),
        named_span(fragment, r1.seq, "cb"@) == Some(Some(cb)),
        named_span(fragment, r1.seq, "umi"@) == Some(Some(umi)),
        span_fits(cb, r1.seq.len() as int),
        span_fits(umi, r1.seq.len() as int),
    ensures
        decide(fragment, r1, r2) matches OutcomeModel::Keep { read1, read2 } && read1.seq.len()
            == read1.qual.len() && read1.seq.len() == (cb.1 - cb.0) + (umi.1 - umi.0),
{
}

/// Law: a kept pair's rewritten read 1 carries the `cb` text first and
/// the `umi` text second, with nothing in between, and its read 2 is the
/// incoming read 2 unchanged.
pub proof fn lemma_kept_concatenation(fragment: Seq<char>, r1: RecordModel, r2: RecordModel, cb: (
    int,
    int,
), umi: (int, int))
    requires
        wf_record(r1),
        named_span(fragment, r1.seq, "cb"@) == Some(Some(cb)),
        named_span(fragment, r1.seq, "umi"@) == Some(Some(umi)),
        span_fits(cb, r1.seq.len() as int),
        span_fits(umi, r1.seq.len() as int),
    ensures
        decide(fragment, r1, r2) matches OutcomeModel::Keep { read1, read2 } && read1.seq
            == r1.seq.subrange(cb.0, cb.1) + r1.seq.subrange(umi.0, umi.1) && read1.qual
            == r1.qual.subrange(cb.0, cb.1) + r1.qual.subrange(umi.0, umi.1) && read2 == r2,
{
}

/// Law: a pair whose read 1 does not match the anchored pattern at all,
/// or whose match lacks the `cb` or the `umi` group, is discarded.
pub proof fn lemma_unmatched_discarded(fragment: Seq<char>, r1: RecordModel, r2: RecordModel)
    requires
        !(named_span(fragment, r1.seq, "cb"@) matches Some(Some(sp_cb))) || !(named_span(
            fragment,
            r1.seq,
            "umi"@,
        ) matches Some(Some(sp_umi))),
    ensures
        decide(fragment, r1, r2) is Discard,
{
}

} // verus!
