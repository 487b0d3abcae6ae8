//! Sequencing records and the four-line text format they travel in.

use vstd::prelude::*;

verus! {

/// Mathematical view of a sequencing record: identifier, optional
/// description, base sequence and per-base quality, all byte sequences.
#[verifier::ext_equal]
pub struct RecordModel {
    pub id: Seq<u8>,
    pub desc: Option<Seq<u8>>,
    pub seq: Seq<u8>,
    pub qual: Seq<u8>,
}

/// A well-formed record carries exactly one quality byte per sequence byte.
pub open spec fn wf_record(r: RecordModel) -> bool {
    r.seq.len() == r.qual.len()
}

/// A sequencing record as held at run time.
pub struct SequenceRecord {
    pub id: Vec<u8>,
    pub desc: Option<Vec<u8>>,
    pub seq: Vec<u8>,
    pub qual: Vec<u8>,
}

impl View for SequenceRecord {
    type V = RecordModel;

    open spec fn view(&self) -> RecordModel {
        RecordModel {
            id: self.id@,
            desc: match self.desc {
                Option::Some(d) => Option::Some(d@),
                Option::None => Option::None,
            },
            seq: self.seq@,
            qual: self.qual@,
        }
    }
}

/// Appends `src[start..end]` to `dst`.
pub fn push_range(dst: &mut Vec<u8>, src: &Vec<u8>, start: usize, end: usize)
    requires
        start <= end,
        end <= src@.len(),
    ensures
        final(dst)@ == old(dst)@ + src@.subrange(start as int, end as int),
{
    let mut i: usize = start;
    while i < end
        invariant
            start <= i <= end,
            end <= src@.len(),
            dst@ == old(dst)@ + src@.subrange(start as int, i as int),
        decreases end - i,
    {
        dst.push(src[i]);
        proof {
            assert(src@.subrange(start as int, i + 1) =~= src@.subrange(
                start as int,
                i as int,
            ).push(src@[i as int]));
        }
        i = i + 1;
    }
}

/// A fresh byte vector holding the same bytes as `src`.
pub fn copy_bytes(src: &Vec<u8>) -> (r: Vec<u8>)
    ensures
        r@ == src@,
{
    let mut out: Vec<u8> = Vec::new();
    push_range(&mut out, src, 0, src.len());
    proof {
        assert(out@ =~= src@);
    }
    out
}

/// A fresh copy of an optional byte vector.
pub fn copy_opt_bytes(src: &Option<Vec<u8>>) -> (r: Option<Vec<u8>>)
    ensures
        r is Some <==> src is Some,
        r matches Some(rv) ==> (src matches Some(sv) && rv@ == sv@),
{
    match src {
        Option::Some(d) => Option::Some(copy_bytes(d)),
        Option::None => Option::None,
    }
}

/// The header line of a record: `@`, the identifier, and, when a
/// description is present, a space and the description.
pub open spec fn spec_header_line(r: RecordModel) -> Seq<u8> {
    seq![64u8] + r.id + (match r.desc {
        Option::Some(d) => seq![32u8] + d,
        Option::None => Seq::<u8>::empty(),
    })
}

/// The four-line text form of a record: header, sequence, `+` separator
/// and quality, each line closed by a newline byte.
pub open spec fn spec_fastq_bytes(r: RecordModel) -> Seq<u8> {
    spec_header_line(r) + seq![10u8] + r.seq + seq![10u8] + seq![43u8, 10u8] + r.qual + seq![10u8]
}

/// No byte of `s` is a space.
pub open spec fn no_space(s: Seq<u8>) -> bool {
    forall|j: int| 0 <= j < s.len() ==> s[j] != 32u8
}

/// `i` is the position of the first space in `s`.
pub open spec fn is_first_space(s: Seq<u8>, i: int) -> bool {
    &&& 0 <= i < s.len()
    &&& s[i] == 32u8
    &&& forall|j: int| 0 <= j < i ==> s[j] != 32u8
}

/// `id` and `desc` split the header tail (everything after `@`) at its
/// first space: without a space the whole tail is the identifier and
/// there is no description.
pub open spec fn header_split(tail: Seq<u8>, id: Seq<u8>, desc: Option<Seq<u8>>) -> bool {
    if no_space(tail) {
        id == tail && desc is None
    } else {
        exists|i: int|
            #[trigger] is_first_space(tail, i) && id == tail.subrange(0, i) && desc == Some(
                tail.subrange(i + 1, tail.len() as int),
            )
    }
}

/// The shape checks on the four lines of one record: the header starts
/// with `@`, the separator with `+`, and sequence and quality lines have
/// the same length.
pub open spec fn lines_ok(l1: Seq<u8>, l2: Seq<u8>, l3: Seq<u8>, l4: Seq<u8>) -> bool {
    &&& l1.len() > 0
    &&& l1[0] == 64u8
    &&& l3.len() > 0
    &&& l3[0] == 43u8
    &&& l2.len() == l4.len()
}

/// The position of the first space in `s` at or after `from`, if any.
fn find_space_from(s: &Vec<u8>, from: usize) -> (r: Option<usize>)
    requires
        from <= s@.len(),
    ensures
        match r {
            Some(i) => from <= i < s@.len() && s@[i as int] == 32u8 && (forall|j: int|
                from <= j < i ==> s@[j] != 32u8),
            None => forall|j: int| from <= j < s@.len() ==> s@[j] != 32u8,
        },
{
    let mut i: usize = from;
    while i < s.len()
        invariant
            from <= i <= s@.len(),
            forall|j: int| from <= j < i ==> s@[j] != 32u8,
        decreases s@.len() - i,
    {
        if s[i] == 32u8 {
            return Some(i);
        }
        i = i + 1;
    }
    None
}

impl SequenceRecord {
    /// Builds a record from the four lines of its text form, or reports
    /// that the lines do not have the expected shape.
    pub fn from_lines(l1: &Vec<u8>, l2: &Vec<u8>, l3: &Vec<u8>, l4: &Vec<u8>) -> (r: Option<
        SequenceRecord,
    >)
        ensures
            r is Some <==> lines_ok(l1@, l2@, l3@, l4@),
            r matches Some(rec) ==> {
                &&& wf_record(rec@)
                &&& header_split(l1@.subrange(1, l1@.len() as int), rec@.id, rec@.desc)
                &&& rec@.seq == l2@
                &&& rec@.qual == l4@
            },
    {
        if l1.len() == 0 || l1[0] != 64u8 || l3.len() == 0 || l3[0] != 43u8 || l2.len()
            != l4.len() {
            return None;
        }
        let ghost tail: Seq<u8> = l1@.subrange(1, l1@.len() as int);
        let (id, desc): (Vec<u8>, Option<Vec<u8>>) = match find_space_from(l1, 1) {
            Some(i) => {
                let mut id: Vec<u8> = Vec::new();
                push_range(&mut id, l1, 1, i);
                let mut d: Vec<u8> = Vec::new();
                push_range(&mut d, l1, i + 1, l1.len());
                proof {
                    assert(is_first_space(tail, i - 1));
                    assert(id@ =~= tail.subrange(0, i - 1));
                    assert(d@ =~= tail.subrange(i - 1 + 1, tail.len() as int));
                }
                (id, Some(d))
            },
            None => {
                let mut id: Vec<u8> = Vec::new();
                push_range(&mut id, l1, 1, l1.len());
                proof {
                    assert(no_space(tail));
                    assert(id@ =~= tail);
                }
                (id, None)
            },
        };
        let rec = SequenceRecord { id, desc, seq: copy_bytes(l2), qual: copy_bytes(l4) };
        Some(rec)
    }

    /// The four-line text form of this record, ready to be written out.
    pub fn fastq_bytes(&self) -> (r: Vec<u8>)
        ensures
            r@ == spec_fastq_bytes(self@),
    {
        let mut out: Vec<u8> = Vec::new();
        out.push(64u8);
        push_range(&mut out, &self.id, 0, self.id.len());
        match &self.desc {
            Option::Some(d) => {
                out.push(32u8);
                push_range(&mut out, d, 0, d.len());
            },
            Option::None => {},
        }
        proof {
            assert(out@ =~= spec_header_line(self@));
        }
        out.push(10u8);
        push_range(&mut out, &self.seq, 0, self.seq.len());
        out.push(10u8);
        out.push(43u8);
        out.push(10u8);
        push_range(&mut out, &self.qual, 0, self.qual.len());
        out.push(10u8);
        proof {
            assert(out@ =~= spec_fastq_bytes(self@));
        }
        out
    }
}

} // verus!
