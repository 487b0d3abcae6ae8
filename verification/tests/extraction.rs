use exbc::engine::PairOutcome;
use exbc::matcher::build_regex;
use exbc::record::SequenceRecord;
use exbc::report::Reporter;

fn rec(id: &[u8], seq: &[u8], qual: &[u8]) -> SequenceRecord {
    SequenceRecord { id: id.to_vec(), desc: None, seq: seq.to_vec(), qual: qual.to_vec() }
}

#[test]
fn keep_example() {
    let m = build_regex("(?P<cb>[ACGT]{4})(?P<umi>[ACGT]{4})").unwrap();
    let r1 = rec(b"r1", b"ACGTTTAAextra", b"IIIIIIIIIIIII");
    let r2 = rec(b"r2", b"GGGG", b"JJJJ");
    let mut rep = Reporter::new();
    let out = m.process(&r1, &r2).unwrap();
    rep.record(&out);
    match out {
        PairOutcome::Keep { read1, read2 } => {
            assert_eq!(read1.id, b"r1".to_vec());
            assert_eq!(read1.desc, None);
            assert_eq!(read1.seq, b"ACGTTTAA".to_vec());
            assert_eq!(read1.qual, b"IIIIIIII".to_vec());
            assert_eq!(read2.id, b"r2".to_vec());
            assert_eq!(read2.seq, b"GGGG".to_vec());
            assert_eq!(read2.qual, b"JJJJ".to_vec());
        },
        PairOutcome::Discard => panic!("pair should have been kept"),
    }
    assert_eq!(rep.remain_read, 1);
    assert_eq!(rep.filter_read, 0);
}

#[test]
fn no_match_discards() {
    let m = build_regex("(?P<cb>[ACGT]{4})(?P<umi>[ACGT]{4})").unwrap();
    let r1 = rec(b"r1", b"NNNNTTAA", b"IIIIIIII");
    let r2 = rec(b"r2", b"GGGG", b"JJJJ");
    let mut rep = Reporter::new();
    let out = m.process(&r1, &r2).unwrap();
    rep.record(&out);
    assert!(matches!(out, PairOutcome::Discard));
    assert_eq!(rep.filter_read, 1);
    assert_eq!(rep.remain_read, 0);
}

#[test]
fn missing_umi_group_discards() {
    let m = build_regex("(?P<cb>AAAA)(TTTT|(?P<umi>GGGG))").unwrap();
    let r1 = rec(b"r1", b"AAAATTTT", b"IIIIIIII");
    let r2 = rec(b"r2", b"GGGG", b"JJJJ");
    let out = m.process(&r1, &r2).unwrap();
    assert!(matches!(out, PairOutcome::Discard));
}

#[test]
fn anchored_at_start() {
    let m = build_regex("(?P<cb>TT)(?P<umi>AA)").unwrap();
    let r1 = rec(b"r1", b"CCTTAA", b"IIIIII");
    let r2 = rec(b"r2", b"GGGG", b"JJJJ");
    let out = m.process(&r1, &r2).unwrap();
    assert!(matches!(out, PairOutcome::Discard));
}

#[test]
fn alternation_stays_anchored() {
    let m = build_regex("TT|(?P<cb>A)(?P<umi>C)").unwrap();
    let r1 = rec(b"r1", b"GGAC", b"IIII");
    let r2 = rec(b"r2", b"GGGG", b"JJJJ");
    let out = m.process(&r1, &r2).unwrap();
    assert!(matches!(out, PairOutcome::Discard));
    let at_start = rec(b"r1", b"ACGG", b"IIII");
    match m.process(&at_start, &r2).unwrap() {
        PairOutcome::Keep { read1, .. } => {
            assert_eq!(read1.seq, b"AC".to_vec());
            assert_eq!(read1.qual, b"II".to_vec());
        },
        PairOutcome::Discard => panic!("anchored branch at position 0 should match"),
    }
}

#[test]
fn zero_length_captures_kept() {
    let m = build_regex("(?P<cb>A*)(?P<umi>C*)").unwrap();
    let r1 = rec(b"r1", b"TTT", b"III");
    let r2 = rec(b"r2", b"GGGG", b"JJJJ");
    let out = m.process(&r1, &r2).unwrap();
    match out {
        PairOutcome::Keep { read1, .. } => {
            assert_eq!(read1.seq, Vec::<u8>::new());
            assert_eq!(read1.qual, Vec::<u8>::new());
        },
        PairOutcome::Discard => panic!("zero-length captures still keep the pair"),
    }
}

#[test]
fn rerun_on_output_unchanged() {
    let m = build_regex("(?P<cb>[ACGT]{4})(?P<umi>.*)").unwrap();
    let r1 = rec(b"r1", b"ACGTTTAA", b"IIIIIIII");
    let r2 = rec(b"r2", b"GGGG", b"JJJJ");
    let first = match m.process(&r1, &r2).unwrap() {
        PairOutcome::Keep { read1, .. } => read1,
        PairOutcome::Discard => panic!("pair should have been kept"),
    };
    assert_eq!(first.seq, r1.seq);
    assert_eq!(first.qual, r1.qual);
    let second = match m.process(&first, &r2).unwrap() {
        PairOutcome::Keep { read1, .. } => read1,
        PairOutcome::Discard => panic!("pair should have been kept"),
    };
    assert_eq!(second.seq, first.seq);
    assert_eq!(second.qual, first.qual);
    assert_eq!(second.id, first.id);
}

#[test]
fn invalid_utf8_is_error() {
    let m = build_regex("(?P<cb>.)(?P<umi>.)").unwrap();
    let r1 = rec(b"r1", &[0xff, 0xfe], b"II");
    let r2 = rec(b"r2", b"GGGG", b"JJJJ");
    assert!(m.process(&r1, &r2).is_err());
}

#[test]
fn invalid_pattern_rejected() {
    assert!(build_regex("(?P<cb>").is_err());
    assert!(build_regex("(?P<cb>AA)(?P<umi>TT)").is_ok());
}
