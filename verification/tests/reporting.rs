use exbc::engine::PairOutcome;
use exbc::report::{decimal_bytes, Reporter};

#[test]
fn decimal_rendering() {
    assert_eq!(decimal_bytes(0), b"0".to_vec());
    assert_eq!(decimal_bytes(7), b"7".to_vec());
    assert_eq!(decimal_bytes(10), b"10".to_vec());
    assert_eq!(decimal_bytes(90107), b"90107".to_vec());
}

#[test]
fn report_text_exact() {
    let rep = Reporter { filter_read: 3, remain_read: 40 };
    assert_eq!(rep.report_bytes(), b"filter read: 3\nremain read: 40\n".to_vec());
}

#[test]
fn counters_start_at_zero() {
    let rep = Reporter::new();
    assert_eq!(rep.filter_read, 0);
    assert_eq!(rep.remain_read, 0);
    assert_eq!(rep.report_bytes(), b"filter read: 0\nremain read: 0\n".to_vec());
}

#[test]
fn record_counts_each_outcome_once() {
    let mut rep = Reporter::new();
    rep.record(&PairOutcome::Discard);
    rep.record(&PairOutcome::Discard);
    let keep = PairOutcome::Keep {
        read1: exbc::record::SequenceRecord {
            id: b"a".to_vec(),
            desc: None,
            seq: b"A".to_vec(),
            qual: b"I".to_vec(),
        },
        read2: exbc::record::SequenceRecord {
            id: b"b".to_vec(),
            desc: None,
            seq: b"C".to_vec(),
            qual: b"I".to_vec(),
        },
    };
    rep.record(&keep);
    assert_eq!(rep.filter_read, 2);
    assert_eq!(rep.remain_read, 1);
    assert_eq!(rep.summary(), (2, 1));
}
