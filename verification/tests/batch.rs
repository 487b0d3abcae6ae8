use exbc::matcher::build_regex;
use exbc::record::SequenceRecord;
use exbc::report::Reporter;

fn rec(id: &[u8], seq: &[u8], qual: &[u8]) -> SequenceRecord {
    SequenceRecord { id: id.to_vec(), desc: None, seq: seq.to_vec(), qual: qual.to_vec() }
}

fn mate(id: &[u8]) -> SequenceRecord {
    rec(id, b"GGGG", b"JJJJ")
}

#[test]
fn batch_counts_add_up() {
    let m = build_regex("(?P<cb>[ACGT]{2})(?P<umi>[ACGT]{2})").unwrap();
    let pairs = vec![
        (rec(b"a", b"ACGT", b"IIII"), mate(b"a2")),
        (rec(b"b", b"NNNN", b"IIII"), mate(b"b2")),
        (rec(b"c", b"TTAAC", b"IIIII"), mate(b"c2")),
    ];
    let total = pairs.len();
    let mut rep = Reporter::new();
    let kept = m.process_pairs(&pairs, &mut rep).unwrap();
    assert_eq!(rep.remain_read, 2);
    assert_eq!(rep.filter_read, 1);
    assert_eq!(rep.filter_read + rep.remain_read, total);
    assert_eq!(kept.len(), 2);
    assert_eq!(kept[0].0.id, b"a".to_vec());
    assert_eq!(kept[0].0.seq, b"ACGT".to_vec());
    assert_eq!(kept[0].1.id, b"a2".to_vec());
    assert_eq!(kept[1].0.id, b"c".to_vec());
    assert_eq!(kept[1].0.seq, b"TTAA".to_vec());
    assert_eq!(kept[1].1.id, b"c2".to_vec());
}

#[test]
fn batch_aborts_on_bad_text() {
    let m = build_regex("(?P<cb>.)(?P<umi>.)").unwrap();
    let pairs = vec![
        (rec(b"a", b"ACGT", b"IIII"), mate(b"a2")),
        (rec(b"b", &[0x80, 0x80], b"II"), mate(b"b2")),
    ];
    let mut rep = Reporter::new();
    assert!(m.process_pairs(&pairs, &mut rep).is_err());
}
