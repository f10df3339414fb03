use line_read::scanner::DelimScanner;
use line_read::scanner::Fill;
use line_read::scanner::ScanStep;

type IoErr = i32;

#[test]
fn chunks_accumulate_until_delimiter() {
    let mut sc = DelimScanner::new(b'\n');
    let r = sc.step::<IoErr>(Fill::Data(b"abc".to_vec()));
    assert_eq!(r, ScanStep::More { used: 3 });
    assert_eq!(sc.read_count(), 3);
    let r = sc.step::<IoErr>(Fill::Data(b"d\nxx".to_vec()));
    assert_eq!(r, ScanStep::Done { used: 2, count: 5 });
    assert!(sc.is_done());
    assert_eq!(sc.take_bytes(), b"abcd\n".to_vec());
}

#[test]
fn eof_completes_with_accumulated_bytes() {
    let mut sc = DelimScanner::new(b'\n');
    let r = sc.step::<IoErr>(Fill::Data(b"xy".to_vec()));
    assert_eq!(r, ScanStep::More { used: 2 });
    let r = sc.step::<IoErr>(Fill::Eof);
    assert_eq!(r, ScanStep::Done { used: 0, count: 2 });
    assert_eq!(sc.take_bytes(), b"xy".to_vec());
}

#[test]
fn not_ready_changes_nothing() {
    let mut sc = DelimScanner::new(b'\n');
    let r = sc.step::<IoErr>(Fill::Data(b"a".to_vec()));
    assert_eq!(r, ScanStep::More { used: 1 });
    let r = sc.step::<IoErr>(Fill::NotReady);
    assert_eq!(r, ScanStep::Suspended);
    assert_eq!(sc.read_count(), 1);
    assert!(!sc.is_done());
    assert_eq!(sc.delimiter(), b'\n');
}

#[test]
fn source_error_discards_scratch_and_keeps_count() {
    let mut sc = DelimScanner::new(b'\n');
    let r = sc.step::<IoErr>(Fill::Data(b"abc".to_vec()));
    assert_eq!(r, ScanStep::More { used: 3 });
    let r = sc.step::<IoErr>(Fill::Error(9));
    assert_eq!(r, ScanStep::Failed(9));
    assert!(sc.is_done());
    assert_eq!(sc.read_count(), 3);
    assert_eq!(sc.take_bytes(), Vec::<u8>::new());
}

#[test]
fn empty_chunk_is_end_of_input() {
    let mut sc = DelimScanner::new(b'\n');
    let r = sc.step::<IoErr>(Fill::Data(Vec::new()));
    assert_eq!(r, ScanStep::Done { used: 0, count: 0 });
    assert_eq!(sc.take_bytes(), Vec::<u8>::new());
}

#[test]
fn delimiter_in_first_position() {
    let mut sc = DelimScanner::new(b';');
    let r = sc.step::<IoErr>(Fill::Data(b";tail".to_vec()));
    assert_eq!(r, ScanStep::Done { used: 1, count: 1 });
    assert_eq!(sc.take_bytes(), b";".to_vec());
}
