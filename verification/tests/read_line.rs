use line_read::read_line::LineError;
use line_read::read_line::LinePoll;
use line_read::read_line::ReadLineFuture;
use line_read::scanner::Fill;

type IoErr = i32;

#[test]
fn newline_terminated_line() {
    let mut fut = ReadLineFuture::new();
    let mut dest = String::new();
    let r = fut.poll::<IoErr>(&mut dest, Fill::Data(b"hi\n".to_vec()));
    assert_eq!(
        r,
        LinePoll::Ready {
            used: 3,
            outcome: Ok(3)
        }
    );
    assert_eq!(dest, "hi\n");
}

#[test]
fn eof_without_delimiter_is_success() {
    let mut fut = ReadLineFuture::new();
    let mut dest = String::new();
    let r = fut.poll::<IoErr>(&mut dest, Fill::Data(b"no newline".to_vec()));
    assert_eq!(r, LinePoll::More { used: 10 });
    let r = fut.poll::<IoErr>(&mut dest, Fill::Eof);
    assert_eq!(
        r,
        LinePoll::Ready {
            used: 0,
            outcome: Ok(10)
        }
    );
    assert_eq!(dest, "no newline");
}

#[test]
fn immediate_eof_yields_zero_bytes() {
    let mut fut = ReadLineFuture::new();
    let mut dest = String::new();
    let r = fut.poll::<IoErr>(&mut dest, Fill::Eof);
    assert_eq!(
        r,
        LinePoll::Ready {
            used: 0,
            outcome: Ok(0)
        }
    );
    assert_eq!(dest, "");
}

#[test]
fn invalid_utf8_reports_decode_error_and_leaves_destination_empty() {
    let mut fut = ReadLineFuture::new();
    let mut dest = String::new();
    let r = fut.poll::<IoErr>(&mut dest, Fill::Data(vec![0xff, b'\n']));
    assert_eq!(
        r,
        LinePoll::Ready {
            used: 2,
            outcome: Err(LineError::InvalidUtf8)
        }
    );
    assert_eq!(dest.len(), 0);
}

#[test]
fn chunked_delivery_with_pauses_matches_single_chunk() {
    // The same bytes as `newline_terminated_line`, split into three chunks
    // with a suspension between each; outcome and destination are identical
    // and the scanning work stays within one examination per byte.
    let mut fut = ReadLineFuture::new();
    let mut dest = String::new();
    let mut work = 0usize;
    for chunk in [b"h".to_vec(), b"i".to_vec(), b"\n".to_vec()] {
        let r = fut.poll::<IoErr>(&mut dest, Fill::NotReady);
        assert_eq!(r, LinePoll::Suspended);
        match fut.poll::<IoErr>(&mut dest, Fill::Data(chunk)) {
            LinePoll::More { used } => work += used,
            LinePoll::Ready { used, outcome } => {
                work += used;
                assert_eq!(outcome, Ok(3));
            }
            LinePoll::Suspended => panic!("data chunk must not suspend"),
        }
    }
    assert_eq!(dest, "hi\n");
    assert!(work <= 3);
    assert_eq!(work, 3);
}

#[test]
fn source_error_propagates_verbatim() {
    let mut fut = ReadLineFuture::new();
    let mut dest = String::new();
    let r = fut.poll::<IoErr>(&mut dest, Fill::Data(b"part".to_vec()));
    assert_eq!(r, LinePoll::More { used: 4 });
    let r = fut.poll::<IoErr>(&mut dest, Fill::Error(7));
    assert_eq!(
        r,
        LinePoll::Ready {
            used: 0,
            outcome: Err(LineError::Io(7))
        }
    );
    assert_eq!(dest.len(), 0);
}

#[test]
fn bytes_after_delimiter_stay_unconsumed() {
    let mut fut = ReadLineFuture::new();
    let mut dest = String::new();
    let r = fut.poll::<IoErr>(&mut dest, Fill::Data(b"ab\ncd".to_vec()));
    assert_eq!(
        r,
        LinePoll::Ready {
            used: 3,
            outcome: Ok(3)
        }
    );
    assert_eq!(dest, "ab\n");
}

#[test]
fn multibyte_sequence_split_across_chunks() {
    let mut fut = ReadLineFuture::new();
    let mut dest = String::new();
    let r = fut.poll::<IoErr>(&mut dest, Fill::Data(vec![0xc3]));
    assert_eq!(r, LinePoll::More { used: 1 });
    let r = fut.poll::<IoErr>(&mut dest, Fill::Data(vec![0xa9, b'\n']));
    assert_eq!(
        r,
        LinePoll::Ready {
            used: 2,
            outcome: Ok(3)
        }
    );
    assert_eq!(dest, "\u{e9}\n");
}

#[test]
fn truncated_multibyte_at_eof_is_decode_error() {
    let mut fut = ReadLineFuture::new();
    let mut dest = String::new();
    let r = fut.poll::<IoErr>(&mut dest, Fill::Data(vec![0xc3]));
    assert_eq!(r, LinePoll::More { used: 1 });
    let r = fut.poll::<IoErr>(&mut dest, Fill::Eof);
    assert_eq!(
        r,
        LinePoll::Ready {
            used: 0,
            outcome: Err(LineError::InvalidUtf8)
        }
    );
    assert_eq!(dest.len(), 0);
}

#[test]
fn custom_delimiter_stops_at_it() {
    let mut fut = ReadLineFuture::with_delimiter(b';');
    let mut dest = String::new();
    let r = fut.poll::<IoErr>(&mut dest, Fill::Data(b"a;b".to_vec()));
    assert_eq!(
        r,
        LinePoll::Ready {
            used: 2,
            outcome: Ok(2)
        }
    );
    assert_eq!(dest, "a;");
}

#[test]
fn empty_line_is_just_the_delimiter() {
    let mut fut = ReadLineFuture::new();
    let mut dest = String::new();
    let r = fut.poll::<IoErr>(&mut dest, Fill::Data(b"\nrest".to_vec()));
    assert_eq!(
        r,
        LinePoll::Ready {
            used: 1,
            outcome: Ok(1)
        }
    );
    assert_eq!(dest, "\n");
}

#[test]
fn empty_chunk_acts_as_end_of_input() {
    let mut fut = ReadLineFuture::new();
    let mut dest = String::new();
    let r = fut.poll::<IoErr>(&mut dest, Fill::Data(b"ok".to_vec()));
    assert_eq!(r, LinePoll::More { used: 2 });
    let r = fut.poll::<IoErr>(&mut dest, Fill::Data(Vec::new()));
    assert_eq!(
        r,
        LinePoll::Ready {
            used: 0,
            outcome: Ok(2)
        }
    );
    assert_eq!(dest, "ok");
}
