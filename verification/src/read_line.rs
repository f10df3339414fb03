//! Validating line assembler: wraps the delimiter scanner, runs one
//! well-formed-text check over the fully accumulated bytes once scanning
//! completes, and either transplants the bytes into the caller's destination
//! string (ownership moves, nothing is copied) or reports a decoding error
//! while leaving the destination untouched.

use crate::scanner::DelimScanner;
use crate::scanner::Fill;
use crate::scanner::ScanStep;
use crate::scanner::ScanView;
use crate::scanner::scan_data;
use crate::scanner::scan_wf;
use crate::text::utf8_check;
use vstd::prelude::*;
use vstd::utf8::decode_utf8;
use vstd::utf8::decode_utf8_encode_utf8;
use vstd::utf8::encode_utf8;
use vstd::utf8::valid_utf8;

verus! {

/// How a line read can fail.
#[derive(Debug, PartialEq, Eq)]
pub enum LineError<E> {
    /// The accumulated bytes were not well-formed UTF-8; the destination was
    /// left untouched.
    InvalidUtf8,
    /// The byte source failed; its error is passed through verbatim.
    Io(E),
}

/// What one poll of the operation decided.
#[derive(Debug, PartialEq, Eq)]
pub enum LinePoll<E> {
    /// `used` bytes of the chunk were consumed; ask the source for more.
    More { used: usize },
    /// The source was not ready; nothing changed, resume later.
    Suspended,
    /// The operation completed: `used` bytes of the final chunk were consumed,
    /// and `outcome` is the byte count on success, or the error.
    Ready { used: usize, outcome: Result<usize, LineError<E>> },
}

/// What must hold once scanning has completed with scratch bytes `s`, of the
/// destination (`dest0` before, `dest1` after) and the returned step: on
/// well-formed text the destination holds exactly those bytes, decoded, and
/// the count is their number; otherwise the destination is untouched and a
/// decoding error is reported.
pub open spec fn line_done_post<E>(
    s: Seq<u8>,
    used: nat,
    dest0: Seq<char>,
    dest1: Seq<char>,
    r: LinePoll<E>,
) -> bool {
    if valid_utf8(s) {
        &&& dest1 == decode_utf8(s)
        &&& encode_utf8(dest1) == s
        &&& r == (LinePoll::<E>::Ready { used: used as usize, outcome: Ok(s.len() as usize) })
    } else {
        &&& dest1 == dest0
        &&& r == (LinePoll::<E>::Ready {
            used: used as usize,
            outcome: Err(LineError::<E>::InvalidUtf8),
        })
    }
}

/// One in-flight "read a line" operation: the suspended computation that owns
/// the scratch buffer and scan cursor, fed by the byte source and resumed by
/// the scheduler until it reaches a terminal outcome.
pub struct ReadLineFuture {
    scanner: DelimScanner,
}

impl View for ReadLineFuture {
    type V = ScanView;

    closed spec fn view(&self) -> ScanView {
        self.scanner@
    }
}

impl ReadLineFuture {
    /// Well-formedness: holds from creation until the terminal poll.
    pub open spec fn wf(&self) -> bool {
        scan_wf(self@)
    }

    /// A fresh operation reading one line, terminated by a newline byte.
    pub fn new() -> (r: ReadLineFuture)
        ensures
            r@ == (ScanView {
                scratch: Seq::<u8>::empty(),
                read: 0nat,
                delim: 10u8,
                done: false,
            }),
            r.wf(),
    {
        ReadLineFuture { scanner: DelimScanner::new(10) }
    }

    /// A fresh operation reading up to and including `delim`.
    pub fn with_delimiter(delim: u8) -> (r: ReadLineFuture)
        ensures
            r@ == (ScanView { scratch: Seq::<u8>::empty(), read: 0nat, delim, done: false }),
            r.wf(),
    {
        ReadLineFuture { scanner: DelimScanner::new(delim) }
    }

    /// Feed the operation one report from the byte source.
    ///
    /// The destination must be empty: on success the scratch bytes become its
    /// storage outright, so the transplant is a pure move, never a merge. A
    /// completed operation must not be polled again.
    ///
    /// On `Data` the chunk is scanned for the delimiter (each byte examined
    /// once); on `Eof` the accumulated bytes — possibly none — are validated
    /// and handed over; on `NotReady` the operation suspends unchanged; on
    /// `Error` the source's error propagates verbatim and the destination is
    /// untouched.
    /// True once the operation reached a terminal outcome; it must not be
    /// polled again.
    pub fn is_done(&self) -> (r: bool)
        ensures
            r == self@.done,
    {
        self.scanner.is_done()
    }

    /// How many bytes the operation has consumed from the source so far.
    pub fn read_count(&self) -> (r: usize)
        ensures
            r == self@.read,
    {
        self.scanner.read_count()
    }

    #[verifier::loop_isolation(false)]
    pub fn poll<E>(&mut self, dest: &mut String, event: Fill<E>) -> (r: LinePoll<E>)
        requires
            old(self).wf(),
            !old(self)@.done,
            old(dest)@.len() == 0,
        ensures
            final(self).wf(),
            final(self)@.delim == old(self)@.delim,
            event is NotReady ==> final(self)@ == old(self)@ && final(dest)@ == old(dest)@ && r
                == LinePoll::<E>::Suspended,
            event matches Fill::Error(e) ==> final(self)@.done && final(dest)@ == old(dest)@ && r
                == (LinePoll::<E>::Ready { used: 0, outcome: Err(LineError::Io(e)) }),
            event is Eof ==> final(self)@.done && line_done_post(
                old(self)@.scratch,
                0,
                old(dest)@,
                final(dest)@,
                r,
            ),
            event matches Fill::Data(chunk) ==> ({
                let o = scan_data(old(self)@.scratch, old(self)@.delim, chunk@);
                if o.done {
                    final(self)@.done && line_done_post(o.scratch, o.used, old(dest)@, final(dest)@, r)
                } else {
                    &&& final(self)@ == (ScanView {
                        scratch: o.scratch,
                        read: o.scratch.len() as nat,
                        delim: old(self)@.delim,
                        done: false,
                    })
                    &&& final(dest)@ == old(dest)@
                    &&& r == (LinePoll::<E>::More { used: o.used as usize })
                }
            }),
    {
        let step = self.scanner.step(event);
        match step {
            ScanStep::Suspended => LinePoll::Suspended,
            ScanStep::More { used } => LinePoll::More { used },
            ScanStep::Failed(e) => LinePoll::Ready { used: 0, outcome: Err(LineError::Io(e)) },
            ScanStep::Done { used, count } => {
                let bytes = self.scanner.take_bytes();
                if utf8_check(&bytes) {
                    match String::from_utf8(bytes) {
                        Ok(s) => {
                            proof {
                                decode_utf8_encode_utf8(bytes@);
                            }
                            *dest = s;
                            LinePoll::Ready { used, outcome: Ok(count) }
                        },
                        Err(_) => {
                            proof {
                                assert(false);
                            }
                            vstd::pervasive::unreached()
                        },
                    }
                } else {
                    LinePoll::Ready { used, outcome: Err(LineError::InvalidUtf8) }
                }
            },
        }
    }
}

} // verus!
