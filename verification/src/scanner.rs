//! Delimiter scanner: drives repeated non-blocking reads into a private
//! scratch buffer until a delimiter byte is found or the source is exhausted.
//!
//! The scanner never re-examines a byte: every byte it consumes is appended to
//! the scratch buffer and scanned exactly once, so the cost of an operation is
//! linear in the bytes delivered, however often the source suspends it.

use vstd::prelude::*;

verus! {

/// What the byte source reports on one non-blocking attempt to produce bytes.
#[derive(Debug, PartialEq, Eq)]
pub enum Fill<E> {
    /// Fresh bytes copied out of the source. An empty chunk means the source
    /// is exhausted, exactly like [`Fill::Eof`].
    Data(Vec<u8>),
    /// End of input: the source will never produce bytes again.
    Eof,
    /// No data is ready yet; the operation suspends and must be resumed later.
    NotReady,
    /// A hard error from the source, propagated verbatim.
    Error(E),
}

/// What one scanner step decided.
#[derive(Debug, PartialEq, Eq)]
pub enum ScanStep<E> {
    /// `used` bytes of the chunk were consumed and no delimiter was seen yet:
    /// ask the source for more bytes.
    More { used: usize },
    /// Scanning is complete: `used` bytes of the final chunk were consumed
    /// (zero on end of input) and `count` bytes were accumulated in total.
    Done { used: usize, count: usize },
    /// The source was not ready; nothing changed, try again later.
    Suspended,
    /// The source failed; the scratch bytes are discarded.
    Failed(E),
}

/// Mathematical view of a scanner: the scratch bytes, the scan cursor (how
/// many bytes were consumed and scanned), the delimiter, and whether the
/// operation reached a terminal state.
pub struct ScanView {
    pub scratch: Seq<u8>,
    pub read: nat,
    pub delim: u8,
    pub done: bool,
}

/// True when `s` contains the byte `b`.
pub open spec fn has_byte(s: Seq<u8>, b: u8) -> bool {
    exists|i: int| 0 <= i < s.len() && s[i] == b
}

/// Index of the first occurrence of `b` in `s`, or `s.len()` when absent.
pub open spec fn find_byte(s: Seq<u8>, b: u8) -> int
    decreases s.len(),
{
    if s.len() == 0 {
        0
    } else if s[0] == b {
        0
    } else {
        1 + find_byte(s.drop_first(), b)
    }
}

/// Result of scanning one chunk of fresh bytes: the scratch buffer afterwards,
/// how many chunk bytes were consumed (each examined exactly once), and
/// whether the scan completed.
pub struct ScanOutcome {
    pub scratch: Seq<u8>,
    pub used: nat,
    pub done: bool,
}

/// One scanner transition on a chunk of fresh bytes: consume bytes up to and
/// including the first delimiter, or the whole chunk when it has none. An
/// empty chunk signals end of input and completes the scan.
pub open spec fn scan_data(scratch: Seq<u8>, delim: u8, chunk: Seq<u8>) -> ScanOutcome {
    if has_byte(chunk, delim) {
        ScanOutcome {
            scratch: scratch + chunk.take(find_byte(chunk, delim) + 1),
            used: (find_byte(chunk, delim) + 1) as nat,
            done: true,
        }
    } else if chunk.len() == 0 {
        ScanOutcome { scratch: scratch, used: 0, done: true }
    } else {
        ScanOutcome { scratch: scratch + chunk, used: chunk.len(), done: false }
    }
}

/// Well-formedness of a scanner that may still be stepped: every consumed byte
/// sits in the scratch buffer and has been scanned, and none of them was the
/// delimiter (otherwise the scan would have completed).
pub open spec fn scan_wf(v: ScanView) -> bool {
    !v.done ==> (v.read == v.scratch.len() && !has_byte(v.scratch, v.delim))
}

/// The delimiter scanner: an in-flight "read until delimiter" operation.
///
/// It owns a private scratch buffer and a scan cursor; the byte source and the
/// scheduler stay outside and feed it [`Fill`] events through [`DelimScanner::step`].
pub struct DelimScanner {
    bytes: Vec<u8>,
    read: usize,
    delim: u8,
    done: bool,
}

impl View for DelimScanner {
    type V = ScanView;

    closed spec fn view(&self) -> ScanView {
        ScanView {
            scratch: self.bytes@,
            read: self.read as nat,
            delim: self.delim,
            done: self.done,
        }
    }
}

proof fn lemma_find_byte_props(s: Seq<u8>, b: u8)
    ensures
        0 <= find_byte(s, b) <= s.len(),
        has_byte(s, b) <==> find_byte(s, b) < s.len(),
        find_byte(s, b) < s.len() ==> s[find_byte(s, b)] == b,
        forall|k: int| 0 <= k < find_byte(s, b) ==> s[k] != b,
    decreases s.len(),
{
    if s.len() == 0 {
        assert(!has_byte(s, b));
    } else if s[0] == b {
        assert(has_byte(s, b));
    } else {
        let t = s.drop_first();
        lemma_find_byte_props(t, b);
        assert(forall|k: int| 0 <= k < t.len() ==> t[k] == s[k + 1]);
        assert forall|k: int| 0 <= k < find_byte(s, b) implies s[k] != b by {
            if k > 0 {
                assert(s[k] == t[k - 1]);
            }
        }
        if has_byte(s, b) {
            let i = choose|i: int| 0 <= i < s.len() && s[i] == b;
            assert(i != 0);
            assert(t[i - 1] == b);
            assert(has_byte(t, b));
        }
        if has_byte(t, b) {
            let j = choose|j: int| 0 <= j < t.len() && t[j] == b;
            assert(s[j + 1] == b);
            assert(has_byte(s, b));
        }
    }
}

proof fn lemma_find_byte_at(s: Seq<u8>, b: u8, j: int)
    requires
        0 <= j < s.len(),
        s[j] == b,
        forall|k: int| 0 <= k < j ==> s[k] != b,
    ensures
        find_byte(s, b) == j,
        has_byte(s, b),
    decreases s.len(),
{
    assert(has_byte(s, b));
    if j == 0 {
    } else {
        let t = s.drop_first();
        assert(forall|k: int| 0 <= k < t.len() ==> t[k] == s[k + 1]);
        lemma_find_byte_at(t, b, j - 1);
    }
}

impl DelimScanner {
    /// A fresh scanner for one operation: empty scratch buffer, cursor zero.
    pub fn new(delim: u8) -> (r: DelimScanner)
        ensures
            r@ == (ScanView { scratch: Seq::<u8>::empty(), read: 0nat, delim, done: false }),
            scan_wf(r@),
    {
        DelimScanner { bytes: Vec::new(), read: 0, delim, done: false }
    }

    /// Feed the scanner one report from the byte source.
    ///
    /// On `Data`, the unscanned bytes (exactly the chunk) are examined once
    /// each, up to and including the first delimiter; the examined bytes are
    /// appended to the scratch buffer and reported as `used` so the caller can
    /// mark them consumed in the source. On `Eof` the scan completes with the
    /// accumulated bytes. On `NotReady` nothing changes. On `Error` the scratch
    /// bytes are discarded (the cursor is kept for bookkeeping) and the error
    /// propagates.
    #[verifier::loop_isolation(false)]
    pub fn step<E>(&mut self, event: Fill<E>) -> (r: ScanStep<E>)
        requires
            scan_wf(old(self)@),
            !old(self)@.done,
        ensures
            scan_wf(final(self)@),
            final(self)@.delim == old(self)@.delim,
            event is NotReady ==> final(self)@ == old(self)@ && r == ScanStep::<E>::Suspended,
            event matches Fill::Error(e) ==> final(self)@ == (ScanView {
                scratch: Seq::<u8>::empty(),
                read: old(self)@.read,
                delim: old(self)@.delim,
                done: true,
            }) && r == ScanStep::<E>::Failed(e),
            event is Eof ==> final(self)@ == (ScanView {
                scratch: old(self)@.scratch,
                read: old(self)@.read,
                delim: old(self)@.delim,
                done: true,
            }) && r == (ScanStep::<E>::Done { used: 0, count: old(self)@.read as usize }),
            event matches Fill::Data(chunk) ==> ({
                let o = scan_data(old(self)@.scratch, old(self)@.delim, chunk@);
                &&& final(self)@.scratch == o.scratch
                &&& final(self)@.read == o.scratch.len()
                &&& final(self)@.done == o.done
                &&& if o.done {
                    r == (ScanStep::<E>::Done {
                        used: o.used as usize,
                        count: o.scratch.len() as usize,
                    })
                } else {
                    r == (ScanStep::<E>::More { used: o.used as usize })
                }
            }),
    {
        match event {
            Fill::NotReady => ScanStep::Suspended,
            Fill::Error(e) => {
                self.bytes.clear();
                self.done = true;
                ScanStep::Failed(e)
            },
            Fill::Eof => {
                self.done = true;
                ScanStep::Done { used: 0, count: self.read }
            },
            Fill::Data(chunk) => {
                let n = chunk.len();
                if n == 0 {
                    self.done = true;
                    return ScanStep::Done { used: 0, count: self.read };
                }
                let mut j: usize = 0;
                while j < n
                    invariant
                        n == chunk@.len(),
                        j <= n,
                        self@.delim == old(self)@.delim,
                        !self@.done,
                        self.bytes@ == old(self)@.scratch + chunk@.take(j as int),
                        self@.read == self.bytes@.len(),
                        !has_byte(old(self)@.scratch, self@.delim),
                        forall|k: int| 0 <= k < j as int ==> chunk@[k] != self@.delim,
                    decreases n - j,
                {
                    let b = chunk[j];
                    self.bytes.push(b);
                    proof {
                        vstd::std_specs::vec::axiom_spec_len(&self.bytes);
                    }
                    self.read = self.read + 1;
                    j = j + 1;
                    if b == self.delim {
                        self.done = true;
                        proof {
                            lemma_find_byte_at(chunk@, self.delim, j - 1);
                            assert(self.bytes@ =~= old(self)@.scratch + chunk@.take(
                                find_byte(chunk@, self.delim) + 1,
                            ));
                        }
                        return ScanStep::Done { used: j, count: self.read };
                    }
                }
                proof {
                    lemma_find_byte_props(chunk@, self.delim);
                    assert(!has_byte(chunk@, self.delim));
                    assert(self.bytes@ =~= old(self)@.scratch + chunk@);
                    assert(!has_byte(self.bytes@, self.delim)) by {
                        if has_byte(self.bytes@, self.delim) {
                            let i = choose|i: int|
                                0 <= i < self.bytes@.len() && self.bytes@[i] == self@.delim;
                            if i < old(self)@.scratch.len() {
                                assert(old(self)@.scratch[i] == self@.delim);
                            } else {
                                assert(chunk@[i - old(self)@.scratch.len()] == self@.delim);
                            }
                        }
                    }
                }
                ScanStep::More { used: n }
            },
        }
    }

    /// The scan cursor: how many bytes this operation has consumed and scanned.
    pub fn read_count(&self) -> (r: usize)
        ensures
            r == self@.read,
    {
        self.read
    }

    /// Move the scratch buffer out, leaving the scanner's buffer empty.
    /// Ownership of the bytes transfers; nothing is copied.
    pub fn take_bytes(&mut self) -> (r: Vec<u8>)
        ensures
            r@ == old(self)@.scratch,
            final(self)@ == (ScanView {
                scratch: Seq::<u8>::empty(),
                read: old(self)@.read,
                delim: old(self)@.delim,
                done: old(self)@.done,
            }),
    {
        let mut b: Vec<u8> = Vec::new();
        core::mem::swap(&mut b, &mut self.bytes);
        b
    }

    /// True once the scan reached a terminal state; the scanner must not be
    /// stepped again.
    pub fn is_done(&self) -> (r: bool)
        ensures
            r == self@.done,
    {
        self.done
    }

    /// The delimiter this operation scans for.
    pub fn delimiter(&self) -> (r: u8)
        ensures
            r == self@.delim,
    {
        self.delim
    }
}


/// A non-failing report from the byte source, at the level of the
/// mathematical model; a whole scan is a sequence of these.
pub enum FillKind {
    Data(Seq<u8>),
    Eof,
    NotReady,
}

/// Model of a whole run of the scanner: the scratch bytes accumulated,
/// whether the scan completed, and the scanning work done, counted in bytes
/// examined.
pub struct RunState {
    pub scratch: Seq<u8>,
    pub done: bool,
    pub work: nat,
}

/// Fold the scanner transition over a sequence of source reports, stopping at
/// the first report that completes the scan.
pub open spec fn scan_events(scratch: Seq<u8>, delim: u8, events: Seq<FillKind>) -> RunState
    decreases events.len(),
{
    if events.len() == 0 {
        RunState { scratch, done: false, work: 0 }
    } else {
        match events[0] {
            FillKind::NotReady => scan_events(scratch, delim, events.drop_first()),
            FillKind::Eof => RunState { scratch, done: true, work: 0 },
            FillKind::Data(c) => {
                let o = scan_data(scratch, delim, c);
                if o.done {
                    RunState { scratch: o.scratch, done: true, work: o.used }
                } else {
                    let rest = scan_events(o.scratch, delim, events.drop_first());
                    RunState {
                        scratch: rest.scratch,
                        done: rest.done,
                        work: o.used + rest.work,
                    }
                }
            },
        }
    }
}

/// The same reports with every transient "not ready" removed.
pub open spec fn without_pauses(events: Seq<FillKind>) -> Seq<FillKind>
    decreases events.len(),
{
    if events.len() == 0 {
        Seq::empty()
    } else if events[0] is NotReady {
        without_pauses(events.drop_first())
    } else {
        seq![events[0]] + without_pauses(events.drop_first())
    }
}

/// The chunks of a source that always has data ready, as source reports.
pub open spec fn data_events(chunks: Seq<Seq<u8>>) -> Seq<FillKind> {
    chunks.map_values(|c: Seq<u8>| FillKind::Data(c))
}

/// Law: suspensions are invisible. A source that reports "not ready" any
/// number of times, at any points, yields exactly the run of the source that
/// never does: the same scratch bytes, the same completion, and the same
/// scanning work — suspension and resumption re-examine nothing.
pub proof fn lemma_pauses_invisible(scratch: Seq<u8>, delim: u8, events: Seq<FillKind>)
    ensures
        scan_events(scratch, delim, events) == scan_events(
            scratch,
            delim,
            without_pauses(events),
        ),
    decreases events.len(),
{
    if events.len() == 0 {
    } else if events[0] is NotReady {
        lemma_pauses_invisible(scratch, delim, events.drop_first());
    } else {
        let e0 = events[0];
        let tail = events.drop_first();
        let w = seq![e0] + without_pauses(tail);
        assert(w[0] == e0);
        assert(w.drop_first() =~= without_pauses(tail));
        match e0 {
            FillKind::NotReady => {},
            FillKind::Eof => {},
            FillKind::Data(c) => {
                let o = scan_data(scratch, delim, c);
                if !o.done {
                    lemma_pauses_invisible(o.scratch, delim, tail);
                }
            },
        }
    }
}

proof fn lemma_find_byte_concat(a: Seq<u8>, b: Seq<u8>, d: u8)
    ensures
        has_byte(a + b, d) <==> (has_byte(a, d) || has_byte(b, d)),
        has_byte(a, d) ==> find_byte(a + b, d) == find_byte(a, d),
        !has_byte(a, d) && has_byte(b, d) ==> find_byte(a + b, d) == a.len() + find_byte(b, d),
{
    lemma_find_byte_props(a, d);
    lemma_find_byte_props(b, d);
    assert(forall|k: int| 0 <= k < a.len() ==> (a + b)[k] == a[k]);
    assert(forall|k: int| a.len() <= k < a.len() + b.len() ==> (a + b)[k] == b[k - a.len()]);
    if has_byte(a, d) {
        let j = find_byte(a, d);
        assert forall|k: int| 0 <= k < j implies (a + b)[k] != d by {
            assert((a + b)[k] == a[k]);
        }
        lemma_find_byte_at(a + b, d, j);
    } else {
        assert forall|k: int| 0 <= k < a.len() implies a[k] != d by {
            if a[k] == d {
                assert(has_byte(a, d));
            }
        }
        if has_byte(b, d) {
            let j = find_byte(b, d);
            assert forall|k: int| 0 <= k < a.len() + j implies (a + b)[k] != d by {
                if k >= a.len() {
                    assert((a + b)[k] == b[k - a.len()]);
                }
            }
            assert((a + b)[a.len() + j] == b[j]);
            lemma_find_byte_at(a + b, d, a.len() + j);
        } else {
            assert forall|k: int| 0 <= k < b.len() implies b[k] != d by {
                if b[k] == d {
                    assert(has_byte(b, d));
                }
            }
            if has_byte(a + b, d) {
                let i = choose|i: int| 0 <= i < (a + b).len() && (a + b)[i] == d;
                if i < a.len() {
                    assert(a[i] == d);
                } else {
                    assert(b[i - a.len()] == d);
                }
            }
        }
    }
}

/// Law: runs compose. The run over `e1 + e2` is the run over `e1` when that
/// one completes, and otherwise continues through `e2` from where `e1` left
/// off, with the work adding up.
pub proof fn lemma_scan_events_append(
    scratch: Seq<u8>,
    delim: u8,
    e1: Seq<FillKind>,
    e2: Seq<FillKind>,
)
    ensures
        ({
            let r1 = scan_events(scratch, delim, e1);
            let r12 = scan_events(scratch, delim, e1 + e2);
            if r1.done {
                r12 == r1
            } else {
                let r2 = scan_events(r1.scratch, delim, e2);
                r12 == (RunState {
                    scratch: r2.scratch,
                    done: r2.done,
                    work: r1.work + r2.work,
                })
            }
        }),
    decreases e1.len(),
{
    if e1.len() == 0 {
        assert(e1 + e2 =~= e2);
    } else {
        assert((e1 + e2)[0] == e1[0]);
        assert((e1 + e2).drop_first() =~= e1.drop_first() + e2);
        match e1[0] {
            FillKind::NotReady => {
                lemma_scan_events_append(scratch, delim, e1.drop_first(), e2);
            },
            FillKind::Eof => {},
            FillKind::Data(c) => {
                let o = scan_data(scratch, delim, c);
                if !o.done {
                    lemma_scan_events_append(o.scratch, delim, e1.drop_first(), e2);
                }
            },
        }
    }
}

/// Law: chunking invariance. However the source splits its byte stream into
/// non-empty chunks, the scan accumulates exactly the stream up to and
/// including the first delimiter — or the whole stream when it has none, the
/// operation then still awaiting more input — and the scanning work examines
/// each consumed byte exactly once, never more.
pub proof fn lemma_chunking_invariance(scratch: Seq<u8>, delim: u8, chunks: Seq<Seq<u8>>)
    requires
        !has_byte(scratch, delim),
        forall|i: int| 0 <= i < chunks.len() ==> #[trigger] chunks[i].len() > 0,
    ensures
        ({
            let s = chunks.flatten();
            let r = scan_events(scratch, delim, data_events(chunks));
            &&& r.done == has_byte(s, delim)
            &&& r.scratch == if has_byte(s, delim) {
                scratch + s.take(find_byte(s, delim) + 1)
            } else {
                scratch + s
            }
            &&& r.scratch.len() == scratch.len() + r.work
            &&& r.work <= s.len()
        }),
    decreases chunks.len(),
{
    let s = chunks.flatten();
    let ev = data_events(chunks);
    if chunks.len() == 0 {
        assert(s =~= Seq::<u8>::empty());
        assert(scratch + s =~= scratch);
        assert(!has_byte(s, delim));
    } else {
        let c0 = chunks[0];
        let rest = chunks.drop_first();
        let f = rest.flatten();
        assert(s == c0 + f);
        assert(c0.len() > 0);
        assert(ev[0] == FillKind::Data(c0));
        assert(ev.drop_first() =~= data_events(rest));
        lemma_find_byte_props(c0, delim);
        lemma_find_byte_concat(c0, f, delim);
        let o = scan_data(scratch, delim, c0);
        if has_byte(c0, delim) {
            let j = find_byte(c0, delim);
            assert(find_byte(s, delim) == j);
            assert(s.take(j + 1) =~= c0.take(j + 1));
            assert(o.scratch.len() == scratch.len() + j + 1) by {
                assert(c0.take(j + 1).len() == j + 1);
            }
            assert(s.len() == c0.len() + f.len());
        } else {
            assert(o == (ScanOutcome { scratch: scratch + c0, used: c0.len(), done: false }));
            assert(!has_byte(scratch + c0, delim)) by {
                if has_byte(scratch + c0, delim) {
                    let i = choose|i: int|
                        0 <= i < (scratch + c0).len() && (scratch + c0)[i] == delim;
                    if i < scratch.len() {
                        assert(scratch[i] == delim);
                    } else {
                        assert(c0[i - scratch.len()] == delim);
                    }
                }
            }
            assert(forall|i: int| 0 <= i < rest.len() ==> #[trigger] rest[i].len() > 0);
            lemma_chunking_invariance(scratch + c0, delim, rest);
            let r2 = scan_events(scratch + c0, delim, data_events(rest));
            if has_byte(f, delim) {
                let m = find_byte(f, delim);
                lemma_find_byte_props(f, delim);
                assert(find_byte(s, delim) == c0.len() + m);
                assert(scratch + s.take(c0.len() + m + 1) =~= (scratch + c0) + f.take(m + 1));
            } else {
                assert(!has_byte(s, delim));
                assert(scratch + s =~= (scratch + c0) + f);
            }
            assert(s.len() == c0.len() + f.len());
        }
    }
}

/// Law: end of input is success. A source exhausted before any delimiter
/// appears completes the scan with exactly the bytes that were available —
/// possibly none at all — and never with an error outcome.
pub proof fn lemma_eof_is_success(scratch: Seq<u8>, delim: u8, chunks: Seq<Seq<u8>>)
    requires
        !has_byte(scratch, delim),
        forall|i: int| 0 <= i < chunks.len() ==> #[trigger] chunks[i].len() > 0,
        !has_byte(chunks.flatten(), delim),
    ensures
        ({
            let r = scan_events(scratch, delim, data_events(chunks).push(FillKind::Eof));
            &&& r.done
            &&& r.scratch == scratch + chunks.flatten()
            &&& r.work == chunks.flatten().len()
        }),
{
    lemma_chunking_invariance(scratch, delim, chunks);
    lemma_scan_events_append(scratch, delim, data_events(chunks), seq![FillKind::Eof]);
    assert(data_events(chunks).push(FillKind::Eof) =~= data_events(chunks) + seq![
        FillKind::Eof,
    ]);
    let r1 = scan_events(scratch, delim, data_events(chunks));
    assert(seq![FillKind::Eof][0] == FillKind::Eof);
    assert(scan_events(r1.scratch, delim, seq![FillKind::Eof]) == (RunState {
        scratch: r1.scratch,
        done: true,
        work: 0,
    }));
}

} // verus!

