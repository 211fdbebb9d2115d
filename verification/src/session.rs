//! The per-request session: a growable byte accumulator that frames the
//! upstream stream into lines, a classifier for the line channels, and the
//! release/veto controller that decides what is emitted downstream.
//!
//! Every executable step is proved equal to a mathematical transition
//! function over the session's view, so properties of whole runs (release
//! order, veto atomicity, latch idempotence) can be proved once about the
//! model and carry over to the code.

use vstd::prelude::*;

use crate::text::{concat_seqs, contains_chars, contains_seq, join_strings, str_chars, trim_seq, trim_str};
use crate::validate::{lower_of, verdict_of, NeuroAssembler, Verdict, VerdictView};
use vstd::utf8::{decode_utf8, valid_utf8};

verus! {

/// What `String::from_utf8_lossy` returns for the given bytes.
pub uninterp spec fn decoded_of(b: Seq<u8>) -> Seq<char>;

/// Relies on `String::from_utf8_lossy`: the result is a function of the
/// bytes alone, and on valid UTF-8 input it is exactly the decoded text
/// (invalid sequences are replaced, never an error).
#[verifier::external_body]
fn decode_lossy(b: &[u8]) -> (r: String)
    ensures
        r@ == decoded_of(b@),
        valid_utf8(b@) ==> r@ == decode_utf8(b@),
{
    String::from_utf8_lossy(b).into_owned()
}

/// The copied arguments handed to the recycle side-channel when a veto
/// rejects buffered content.
#[derive(Debug, PartialEq)]
pub struct RecycleReport {
    pub user_prompt: String,
    pub rejected_output: String,
    pub correction: String,
    pub project_id: Option<String>,
}

#[verifier::ext_equal]
pub struct RecycleView {
    pub user_prompt: Seq<char>,
    pub rejected_output: Seq<char>,
    pub correction: Seq<char>,
    pub project_id: Option<Seq<char>>,
}

pub open spec fn opt_str_view(o: Option<String>) -> Option<Seq<char>> {
    match o {
        Option::Some(p) => Option::Some(p@),
        Option::None => Option::None,
    }
}

impl View for RecycleReport {
    type V = RecycleView;

    open spec fn view(&self) -> RecycleView {
        RecycleView {
            user_prompt: self.user_prompt@,
            rejected_output: self.rejected_output@,
            correction: self.correction@,
            project_id: opt_str_view(self.project_id),
        }
    }
}

/// One unit handed to the caller: either text for the outbound stream (a
/// verbatim fragment or a marker) or a fire-and-forget recycle report.
#[derive(Debug, PartialEq)]
pub enum Emission {
    /// A released content fragment, verbatim.
    Fragment(String),
    /// The soft warning emitted before releasing ambiguous content.
    Uncertainty(String),
    /// The correction marker that replaces vetoed content.
    Correction(String),
    /// The correction marker emitted for a disqualifying out-of-band verdict.
    Disqualify(String),
    /// An inline marker carrying an upstream-reported error message.
    UpstreamError(String),
    /// The report for the recycle side-channel; never part of the stream.
    Recycle(RecycleReport),
}

#[verifier::ext_equal]
pub enum EmissionView {
    Fragment(Seq<char>),
    Uncertainty(Seq<char>),
    Correction(Seq<char>),
    Disqualify(Seq<char>),
    UpstreamError(Seq<char>),
    Recycle(RecycleView),
}

impl View for Emission {
    type V = EmissionView;

    open spec fn view(&self) -> EmissionView {
        match self {
            Emission::Fragment(t) => EmissionView::Fragment(t@),
            Emission::Uncertainty(t) => EmissionView::Uncertainty(t@),
            Emission::Correction(t) => EmissionView::Correction(t@),
            Emission::Disqualify(t) => EmissionView::Disqualify(t@),
            Emission::UpstreamError(t) => EmissionView::UpstreamError(t@),
            Emission::Recycle(r) => EmissionView::Recycle(r@),
        }
    }
}

/// The views of a vector of emissions, in order.
pub open spec fn ems_view(v: Seq<Emission>) -> Seq<EmissionView> {
    v.map_values(|e: Emission| e@)
}

/// The full text of the correction marker carrying a veto reason.
pub open spec fn correction_marker(reason: Seq<char>) -> Seq<char> {
    "\n\u{f8ff}\u{fc}\u{f5}\u{b0}\u{d4}\u{220f}\u{e8} [AUTO-CORRECCI\u{221a}\u{ec}N: "@ + reason + "]\n"@
}

/// The uncertainty marker emitted before an ambiguous release.
pub open spec fn uncertainty_marker() -> Seq<char> {
    "\u{201a}\u{f6}\u{2020}\u{d4}\u{220f}\u{e8}"@
}

/// The marker emitted when an out-of-band verdict disqualifies the stream.
pub open spec fn disqualify_marker(payload: Seq<char>) -> Seq<char> {
    "\n\u{201a}\u{f6}\u{2020}\u{d4}\u{220f}\u{e8} [B-STREAM VETO: "@ + payload + "]\n"@
}

/// The inline marker carrying an upstream-reported error.
pub open spec fn error_marker(msg: Seq<char>) -> Seq<char> {
    "\n[RLM-Core Error: "@ + msg + "]\n"@
}

/// One client session: the original claim, the optional project, the
/// validator with its pending-content buffer, the raw-byte accumulator for
/// partial lines, and the one-shot finalized latch.
pub struct Session {
    pub claim: String,
    pub project_id: Option<String>,
    pub assembler: NeuroAssembler,
    pub acc: Vec<u8>,
    pub finalized: bool,
}

/// The mathematical state of a session.
#[verifier::ext_equal]
pub struct SessionView {
    pub claim: Seq<char>,
    pub project_id: Option<Seq<char>>,
    pub axioms: Seq<Seq<char>>,
    pub window: nat,
    pub buffer: Seq<Seq<char>>,
    pub acc: Seq<u8>,
    pub finalized: bool,
}

impl View for Session {
    type V = SessionView;

    open spec fn view(&self) -> SessionView {
        SessionView {
            claim: self.claim@,
            project_id: opt_str_view(self.project_id),
            axioms: self.assembler.axioms.deep_view(),
            window: self.assembler.safety_window as nat,
            buffer: self.assembler.buffer.deep_view(),
            acc: self.acc@,
            finalized: self.finalized,
        }
    }
}

/// The transition for one content fragment: buffer it; once the buffer
/// reaches the safety window, validate the concatenation and either release
/// the oldest fragment (consistent), clear everything and substitute a
/// correction plus a recycle report (contradiction), or warn and release
/// (ambiguous or undecided).
pub open spec fn content_step(s: SessionView, frag: Seq<char>) -> (SessionView, Seq<EmissionView>) {
    let b = s.buffer.push(frag);
    if b.len() >= s.window {
        match verdict_of(s.axioms, lower_of(concat_seqs(b))) {
            VerdictView::Consistent => (
                SessionView { buffer: b.drop_first(), ..s },
                seq![EmissionView::Fragment(b[0])],
            ),
            VerdictView::Contradiction(reason) => (
                SessionView { buffer: Seq::empty(), ..s },
                seq![
                    EmissionView::Recycle(
                        RecycleView {
                            user_prompt: s.claim,
                            rejected_output: concat_seqs(b),
                            correction: reason,
                            project_id: s.project_id,
                        },
                    ),
                    EmissionView::Correction(correction_marker(reason)),
                ],
            ),
            _ => (
                SessionView { buffer: b.drop_first(), ..s },
                seq![EmissionView::Uncertainty(uncertainty_marker()), EmissionView::Fragment(b[0])],
            ),
        }
    } else {
        (SessionView { buffer: b, ..s }, seq![])
    }
}

/// An out-of-band payload that disqualifies the stream.
pub open spec fn is_disqualify(payload: Seq<char>) -> bool {
    contains_seq(payload, "FALLACY"@)
}

/// The transition for an out-of-band verdict line: on the first
/// disqualifying payload the buffer is cleared, the latch set, and one
/// marker emitted; afterwards (or for other payloads) nothing happens.
pub open spec fn oob_step(s: SessionView, payload: Seq<char>) -> (SessionView, Seq<EmissionView>) {
    if is_disqualify(payload) && !s.finalized {
        (
            SessionView { buffer: Seq::empty(), finalized: true, ..s },
            seq![EmissionView::Disqualify(disqualify_marker(payload))],
        )
    } else {
        (s, seq![])
    }
}

/// The transition for an upstream error line: an inline marker, no state
/// change, the session goes on.
pub open spec fn error_step(s: SessionView, payload: Seq<char>) -> (SessionView, Seq<EmissionView>) {
    (s, seq![EmissionView::UpstreamError(error_marker(payload))])
}

/// A line classified by its channel prefix after trimming.
pub enum LineClass {
    Content(Seq<char>),
    OutOfBand(Seq<char>),
    Upstream(Seq<char>),
    Other,
}

/// Classifies a decoded line: trim it, then read the channel from the
/// two-character prefix; anything unrecognized is dropped.
pub open spec fn classify_line(line: Seq<char>) -> LineClass {
    let t = trim_seq(line);
    if t.len() >= 2 && t[0] == 'A' && t[1] == ':' {
        LineClass::Content(t.subrange(2, t.len() as int))
    } else if t.len() >= 2 && t[0] == 'B' && t[1] == ':' {
        LineClass::OutOfBand(t.subrange(2, t.len() as int))
    } else if t.len() >= 2 && t[0] == 'E' && t[1] == ':' {
        LineClass::Upstream(t.subrange(2, t.len() as int))
    } else {
        LineClass::Other
    }
}

/// The transition for one complete decoded line.
pub open spec fn line_step(s: SessionView, line: Seq<char>) -> (SessionView, Seq<EmissionView>) {
    match classify_line(line) {
        LineClass::Content(frag) => content_step(s, frag),
        LineClass::OutOfBand(p) => oob_step(s, p),
        LineClass::Upstream(p) => error_step(s, p),
        LineClass::Other => (s, seq![]),
    }
}

/// The position of the first line terminator in `b`, or `b.len()`.
pub open spec fn first_newline(b: Seq<u8>) -> nat
    decreases b.len(),
{
    if b.len() == 0 {
        0
    } else if b[0] == 10 {
        0
    } else {
        1 + first_newline(b.drop_first())
    }
}

proof fn lemma_first_newline_is(b: Seq<u8>, k: int)
    requires
        0 <= k <= b.len(),
        forall|j: int| 0 <= j < k ==> b[j] != 10,
        k < b.len() ==> b[k] == 10,
    ensures
        first_newline(b) == k,
    decreases b.len(),
{
    if b.len() == 0 {
    } else if b[0] == 10 {
        assert(k == 0);
    } else {
        assert(k >= 1);
        let rest = b.drop_first();
        assert forall|j: int| 0 <= j < k - 1 implies rest[j] != 10 by {
            assert(rest[j] == b[j + 1]);
        }
        lemma_first_newline_is(rest, k - 1);
    }
}

/// Processes every complete line held in the accumulator, oldest first,
/// leaving any trailing partial line for the next chunk.
pub open spec fn process_acc(s: SessionView) -> (SessionView, Seq<EmissionView>)
    decreases s.acc.len(),
{
    let k = first_newline(s.acc);
    if k >= s.acc.len() {
        (s, seq![])
    } else {
        let line = s.acc.subrange(0, k + 1 as int);
        let rest = s.acc.subrange(k + 1 as int, s.acc.len() as int);
        let step = line_step(SessionView { acc: rest, ..s }, decoded_of(line));
        let tail = process_acc(SessionView { acc: rest, ..step.0 });
        (tail.0, step.1 + tail.1)
    }
}

/// The transition for one raw chunk from the upstream connection: append
/// the bytes and process the complete lines they complete.
pub open spec fn bytes_step(s: SessionView, chunk: Seq<u8>) -> (SessionView, Seq<EmissionView>) {
    process_acc(SessionView { acc: s.acc + chunk, ..s })
}

/// Each buffered fragment as a verbatim fragment emission, in order.
pub open spec fn fragment_emissions(bufs: Seq<Seq<char>>) -> Seq<EmissionView> {
    bufs.map_values(|f: Seq<char>| EmissionView::Fragment(f))
}

/// The transition at clean upstream end: flush the remaining buffered
/// fragments downstream in arrival order, with no verdict applied.
pub open spec fn drain_step(s: SessionView) -> (SessionView, Seq<EmissionView>) {
    (SessionView { buffer: Seq::empty(), ..s }, fragment_emissions(s.buffer))
}

/// The position of the first line terminator in `v`, or its length.
fn find_nl(v: &Vec<u8>) -> (r: usize)
    ensures
        r == first_newline(v@),
        r <= v@.len(),
{
    let n: usize = v.len();
    let mut i: usize = 0;
    while i < n
        invariant
            n == v@.len(),
            i <= n,
            forall|j: int| 0 <= j < i ==> v@[j] != 10,
        decreases n - i,
    {
        if v[i] == 10 {
            proof {
                lemma_first_newline_is(v@, i as int);
            }
            return i;
        }
        i = i + 1;
    }
    proof {
        lemma_first_newline_is(v@, n as int);
    }
    i
}

impl Session {
    /// A fresh session for one request: the claim and project as supplied,
    /// the axiom pool loaded once, an empty buffer and accumulator, the
    /// latch unset, and the default safety window.
    pub fn new(claim: String, project_id: Option<String>, axioms: Vec<String>) -> (s: Session)
        ensures
            s@ =~~= (SessionView {
                claim: claim@,
                project_id: opt_str_view(project_id),
                axioms: axioms.deep_view(),
                window: 3,
                buffer: Seq::empty(),
                acc: Seq::empty(),
                finalized: false,
            }),
    {
        Session {
            claim,
            project_id,
            assembler: NeuroAssembler::new(axioms),
            acc: Vec::new(),
            finalized: false,
        }
    }

    /// Buffers one content fragment and, once the safety window is reached,
    /// applies the verdict of the validation pass: release, veto, or warn
    /// and release.
    pub fn handle_content(&mut self, frag: String) -> (out: Vec<Emission>)
        ensures
            ({
                let step = content_step(old(self)@, frag@);
                final(self)@ == step.0 && ems_view(out@) == step.1
            }),
    {
        let ghost s0 = old(self)@;
        let ghost b = s0.buffer.push(frag@);
        self.assembler.buffer.push(frag);
        proof {
            assert(self.assembler.buffer.deep_view() =~= b);
        }
        let mut out: Vec<Emission> = Vec::new();
        if self.assembler.buffer.len() >= self.assembler.safety_window {
            let chunk: String = join_strings(&self.assembler.buffer);
            let verdict = self.assembler.validate_chunk(chunk.as_str());
            match verdict {
                Verdict::Consistent => {
                    let t = self.assembler.buffer.remove(0);
                    out.push(Emission::Fragment(t));
                    proof {
                        assert(self.assembler.buffer.deep_view() =~= b.drop_first());
                        assert(final(self)@ =~~= content_step(s0, frag@).0);
                        assert(ems_view(out@) =~= content_step(s0, frag@).1);
                    }
                },
                Verdict::Contradiction(reason) => {
                    self.assembler.buffer.clear();
                    let project = match &self.project_id {
                        Option::Some(p) => Option::Some(p.clone()),
                        Option::None => Option::None,
                    };
                    let report = RecycleReport {
                        user_prompt: self.claim.clone(),
                        rejected_output: chunk,
                        correction: reason.clone(),
                        project_id: project,
                    };
                    out.push(Emission::Recycle(report));
                    let mut marker = String::from_str("\n\u{f8ff}\u{fc}\u{f5}\u{b0}\u{d4}\u{220f}\u{e8} [AUTO-CORRECCI\u{221a}\u{ec}N: ");
                    marker.append(reason.as_str());
                    marker.append("]\n");
                    out.push(Emission::Correction(marker));
                    proof {
                        assert(self.assembler.buffer.deep_view() =~= Seq::<Seq<char>>::empty());
                        assert(final(self)@ =~~= content_step(s0, frag@).0);
                        assert(ems_view(out@) =~= content_step(s0, frag@).1);
                    }
                },
                Verdict::Ambiguous(_) | Verdict::Undecided => {
                    out.push(Emission::Uncertainty(String::from_str("\u{201a}\u{f6}\u{2020}\u{d4}\u{220f}\u{e8}")));
                    let t = self.assembler.buffer.remove(0);
                    out.push(Emission::Fragment(t));
                    proof {
                        assert(self.assembler.buffer.deep_view() =~= b.drop_first());
                        assert(final(self)@ =~~= content_step(s0, frag@).0);
                        assert(ems_view(out@) =~= content_step(s0, frag@).1);
                    }
                },
            }
        } else {
            proof {
                assert(final(self)@ =~~= content_step(s0, frag@).0);
                assert(ems_view(out@) =~= content_step(s0, frag@).1);
            }
        }
        out
    }

    /// Applies an out-of-band verdict payload: the first disqualifying one
    /// clears the buffer, latches the session, and emits one marker;
    /// everything after the latch is ignored.
    pub fn handle_oob(&mut self, payload: &str) -> (out: Vec<Emission>)
        ensures
            ({
                let step = oob_step(old(self)@, payload@);
                final(self)@ == step.0 && ems_view(out@) == step.1
            }),
    {
        let ghost s0 = old(self)@;
        let p_chars: Vec<char> = str_chars(payload);
        let marker_pat: Vec<char> = str_chars("FALLACY");
        let mut out: Vec<Emission> = Vec::new();
        if contains_chars(&p_chars, &marker_pat) && !self.finalized {
            let mut marker = String::from_str("\n\u{201a}\u{f6}\u{2020}\u{d4}\u{220f}\u{e8} [B-STREAM VETO: ");
            marker.append(payload);
            marker.append("]\n");
            self.assembler.buffer.clear();
            self.finalized = true;
            out.push(Emission::Disqualify(marker));
            proof {
                assert(self.assembler.buffer.deep_view() =~= Seq::<Seq<char>>::empty());
                assert(final(self)@ =~~= oob_step(s0, payload@).0);
                assert(ems_view(out@) =~= oob_step(s0, payload@).1);
            }
        } else {
            proof {
                assert(final(self)@ =~~= oob_step(s0, payload@).0);
                assert(ems_view(out@) =~= oob_step(s0, payload@).1);
            }
        }
        out
    }

    /// Dispatches one complete decoded line by its channel prefix.
    pub fn handle_line(&mut self, line: &str) -> (out: Vec<Emission>)
        ensures
            ({
                let step = line_step(old(self)@, line@);
                final(self)@ == step.0 && ems_view(out@) == step.1
            }),
    {
        let ghost s0 = old(self)@;
        let trimmed: &str = trim_str(line);
        let n: usize = trimmed.unicode_len();
        if n >= 2 {
            let c0: char = trimmed.get_char(0);
            let c1: char = trimmed.get_char(1);
            if c0 == 'A' && c1 == ':' {
                let frag = trimmed.substring_char(2, n);
                return self.handle_content(String::from_str(frag));
            } else if c0 == 'B' && c1 == ':' {
                let payload = trimmed.substring_char(2, n);
                return self.handle_oob(payload);
            } else if c0 == 'E' && c1 == ':' {
                let payload = trimmed.substring_char(2, n);
                let mut marker = String::from_str("\n[RLM-Core Error: ");
                marker.append(payload);
                marker.append("]\n");
                let mut out: Vec<Emission> = Vec::new();
                out.push(Emission::UpstreamError(marker));
                proof {
                    assert(ems_view(out@) =~= error_step(s0, payload@).1);
                }
                return out;
            }
        }
        let out: Vec<Emission> = Vec::new();
        proof {
            assert(classify_line(line@) is Other);
            assert(ems_view(out@) =~= Seq::<EmissionView>::empty());
        }
        out
    }

    /// Feeds one raw chunk from the upstream connection: bytes join the
    /// accumulator and every line they complete is processed in order.
    pub fn push_bytes(&mut self, chunk: &[u8]) -> (out: Vec<Emission>)
        ensures
            ({
                let step = bytes_step(old(self)@, chunk@);
                final(self)@ == step.0 && ems_view(out@) == step.1
            }),
    {
        let ghost s0 = old(self)@;
        self.acc.extend_from_slice(chunk);
        let ghost target = bytes_step(s0, chunk@);
        proof {
            assert(self@ =~~= (SessionView { acc: s0.acc + chunk@, ..s0 }));
        }
        let mut out: Vec<Emission> = Vec::new();
        while find_nl(&self.acc) < self.acc.len()
            invariant
                process_acc(self@).0 == target.0,
                ems_view(out@) + process_acc(self@).1 == target.1,
            decreases self.acc@.len(),
        {
            let ghost s_pre = self@;
            let pos: usize = find_nl(&self.acc);
            let rest: Vec<u8> = self.acc.split_off(pos + 1);
            let line_str: String = decode_lossy(self.acc.as_slice());
            self.acc = rest;
            proof {
                assert(self@ =~~= (SessionView {
                    acc: s_pre.acc.subrange(pos + 1, s_pre.acc.len() as int),
                    ..s_pre
                }));
                assert(line_str@ == decoded_of(s_pre.acc.subrange(0, pos + 1)));
            }
            let mut ems: Vec<Emission> = self.handle_line(line_str.as_str());
            proof {
                let step = line_step(
                    SessionView { acc: s_pre.acc.subrange(pos + 1, s_pre.acc.len() as int), ..s_pre },
                    decoded_of(s_pre.acc.subrange(0, pos + 1)),
                );
                assert(self@ == step.0);
                assert(self@ =~~= (SessionView { acc: self@.acc, ..step.0 }));
                assert(ems_view(out@ + ems@) =~= ems_view(out@) + ems_view(ems@));
            }
            out.append(&mut ems);
        }
        proof {
            assert(process_acc(self@).1 =~= Seq::<EmissionView>::empty());
            assert(ems_view(out@) + Seq::<EmissionView>::empty() =~= ems_view(out@));
        }
        out
    }

    /// Clean upstream end: flushes the remaining buffered fragments in
    /// arrival order, with no verdict applied, and empties the buffer.
    pub fn finish(&mut self) -> (out: Vec<Emission>)
        ensures
            ({
                let step = drain_step(old(self)@);
                final(self)@ == step.0 && ems_view(out@) == step.1
            }),
    {
        let ghost s0 = old(self)@;
        let mut out: Vec<Emission> = Vec::new();
        let mut k: usize = 0;
        let n: usize = self.assembler.buffer.len();
        while k < n
            invariant
                *self == *old(self),
                n == self.assembler.buffer@.len(),
                k <= n,
                out@.len() == k,
                ems_view(out@) =~= fragment_emissions(old(self)@.buffer.take(k as int)),
            decreases n - k,
        {
            let ghost k0 = k as int;
            let ghost prev = out@;
            let t: String = self.assembler.buffer[k].clone();
            proof {
                assert(t@ == old(self)@.buffer[k0]);
            }
            out.push(Emission::Fragment(t));
            k = k + 1;
            proof {
                assert(out@ == prev.push(Emission::Fragment(t)));
                let target = fragment_emissions(old(self)@.buffer.take(k as int));
                assert(ems_view(out@).len() == k);
                assert(target.len() == k);
                assert forall|i: int| 0 <= i < k implies ems_view(out@)[i] == target[i] by {
                    assert(target[i] == EmissionView::Fragment(old(self)@.buffer[i]));
                    if i < k0 {
                        assert(ems_view(out@)[i] == ems_view(prev)[i]);
                        assert(ems_view(prev)[i] == fragment_emissions(
                            old(self)@.buffer.take(k0),
                        )[i]);
                    } else {
                        assert(ems_view(out@)[i] == Emission::Fragment(t)@);
                    }
                }
                assert(ems_view(out@) =~= target);
            }
        }
        self.assembler.buffer.clear();
        proof {
            assert(s0.buffer.take(n as int) =~= s0.buffer);
            assert(self.assembler.buffer.deep_view() =~= Seq::<Seq<char>>::empty());
            assert(final(self)@ =~~= drain_step(s0).0);
        }
        out
    }
}

} // verus!
