//! Session-level laws, proved once about the transition model of
//! `crate::session` and therefore holding of every run of the executable
//! controller: release order under consistent runs, veto atomicity, latch
//! idempotence, and the safety-window trigger.

use vstd::prelude::*;

use crate::session::{
    classify_line, content_step, decoded_of, drain_step, first_newline, fragment_emissions,
    is_disqualify, line_step, process_acc, EmissionView, LineClass, SessionView,
};
use crate::text::concat_seqs;
use crate::validate::{lower_of, verdict_of, VerdictView};

verus! {

/// The state and emissions after feeding a sequence of content fragments,
/// one content line at a time.
pub open spec fn run_contents(s: SessionView, frags: Seq<Seq<char>>) -> (
    SessionView,
    Seq<EmissionView>,
)
    decreases frags.len(),
{
    if frags.len() == 0 {
        (s, seq![])
    } else {
        let step = content_step(s, frags[0]);
        let tail = run_contents(step.0, frags.drop_first());
        (tail.0, step.1 + tail.1)
    }
}

/// The state and emissions after feeding a sequence of complete decoded
/// lines of any channel.
pub open spec fn run_lines(s: SessionView, lines: Seq<Seq<char>>) -> (
    SessionView,
    Seq<EmissionView>,
)
    decreases lines.len(),
{
    if lines.len() == 0 {
        (s, seq![])
    } else {
        let step = line_step(s, lines[0]);
        let tail = run_lines(step.0, lines.drop_first());
        (tail.0, step.1 + tail.1)
    }
}

/// No evaluation triggered during the run computes a contradiction verdict.
pub open spec fn no_veto_in_run(s: SessionView, frags: Seq<Seq<char>>) -> bool
    decreases frags.len(),
{
    if frags.len() == 0 {
        true
    } else {
        let b = s.buffer.push(frags[0]);
        &&& (b.len() >= s.window ==> !(verdict_of(s.axioms, lower_of(concat_seqs(b)))
            is Contradiction))
        &&& no_veto_in_run(content_step(s, frags[0]).0, frags.drop_first())
    }
}

/// The payloads of the verbatim fragment emissions, in emission order.
pub open spec fn emitted_fragments(ems: Seq<EmissionView>) -> Seq<Seq<char>>
    decreases ems.len(),
{
    if ems.len() == 0 {
        Seq::empty()
    } else {
        let head: Seq<Seq<char>> = match ems[0] {
            EmissionView::Fragment(f) => seq![f],
            _ => Seq::empty(),
        };
        head + emitted_fragments(ems.drop_first())
    }
}

/// How many disqualify markers a sequence of emissions holds.
pub open spec fn disqualify_count(ems: Seq<EmissionView>) -> nat
    decreases ems.len(),
{
    if ems.len() == 0 {
        0
    } else {
        (if ems[0] is Disqualify {
            1nat
        } else {
            0nat
        }) + disqualify_count(ems.drop_first())
    }
}

/// A line that carries the disqualifying out-of-band classification.
pub open spec fn line_disqualifies(line: Seq<char>) -> bool {
    match classify_line(line) {
        LineClass::OutOfBand(p) => is_disqualify(p),
        _ => false,
    }
}

proof fn lemma_emitted_add(a: Seq<EmissionView>, b: Seq<EmissionView>)
    ensures
        emitted_fragments(a + b) == emitted_fragments(a) + emitted_fragments(b),
    decreases a.len(),
{
    if a.len() == 0 {
        assert(a + b =~= b);
        assert(emitted_fragments(a) =~= Seq::<Seq<char>>::empty());
        assert(emitted_fragments(a) + emitted_fragments(b) =~= emitted_fragments(b));
    } else {
        lemma_emitted_add(a.drop_first(), b);
        assert((a + b).drop_first() =~= a.drop_first() + b);
        assert((a + b)[0] == a[0]);
        let head: Seq<Seq<char>> = match a[0] {
            EmissionView::Fragment(f) => seq![f],
            _ => Seq::empty(),
        };
        assert(emitted_fragments(a + b) == head + (emitted_fragments(a.drop_first())
            + emitted_fragments(b)));
        assert(head + (emitted_fragments(a.drop_first()) + emitted_fragments(b)) =~= (head
            + emitted_fragments(a.drop_first())) + emitted_fragments(b));
    }
}

proof fn lemma_disqualify_add(a: Seq<EmissionView>, b: Seq<EmissionView>)
    ensures
        disqualify_count(a + b) == disqualify_count(a) + disqualify_count(b),
    decreases a.len(),
{
    if a.len() == 0 {
        assert(a + b =~= b);
    } else {
        lemma_disqualify_add(a.drop_first(), b);
        assert((a + b).drop_first() =~= a.drop_first() + b);
        assert((a + b)[0] == a[0]);
    }
}

proof fn lemma_emitted_of_fragment_emissions(bufs: Seq<Seq<char>>)
    ensures
        emitted_fragments(fragment_emissions(bufs)) == bufs,
    decreases bufs.len(),
{
    let ems = fragment_emissions(bufs);
    if bufs.len() == 0 {
        assert(ems.len() == 0);
        assert(emitted_fragments(ems) =~= bufs);
    } else {
        lemma_emitted_of_fragment_emissions(bufs.drop_first());
        assert(ems[0] == EmissionView::Fragment(bufs[0]));
        assert(ems.drop_first() =~= fragment_emissions(bufs.drop_first()));
        assert(emitted_fragments(ems) == seq![bufs[0]] + bufs.drop_first());
        assert(seq![bufs[0]] + bufs.drop_first() =~= bufs);
    }
}

/// What one content step emits, as released fragments: nothing below the
/// window; the oldest buffered fragment on a consistent or ambiguous
/// verdict; nothing on a contradiction.
proof fn lemma_content_step_fragments(s: SessionView, frag: Seq<char>)
    ensures
        ({
            let b = s.buffer.push(frag);
            let step = content_step(s, frag);
            if b.len() >= s.window {
                match verdict_of(s.axioms, lower_of(concat_seqs(b))) {
                    VerdictView::Contradiction(_) => emitted_fragments(step.1) =~= Seq::<
                        Seq<char>,
                    >::empty(),
                    _ => emitted_fragments(step.1) =~= seq![b[0]],
                }
            } else {
                emitted_fragments(step.1) =~= Seq::<Seq<char>>::empty()
            }
        }),
{
    reveal_with_fuel(emitted_fragments, 4);
    let b = s.buffer.push(frag);
    let step = content_step(s, frag);
    if b.len() >= s.window {
        match verdict_of(s.axioms, lower_of(concat_seqs(b))) {
            VerdictView::Consistent => {
                assert(step.1 =~= seq![EmissionView::Fragment(b[0])]);
                assert(step.1.drop_first() =~= Seq::<EmissionView>::empty());
                assert(emitted_fragments(step.1) =~= seq![b[0]]);
            },
            VerdictView::Contradiction(_) => {
                assert(step.1.len() == 2);
                assert(!(step.1[0] is Fragment));
                assert(!(step.1[1] is Fragment));
                assert(step.1.drop_first()[0] == step.1[1]);
                assert(step.1.drop_first().drop_first() =~= Seq::<EmissionView>::empty());
                assert(emitted_fragments(step.1) =~= Seq::<Seq<char>>::empty());
            },
            _ => {
                assert(step.1.len() == 2);
                assert(!(step.1[0] is Fragment));
                assert(step.1.drop_first()[0] == step.1[1]);
                assert(step.1[1] == EmissionView::Fragment(b[0]));
                assert(step.1.drop_first().drop_first() =~= Seq::<EmissionView>::empty());
                assert(emitted_fragments(step.1) =~= seq![b[0]]);
            },
        }
    } else {
        assert(step.1 =~= Seq::<EmissionView>::empty());
    }
}

/// Release-order law, general form: over any veto-free run of content
/// lines, the fragments already emitted followed by the fragments still
/// buffered are exactly the initial buffer followed by the inputs, in
/// arrival order, and nothing but the buffer changes.
pub proof fn lemma_run_fifo_general(s: SessionView, frags: Seq<Seq<char>>)
    requires
        no_veto_in_run(s, frags),
    ensures
        ({
            let run = run_contents(s, frags);
            emitted_fragments(run.1) + run.0.buffer == s.buffer + frags && run.0 == (SessionView {
                buffer: run.0.buffer,
                ..s
            })
        }),
    decreases frags.len(),
{
    let run = run_contents(s, frags);
    if frags.len() == 0 {
        assert(emitted_fragments(run.1) =~= Seq::<Seq<char>>::empty());
        assert(emitted_fragments(run.1) + run.0.buffer =~= s.buffer + frags);
        assert(run.0 =~~= (SessionView { buffer: run.0.buffer, ..s }));
    } else {
        let b = s.buffer.push(frags[0]);
        let step = content_step(s, frags[0]);
        let tail = run_contents(step.0, frags.drop_first());
        lemma_content_step_fragments(s, frags[0]);
        lemma_run_fifo_general(step.0, frags.drop_first());
        lemma_emitted_add(step.1, tail.1);
        assert(step.0 =~~= (SessionView { buffer: step.0.buffer, ..s }));
        assert(run.0 =~~= (SessionView { buffer: run.0.buffer, ..s }));
        if b.len() >= s.window {
            assert(!(verdict_of(s.axioms, lower_of(concat_seqs(b))) is Contradiction));
            assert(emitted_fragments(step.1) =~= seq![b[0]]);
            assert(step.0.buffer =~= b.drop_first());
            assert(seq![b[0]] + b.drop_first() =~= b);
        } else {
            assert(emitted_fragments(step.1) =~= Seq::<Seq<char>>::empty());
            assert(step.0.buffer =~= b);
        }
        assert(emitted_fragments(step.1) + step.0.buffer =~= b);
        assert(emitted_fragments(run.1) + run.0.buffer =~= (emitted_fragments(step.1)
            + emitted_fragments(tail.1)) + run.0.buffer);
        assert(emitted_fragments(tail.1) + run.0.buffer =~= step.0.buffer + frags.drop_first());
        assert(emitted_fragments(step.1) + (step.0.buffer + frags.drop_first()) =~= b
            + frags.drop_first());
        assert((emitted_fragments(step.1) + emitted_fragments(tail.1)) + run.0.buffer =~= b
            + frags.drop_first());
        assert(b + frags.drop_first() =~= s.buffer + frags);
    }
}

/// FIFO invariant: for any sequence of content lines during which no veto
/// is triggered, starting from an empty buffer, the fragments emitted by
/// the run followed by the final drain equal the input fragments, verbatim
/// and in the same order.
pub proof fn lemma_fifo(s: SessionView, frags: Seq<Seq<char>>)
    requires
        s.buffer.len() == 0,
        no_veto_in_run(s, frags),
    ensures
        ({
            let run = run_contents(s, frags);
            let drained = drain_step(run.0);
            emitted_fragments(run.1 + drained.1) == frags
        }),
{
    let run = run_contents(s, frags);
    let drained = drain_step(run.0);
    lemma_run_fifo_general(s, frags);
    lemma_emitted_add(run.1, drained.1);
    lemma_emitted_of_fragment_emissions(run.0.buffer);
    assert(s.buffer + frags =~= frags);
    assert(emitted_fragments(run.1 + drained.1) =~= emitted_fragments(run.1) + run.0.buffer);
}

/// Veto atomicity, single step: whenever a contradiction verdict is
/// computed, the whole buffer is cleared and that step emits no fragment
/// verbatim, only the recycle report and the correction marker.
pub proof fn lemma_veto_atomic(s: SessionView, frag: Seq<char>)
    requires
        ({
            let b = s.buffer.push(frag);
            b.len() >= s.window && verdict_of(s.axioms, lower_of(concat_seqs(b)))
                is Contradiction
        }),
    ensures
        content_step(s, frag).0.buffer == Seq::<Seq<char>>::empty(),
        emitted_fragments(content_step(s, frag).1) == Seq::<Seq<char>>::empty(),
{
    lemma_content_step_fragments(s, frag);
}

/// Fragment provenance: every fragment a run of content lines emits, and
/// every fragment left buffered, entered as part of the initial buffer or
/// as one of the run's inputs.
pub proof fn lemma_fragment_provenance(s: SessionView, frags: Seq<Seq<char>>)
    ensures
        ({
            let run = run_contents(s, frags);
            (forall|x: Seq<char>|
                emitted_fragments(run.1).contains(x) ==> s.buffer.contains(x) || frags.contains(x))
                && (forall|x: Seq<char>|
                run.0.buffer.contains(x) ==> s.buffer.contains(x) || frags.contains(x))
        }),
    decreases frags.len(),
{
    let run = run_contents(s, frags);
    if frags.len() == 0 {
        assert(emitted_fragments(run.1) =~= Seq::<Seq<char>>::empty());
    } else {
        let b = s.buffer.push(frags[0]);
        let step = content_step(s, frags[0]);
        let tail = run_contents(step.0, frags.drop_first());
        lemma_content_step_fragments(s, frags[0]);
        lemma_fragment_provenance(step.0, frags.drop_first());
        lemma_emitted_add(step.1, tail.1);
        assert(frags.contains(frags[0]));
        assert forall|x: Seq<char>| b.contains(x) implies s.buffer.contains(x) || frags.contains(
            x,
        ) by {
            let i = choose|i: int| 0 <= i < b.len() && b[i] == x;
            if i < s.buffer.len() {
                assert(s.buffer[i] == x);
            } else {
                assert(x == frags[0]);
            }
        }
        assert forall|x: Seq<char>| step.0.buffer.contains(x) implies b.contains(x) by {
            let i = choose|i: int| 0 <= i < step.0.buffer.len() && step.0.buffer[i] == x;
            if b.len() >= s.window {
                match verdict_of(s.axioms, lower_of(concat_seqs(b))) {
                    VerdictView::Contradiction(_) => {
                        assert(false);
                    },
                    _ => {
                        assert(step.0.buffer =~= b.drop_first());
                        assert(b[i + 1] == x);
                    },
                }
            } else {
                assert(step.0.buffer == b);
                assert(b[i] == x);
            }
        }
        assert forall|x: Seq<char>| emitted_fragments(step.1).contains(x) implies b.contains(
            x,
        ) by {
            if b.len() >= s.window {
                match verdict_of(s.axioms, lower_of(concat_seqs(b))) {
                    VerdictView::Contradiction(_) => {
                        assert(emitted_fragments(step.1).len() == 0);
                    },
                    _ => {
                        assert(emitted_fragments(step.1) =~= seq![b[0]]);
                        assert(b.contains(b[0]));
                    },
                }
            } else {
                assert(emitted_fragments(step.1).len() == 0);
            }
        }
        assert forall|x: Seq<char>|
            frags.drop_first().contains(x) implies frags.contains(x) by {
            let i = choose|i: int| 0 <= i < frags.drop_first().len() && frags.drop_first()[i] == x;
            assert(frags[i + 1] == x);
        }
        assert forall|x: Seq<char>| emitted_fragments(run.1).contains(x) implies s.buffer.contains(
            x,
        ) || frags.contains(x) by {
            assert(emitted_fragments(run.1) == emitted_fragments(step.1) + emitted_fragments(
                tail.1,
            ));
            let i = choose|i: int|
                0 <= i < emitted_fragments(run.1).len() && emitted_fragments(run.1)[i] == x;
            if i < emitted_fragments(step.1).len() {
                assert(emitted_fragments(step.1).contains(x));
            } else {
                assert(emitted_fragments(tail.1)[i - emitted_fragments(step.1).len()] == x);
                assert(emitted_fragments(tail.1).contains(x));
            }
        }
    }
}

/// Veto atomicity, whole run: once the buffer has been cleared, every
/// fragment emitted by the rest of the session (final drain included) is
/// one of the fragments that arrived after the clearing; nothing from the
/// vetoed buffer is ever emitted verbatim again.
pub proof fn lemma_no_resurrection(s: SessionView, frags: Seq<Seq<char>>)
    requires
        s.buffer.len() == 0,
    ensures
        ({
            let run = run_contents(s, frags);
            let drained = drain_step(run.0);
            forall|x: Seq<char>|
                emitted_fragments(run.1 + drained.1).contains(x) ==> frags.contains(x)
        }),
{
    let run = run_contents(s, frags);
    let drained = drain_step(run.0);
    lemma_fragment_provenance(s, frags);
    lemma_emitted_add(run.1, drained.1);
    lemma_emitted_of_fragment_emissions(run.0.buffer);
    assert forall|x: Seq<char>|
        emitted_fragments(run.1 + drained.1).contains(x) implies frags.contains(x) by {
        let ems = emitted_fragments(run.1) + run.0.buffer;
        assert(emitted_fragments(run.1 + drained.1) == ems);
        let i = choose|i: int| 0 <= i < ems.len() && ems[i] == x;
        if i < emitted_fragments(run.1).len() {
            assert(emitted_fragments(run.1).contains(x));
        } else {
            assert(run.0.buffer[i - emitted_fragments(run.1).len()] == x);
            assert(run.0.buffer.contains(x));
        }
    }
}

/// What one line does to the latch and the disqualify marker count: a
/// disqualifying out-of-band line emits exactly one marker when the latch
/// is unset and sets it; every other line, and every line after the latch,
/// emits none and leaves the latch alone.
proof fn lemma_line_step_latch(s: SessionView, line: Seq<char>)
    ensures
        ({
            let step = line_step(s, line);
            disqualify_count(step.1) == (if line_disqualifies(line) && !s.finalized {
                1nat
            } else {
                0nat
            }) && step.0.finalized == (s.finalized || line_disqualifies(line))
        }),
{
    reveal_with_fuel(disqualify_count, 4);
    let step = line_step(s, line);
    match classify_line(line) {
        LineClass::Content(frag) => {
            let b = s.buffer.push(frag);
            if b.len() >= s.window {
                match verdict_of(s.axioms, lower_of(concat_seqs(b))) {
                    VerdictView::Consistent => {
                        assert(step.1.drop_first() =~= Seq::<EmissionView>::empty());
                        assert(disqualify_count(step.1) == 0);
                    },
                    VerdictView::Contradiction(_) => {
                        assert(step.1.drop_first()[0] == step.1[1]);
                        assert(step.1.drop_first().drop_first() =~= Seq::<EmissionView>::empty());
                        assert(disqualify_count(step.1) == 0);
                    },
                    _ => {
                        assert(step.1.drop_first()[0] == step.1[1]);
                        assert(step.1.drop_first().drop_first() =~= Seq::<EmissionView>::empty());
                        assert(disqualify_count(step.1) == 0);
                    },
                }
            } else {
                assert(step.1 =~= Seq::<EmissionView>::empty());
            }
        },
        LineClass::OutOfBand(p) => {
            if is_disqualify(p) && !s.finalized {
                assert(step.1.drop_first() =~= Seq::<EmissionView>::empty());
                assert(disqualify_count(step.1) == 1);
            } else {
                assert(step.1 =~= Seq::<EmissionView>::empty());
            }
        },
        LineClass::Upstream(p) => {
            assert(step.1.drop_first() =~= Seq::<EmissionView>::empty());
            assert(disqualify_count(step.1) == 0);
        },
        LineClass::Other => {
            assert(step.1 =~= Seq::<EmissionView>::empty());
        },
    }
}

/// Latch idempotence: over any run of lines, at most one disqualify marker
/// is emitted; starting with the latch unset, exactly one is emitted when
/// the lines hold at least one disqualifying out-of-band line (two such
/// lines still give one marker), and none otherwise; with the latch
/// already set, none is ever emitted.
pub proof fn lemma_latch_idempotent(s: SessionView, lines: Seq<Seq<char>>)
    ensures
        ({
            let run = run_lines(s, lines);
            let any = exists|i: int| 0 <= i < lines.len() && line_disqualifies(#[trigger] lines[i]);
            disqualify_count(run.1) == (if !s.finalized && any {
                1nat
            } else {
                0nat
            }) && run.0.finalized == (s.finalized || any)
        }),
    decreases lines.len(),
{
    let run = run_lines(s, lines);
    let any = exists|i: int| 0 <= i < lines.len() && line_disqualifies(#[trigger] lines[i]);
    if lines.len() == 0 {
        assert(!any);
    } else {
        let step = line_step(s, lines[0]);
        let tail = run_lines(step.0, lines.drop_first());
        let rest = lines.drop_first();
        let any_rest = exists|i: int| 0 <= i < rest.len() && line_disqualifies(#[trigger] rest[i]);
        lemma_line_step_latch(s, lines[0]);
        lemma_latch_idempotent(step.0, rest);
        lemma_disqualify_add(step.1, tail.1);
        assert(lines.contains(lines[0]));
        if any_rest {
            let i = choose|i: int| 0 <= i < rest.len() && line_disqualifies(#[trigger] rest[i]);
            assert(lines[i + 1] == rest[i]);
            assert(any);
        }
        if line_disqualifies(lines[0]) {
            assert(any);
        }
        if any && !line_disqualifies(lines[0]) {
            let i = choose|i: int| 0 <= i < lines.len() && line_disqualifies(#[trigger] lines[i]);
            assert(i >= 1);
            assert(rest[i - 1] == lines[i]);
            assert(any_rest);
        }
    }
}

/// The complete lines held at the front of a byte sequence, decoded, in
/// order.
pub open spec fn complete_lines(b: Seq<u8>) -> Seq<Seq<char>>
    decreases b.len(),
{
    let k = first_newline(b);
    if k >= b.len() {
        seq![]
    } else {
        seq![decoded_of(b.subrange(0, k + 1 as int))] + complete_lines(
            b.subrange(k + 1 as int, b.len() as int),
        )
    }
}

/// The trailing partial line of a byte sequence, after its last terminator.
pub open spec fn residual(b: Seq<u8>) -> Seq<u8>
    decreases b.len(),
{
    let k = first_newline(b);
    if k >= b.len() {
        b
    } else {
        residual(b.subrange(k + 1 as int, b.len() as int))
    }
}

/// A line transition reads and writes everything but the accumulator.
proof fn lemma_line_step_ignores_acc(s: SessionView, a: Seq<u8>, line: Seq<char>)
    ensures
        ({
            let r = line_step(s, line);
            line_step(SessionView { acc: a, ..s }, line) == (SessionView { acc: a, ..r.0 }, r.1)
        }),
{
    let sa = SessionView { acc: a, ..s };
    let r = line_step(s, line);
    let ra = line_step(sa, line);
    match classify_line(line) {
        LineClass::Content(frag) => {
            let b = s.buffer.push(frag);
            if b.len() >= s.window {
                match verdict_of(s.axioms, lower_of(concat_seqs(b))) {
                    VerdictView::Consistent => {
                        assert(ra.0 =~~= (SessionView { acc: a, ..r.0 }));
                    },
                    VerdictView::Contradiction(_) => {
                        assert(ra.0 =~~= (SessionView { acc: a, ..r.0 }));
                    },
                    _ => {
                        assert(ra.0 =~~= (SessionView { acc: a, ..r.0 }));
                    },
                }
            } else {
                assert(ra.0 =~~= (SessionView { acc: a, ..r.0 }));
            }
        },
        LineClass::OutOfBand(p) => {
            assert(ra.0 =~~= (SessionView { acc: a, ..r.0 }));
        },
        LineClass::Upstream(p) => {
            assert(ra.0 =~~= (SessionView { acc: a, ..r.0 }));
        },
        LineClass::Other => {
            assert(ra.0 =~~= (SessionView { acc: a, ..r.0 }));
        },
    }
    assert(ra.1 == r.1);
}

/// Framing law: processing the accumulator is exactly running the complete
/// lines it holds, in order, with the trailing partial line retained for
/// the next chunk; chunk boundaries never change what a session does.
pub proof fn lemma_process_acc_is_line_run(s: SessionView)
    ensures
        process_acc(s) == run_lines(
            SessionView { acc: residual(s.acc), ..s },
            complete_lines(s.acc),
        ),
    decreases s.acc.len(),
{
    let k = first_newline(s.acc);
    let lines = complete_lines(s.acc);
    let target = run_lines(SessionView { acc: residual(s.acc), ..s }, lines);
    if k >= s.acc.len() {
        assert(lines =~= Seq::<Seq<char>>::empty());
        assert(residual(s.acc) == s.acc);
        assert((SessionView { acc: s.acc, ..s }) =~~= s);
        assert(process_acc(s) == (s, Seq::<EmissionView>::empty()));
    } else {
        let line = s.acc.subrange(0, k + 1 as int);
        let rest = s.acc.subrange(k + 1 as int, s.acc.len() as int);
        let step = line_step(SessionView { acc: rest, ..s }, decoded_of(line));
        let mid = SessionView { acc: rest, ..step.0 };
        let tail = process_acc(mid);
        assert(process_acc(s) == (tail.0, step.1 + tail.1));
        assert(mid.acc.len() < s.acc.len());
        lemma_process_acc_is_line_run(mid);
        assert(residual(s.acc) == residual(rest));
        assert(complete_lines(rest) == complete_lines(mid.acc));
        // The head transition, relocated onto the residual accumulator.
        let core = line_step(s, decoded_of(line));
        lemma_line_step_ignores_acc(s, rest, decoded_of(line));
        lemma_line_step_ignores_acc(s, residual(s.acc), decoded_of(line));
        assert(step == (SessionView { acc: rest, ..core.0 }, core.1));
        assert(lines[0] == decoded_of(line));
        assert(lines.drop_first() =~= complete_lines(rest));
        let first = line_step(SessionView { acc: residual(s.acc), ..s }, lines[0]);
        assert(first == (SessionView { acc: residual(s.acc), ..core.0 }, core.1));
        assert(target == ({
            let t2 = run_lines(first.0, lines.drop_first());
            (t2.0, first.1 + t2.1)
        }));
        assert((SessionView { acc: residual(rest), ..mid }) =~~= (SessionView {
            acc: residual(s.acc),
            ..core.0
        }));
        assert(tail == run_lines(SessionView { acc: residual(s.acc), ..core.0 }, complete_lines(rest)));
        assert(process_acc(s) == target);
    }
}

/// Window trigger, below the threshold: while the buffer stays below the
/// safety window, content lines only accumulate; nothing is validated and
/// nothing is emitted.
pub proof fn lemma_window_accumulates(s: SessionView, frags: Seq<Seq<char>>)
    requires
        s.buffer.len() + frags.len() < s.window,
    ensures
        ({
            let run = run_contents(s, frags);
            run.0 == (SessionView { buffer: s.buffer + frags, ..s }) && run.1 == Seq::<
                EmissionView,
            >::empty()
        }),
    decreases frags.len(),
{
    let run = run_contents(s, frags);
    if frags.len() == 0 {
        assert(s.buffer + frags =~= s.buffer);
        assert(run.0 =~~= (SessionView { buffer: s.buffer + frags, ..s }));
    } else {
        let b = s.buffer.push(frags[0]);
        let step = content_step(s, frags[0]);
        assert(b.len() < s.window);
        assert(step.0 =~~= (SessionView { buffer: b, ..s }));
        lemma_window_accumulates(step.0, frags.drop_first());
        assert(b + frags.drop_first() =~= s.buffer + frags);
        assert(run.0 =~~= (SessionView { buffer: s.buffer + frags, ..s }));
        assert(run.1 =~= Seq::<EmissionView>::empty());
    }
}

/// Window trigger, at the threshold: when the inputs fill the buffer up to
/// exactly the safety window, the whole run equals the single validation
/// step taken on the last arrival, with the full window buffered; in
/// particular the first verdict is computed only once the window-th content
/// line has arrived, and the first release (if the verdict allows one)
/// happens only then.
pub proof fn lemma_window_triggers(s: SessionView, frags: Seq<Seq<char>>)
    requires
        s.buffer.len() + frags.len() == s.window,
        frags.len() >= 1,
    ensures
        run_contents(s, frags) == content_step(
            SessionView { buffer: s.buffer + frags.drop_last(), ..s },
            frags.last(),
        ),
    decreases frags.len(),
{
    let run = run_contents(s, frags);
    let step = content_step(s, frags[0]);
    if frags.len() == 1 {
        assert(frags.drop_first() =~= Seq::<Seq<char>>::empty());
        assert(run_contents(step.0, frags.drop_first()) == (step.0, Seq::<EmissionView>::empty()));
        assert(s.buffer + frags.drop_last() =~= s.buffer);
        assert((SessionView { buffer: s.buffer + frags.drop_last(), ..s }) =~~= s);
        assert(frags.last() == frags[0]);
        assert(run.1 =~= step.1);
        assert(run == content_step(
            SessionView { buffer: s.buffer + frags.drop_last(), ..s },
            frags.last(),
        ));
    } else {
        let b = s.buffer.push(frags[0]);
        assert(b.len() < s.window);
        assert(step.0 =~~= (SessionView { buffer: b, ..s }));
        assert(step.1 =~= Seq::<EmissionView>::empty());
        lemma_window_triggers(step.0, frags.drop_first());
        assert(b + frags.drop_first().drop_last() =~= s.buffer + frags.drop_last());
        assert((SessionView { buffer: b + frags.drop_first().drop_last(), ..s }) =~~= (SessionView {
            buffer: s.buffer + frags.drop_last(),
            ..s
        }));
        assert(frags.drop_first().last() == frags.last());
        let inner = content_step(
            SessionView { buffer: s.buffer + frags.drop_last(), ..s },
            frags.last(),
        );
        assert(run.1 =~= inner.1);
        assert(run == inner);
    }
}

} // verus!
