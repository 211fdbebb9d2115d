use stream_assembler::session::{Emission, Session};

fn fresh(axioms: Vec<&str>) -> Session {
    Session::new(
        "the original claim".to_string(),
        Some("project-7".to_string()),
        axioms.into_iter().map(|s| s.to_string()).collect(),
    )
}

fn fragments(ems: &[Emission]) -> Vec<String> {
    ems.iter()
        .filter_map(|e| match e {
            Emission::Fragment(t) => Some(t.clone()),
            _ => None,
        })
        .collect()
}

#[test]
fn fifo_order_without_vetoes() {
    let mut s = fresh(Vec::new());
    let mut ems = s.push_bytes(b"A:one\nA:two\nA:three\nA:four\n");
    ems.extend(s.finish());
    assert_eq!(
        fragments(&ems),
        vec![
            "one".to_string(),
            "two".to_string(),
            "three".to_string(),
            "four".to_string()
        ]
    );
    // No marker of any kind in a clean run.
    assert!(ems.iter().all(|e| matches!(e, Emission::Fragment(_))));
}

#[test]
fn window_trigger_holds_back_first_two() {
    let mut s = fresh(Vec::new());
    assert_eq!(s.push_bytes(b"A:one\n"), Vec::new());
    assert_eq!(s.push_bytes(b"A:two\n"), Vec::new());
    let ems = s.push_bytes(b"A:three\n");
    assert_eq!(ems, vec![Emission::Fragment("one".to_string())]);
}

#[test]
fn drain_flushes_unvalidated_fragments_in_order() {
    let mut s = fresh(Vec::new());
    assert_eq!(s.push_bytes(b"A:alpha\nA:beta\n"), Vec::new());
    let ems = s.finish();
    assert_eq!(
        ems,
        vec![
            Emission::Fragment("alpha".to_string()),
            Emission::Fragment("beta".to_string())
        ]
    );
}

#[test]
fn veto_clears_buffer_and_substitutes_correction() {
    let mut s = fresh(vec!["no rollback"]);
    assert_eq!(s.push_bytes(b"A:never\nA:do\n"), Vec::new());
    let ems = s.push_bytes(b"A:rollback\n");
    assert_eq!(ems.len(), 2);
    match &ems[0] {
        Emission::Recycle(r) => {
            assert_eq!(r.user_prompt, "the original claim");
            assert_eq!(r.rejected_output, "neverdorollback");
            assert_eq!(r.correction, "PIN violation: no rollback");
            assert_eq!(r.project_id, Some("project-7".to_string()));
        }
        other => panic!("expected a recycle report, got {:?}", other),
    }
    assert_eq!(
        ems[1],
        Emission::Correction(
            "\n\u{f8ff}\u{fc}\u{f5}\u{b0}\u{d4}\u{220f}\u{e8} [AUTO-CORRECCI\u{221a}\u{ec}N: PIN violation: no rollback]\n".to_string()
        )
    );
    // The buffer was cleared atomically: nothing left to drain.
    assert_eq!(s.finish(), Vec::new());
}

#[test]
fn stream_recovers_after_veto() {
    let mut s = fresh(vec!["no rollback"]);
    s.push_bytes(b"A:never\nA:do\nA:rollback\n");
    // Fresh fragments after the veto flow again, FIFO from the new buffer.
    let mut ems = s.push_bytes(b"A:x\nA:y\nA:z\n");
    ems.extend(s.finish());
    assert_eq!(
        fragments(&ems),
        vec!["x".to_string(), "y".to_string(), "z".to_string()]
    );
}

#[test]
fn ambiguous_verdict_warns_then_releases() {
    let mut s = fresh(Vec::new());
    assert_eq!(s.push_bytes(b"A:please\nA:kill\n"), Vec::new());
    let ems = s.push_bytes(b"A:it\n");
    assert_eq!(
        ems,
        vec![
            Emission::Uncertainty("\u{201a}\u{f6}\u{2020}\u{d4}\u{220f}\u{e8}".to_string()),
            Emission::Fragment("please".to_string())
        ]
    );
}

#[test]
fn latch_emits_exactly_one_disqualify_marker() {
    let mut s = fresh(Vec::new());
    let first = s.push_bytes(b"B:FALLACY DETECTED\n");
    assert_eq!(
        first,
        vec![Emission::Disqualify(
            "\n\u{201a}\u{f6}\u{2020}\u{d4}\u{220f}\u{e8} [B-STREAM VETO: FALLACY DETECTED]\n".to_string()
        )]
    );
    let second = s.push_bytes(b"B:FALLACY AGAIN\n");
    assert_eq!(second, Vec::new());
}

#[test]
fn disqualify_clears_pending_buffer() {
    let mut s = fresh(Vec::new());
    assert_eq!(s.push_bytes(b"A:one\nA:two\n"), Vec::new());
    let ems = s.push_bytes(b"B:FALLACY\n");
    assert_eq!(ems.len(), 1);
    assert!(matches!(ems[0], Emission::Disqualify(_)));
    assert_eq!(s.finish(), Vec::new());
}

#[test]
fn non_disqualifying_oob_line_is_ignored() {
    let mut s = fresh(Vec::new());
    assert_eq!(s.push_bytes(b"B:LOOKS FINE\n"), Vec::new());
    // The latch is still free for a later disqualification.
    let ems = s.push_bytes(b"B:FALLACY\n");
    assert_eq!(ems.len(), 1);
}

#[test]
fn error_line_becomes_inline_marker() {
    let mut s = fresh(Vec::new());
    let ems = s.push_bytes(b"E:connection lost\n");
    assert_eq!(
        ems,
        vec![Emission::UpstreamError(
            "\n[RLM-Core Error: connection lost]\n".to_string()
        )]
    );
    // Non-fatal: content still flows afterwards.
    let mut rest = s.push_bytes(b"A:a\nA:b\nA:c\n");
    rest.extend(s.finish());
    assert_eq!(
        fragments(&rest),
        vec!["a".to_string(), "b".to_string(), "c".to_string()]
    );
}

#[test]
fn unknown_lines_are_dropped() {
    let mut s = fresh(Vec::new());
    assert_eq!(s.push_bytes(b"X:mystery\n"), Vec::new());
    assert_eq!(s.push_bytes(b"no prefix at all\n"), Vec::new());
    assert_eq!(s.finish(), Vec::new());
}

#[test]
fn lines_reassemble_across_chunk_boundaries() {
    let mut s = fresh(Vec::new());
    assert_eq!(s.push_bytes(b"A:he"), Vec::new());
    assert_eq!(s.push_bytes(b"llo\nA:wor"), Vec::new());
    assert_eq!(s.push_bytes(b"ld\n"), Vec::new());
    let ems = s.finish();
    assert_eq!(
        ems,
        vec![
            Emission::Fragment("hello".to_string()),
            Emission::Fragment("world".to_string())
        ]
    );
}

#[test]
fn several_lines_in_one_chunk() {
    let mut s = fresh(Vec::new());
    let mut ems = s.push_bytes(b"A:a\nA:b\nA:c\nA:d\nA:e\n");
    ems.extend(s.finish());
    assert_eq!(
        fragments(&ems),
        vec![
            "a".to_string(),
            "b".to_string(),
            "c".to_string(),
            "d".to_string(),
            "e".to_string()
        ]
    );
}

#[test]
fn surrounding_whitespace_is_trimmed_before_classification() {
    let mut s = fresh(Vec::new());
    assert_eq!(s.push_bytes(b"  A:padded  \r\n"), Vec::new());
    let ems = s.finish();
    assert_eq!(ems, vec![Emission::Fragment("padded".to_string())]);
}

#[test]
fn valid_utf8_content_decodes_exactly() {
    let mut s = fresh(Vec::new());
    assert_eq!(s.push_bytes(b"A:caf\xc3\xa9\n"), Vec::new());
    let ems = s.finish();
    assert_eq!(ems, vec![Emission::Fragment("caf\u{e9}".to_string())]);
}

#[test]
fn invalid_utf8_is_replaced_not_fatal() {
    let mut s = fresh(Vec::new());
    assert_eq!(s.push_bytes(b"A:bad\xff\n"), Vec::new());
    let ems = s.finish();
    assert_eq!(ems, vec![Emission::Fragment("bad\u{fffd}".to_string())]);
}

#[test]
fn session_without_project_id() {
    let mut s = Session::new("claim".to_string(), None, vec!["no rush".to_string()]);
    let ems = s.push_bytes(b"A:big\nA:rush\nA: job\n");
    match &ems[0] {
        Emission::Recycle(r) => {
            assert_eq!(r.project_id, None);
            assert_eq!(r.rejected_output, "bigrush job");
        }
        other => panic!("expected a recycle report, got {:?}", other),
    }
}
