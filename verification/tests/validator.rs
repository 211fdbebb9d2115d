use stream_assembler::validate::{NeuroAssembler, Verdict};

#[test]
fn fresh_assembler_has_empty_buffer_and_default_window() {
    let a = NeuroAssembler::new(vec!["an invariant".to_string()]);
    assert_eq!(a.buffer.len(), 0);
    assert_eq!(a.axioms, vec!["an invariant".to_string()]);
    assert_eq!(a.safety_window, 3);
}

#[test]
fn ambiguity_example_kill_the_process() {
    let a = NeuroAssembler::new(Vec::new());
    let v = a.validate_chunk("kill the process");
    assert_eq!(v, Verdict::Ambiguous("kill".to_string()));
}

#[test]
fn ambiguity_is_case_insensitive() {
    let a = NeuroAssembler::new(Vec::new());
    assert_eq!(
        a.validate_chunk("KILL it now"),
        Verdict::Ambiguous("kill".to_string())
    );
}

#[test]
fn ambiguity_spanish_triggers() {
    let a = NeuroAssembler::new(Vec::new());
    assert_eq!(
        a.validate_chunk("hay que ejecutar el plan"),
        Verdict::Ambiguous("ejecutar".to_string())
    );
    assert_eq!(
        a.validate_chunk("vamos a eliminar el registro"),
        Verdict::Ambiguous("eliminar".to_string())
    );
    assert_eq!(
        a.validate_chunk("puede matar la sesion"),
        Verdict::Ambiguous("matar".to_string())
    );
}

#[test]
fn ambiguity_first_match_in_lexicon_order_wins() {
    // The lexicon is scanned in its own order, so "matar" is reported even
    // where "kill" appears earlier in the text.
    let a = NeuroAssembler::new(Vec::new());
    assert_eq!(
        a.validate_chunk("kill or matar"),
        Verdict::Ambiguous("matar".to_string())
    );
}

#[test]
fn contradiction_when_buffer_holds_stripped_axiom() {
    let a = NeuroAssembler::new(vec!["no deployment on Friday".to_string()]);
    let v = a.validate_chunk("we will proceed with deployment on friday");
    assert_eq!(
        v,
        Verdict::Contradiction("PIN violation: no deployment on Friday".to_string())
    );
}

#[test]
fn negation_probe_requires_verbatim_containment() {
    // The heuristic strips the particle and tests plain containment, so a
    // rephrasing that does not contain the stripped axiom verbatim passes.
    let a = NeuroAssembler::new(vec!["no deployment on Friday".to_string()]);
    assert_eq!(a.validate_chunk("we will deploy on friday"), Verdict::Consistent);
}

#[test]
fn contradiction_when_buffer_negates_positive_axiom() {
    let a = NeuroAssembler::new(vec!["backups run daily".to_string()]);
    let v = a.validate_chunk("there will be no backups run daily this week");
    assert_eq!(
        v,
        Verdict::Contradiction("PIN violation: backups run daily".to_string())
    );
}

#[test]
fn contradiction_lowercases_both_sides() {
    let a = NeuroAssembler::new(vec!["No Deployment On Friday".to_string()]);
    let v = a.validate_chunk("PROCEED WITH DEPLOYMENT ON FRIDAY");
    assert_eq!(
        v,
        Verdict::Contradiction("PIN violation: No Deployment On Friday".to_string())
    );
}

#[test]
fn first_contradicted_axiom_wins() {
    let a = NeuroAssembler::new(vec!["no alpha".to_string(), "no beta".to_string()]);
    let v = a.validate_chunk("alpha and beta together");
    assert_eq!(v, Verdict::Contradiction("PIN violation: no alpha".to_string()));
}

#[test]
fn ambiguity_takes_priority_over_contradiction() {
    let a = NeuroAssembler::new(vec!["no restart".to_string()]);
    let v = a.validate_chunk("kill the restart");
    assert_eq!(v, Verdict::Ambiguous("kill".to_string()));
}

#[test]
fn consistent_when_nothing_matches() {
    let a = NeuroAssembler::new(vec!["no downtime".to_string()]);
    assert_eq!(a.validate_chunk("all services healthy"), Verdict::Consistent);
}

#[test]
fn empty_pool_is_consistent() {
    let a = NeuroAssembler::new(Vec::new());
    assert_eq!(a.validate_chunk("anything at all"), Verdict::Consistent);
}
