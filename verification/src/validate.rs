//! The sliding-window validator: a pure check of buffered content against a
//! session's axiom pool. In priority order it looks for operationally
//! ambiguous terms, then for a lexical contradiction of an axiom (text
//! containment after stripping the negation particle), and otherwise finds
//! the content consistent.

use vstd::prelude::*;

use crate::text::{
    contains_chars, contains_seq, str_chars, strip_all, strip_all_chars, trim_chars, trim_seq,
};

verus! {

/// What `str::to_lowercase` returns for the given characters.
pub uninterp spec fn lower_of(s: Seq<char>) -> Seq<char>;

/// Relies on `str::to_lowercase`: the result depends on the characters of
/// the input alone (the conversion is Unicode-defined, locale-independent).
#[verifier::external_body]
fn lowercase(s: &str) -> (r: String)
    ensures
        r@ == lower_of(s@),
{
    s.to_lowercase()
}

/// The outcome of one validation pass over the buffered content. An
/// ambiguous verdict carries the matched lexicon term.
#[derive(Debug, PartialEq)]
pub enum Verdict {
    Consistent,
    Contradiction(String),
    Undecided,
    Ambiguous(String),
}

/// The mathematical shape of a `Verdict`: each payload as its view.
pub enum VerdictView {
    Consistent,
    Contradiction(Seq<char>),
    Undecided,
    Ambiguous(Seq<char>),
}

impl View for Verdict {
    type V = VerdictView;

    open spec fn view(&self) -> VerdictView {
        match self {
            Verdict::Consistent => VerdictView::Consistent,
            Verdict::Contradiction(r) => VerdictView::Contradiction(r@),
            Verdict::Undecided => VerdictView::Undecided,
            Verdict::Ambiguous(t) => VerdictView::Ambiguous(t@),
        }
    }
}

/// The lowered content holds one of the fixed ambiguous terms.
pub open spec fn ambiguity_hit(chunk_l: Seq<char>) -> bool {
    ||| contains_seq(chunk_l, "ejecutar"@)
    ||| contains_seq(chunk_l, "eliminar"@)
    ||| contains_seq(chunk_l, "matar"@)
    ||| contains_seq(chunk_l, "kill"@)
}

/// The first lexicon term occurring in the lowered content, in lexicon
/// order (first match wins); meaningful when `ambiguity_hit` holds.
pub open spec fn first_trigger(chunk_l: Seq<char>) -> Seq<char> {
    if contains_seq(chunk_l, "ejecutar"@) {
        "ejecutar"@
    } else if contains_seq(chunk_l, "eliminar"@) {
        "eliminar"@
    } else if contains_seq(chunk_l, "matar"@) {
        "matar"@
    } else {
        "kill"@
    }
}

/// The probe string whose presence in the lowered content contradicts the
/// lowered axiom: the axiom with the negation particle stripped when the
/// axiom holds one, otherwise the axiom with the particle prefixed.
pub open spec fn negation_probe(ax_l: Seq<char>) -> Seq<char> {
    if contains_seq(ax_l, "no"@) {
        trim_seq(strip_all(ax_l, "no "@))
    } else {
        "no "@ + ax_l
    }
}

/// The lowered content lexically contradicts the axiom.
pub open spec fn contradicts(ax: Seq<char>, chunk_l: Seq<char>) -> bool {
    contains_seq(chunk_l, negation_probe(lower_of(ax)))
}

/// The position of the first axiom the content contradicts; the pool's
/// length when it contradicts none.
pub open spec fn first_contradiction(axioms: Seq<Seq<char>>, chunk_l: Seq<char>) -> int
    decreases axioms.len(),
{
    if axioms.len() == 0 {
        0
    } else if contradicts(axioms[0], chunk_l) {
        0
    } else {
        1 + first_contradiction(axioms.drop_first(), chunk_l)
    }
}

proof fn lemma_first_contradiction(axioms: Seq<Seq<char>>, chunk_l: Seq<char>, k: int)
    requires
        0 <= k <= axioms.len(),
        forall|j: int| 0 <= j < k ==> !contradicts(axioms[j], chunk_l),
        k < axioms.len() ==> contradicts(axioms[k], chunk_l),
    ensures
        first_contradiction(axioms, chunk_l) == k,
    decreases axioms.len(),
{
    if axioms.len() == 0 {
    } else if contradicts(axioms[0], chunk_l) {
        assert(k == 0);
    } else {
        assert(k >= 1);
        let rest = axioms.drop_first();
        assert forall|j: int| 0 <= j < k - 1 implies !contradicts(rest[j], chunk_l) by {
            assert(rest[j] == axioms[j + 1]);
        }
        assert(k - 1 < rest.len() ==> contradicts(rest[k - 1], chunk_l));
        lemma_first_contradiction(rest, chunk_l, k - 1);
    }
}

/// The reason text carried by a contradiction verdict for the given axiom.
pub open spec fn contradiction_reason(ax: Seq<char>) -> Seq<char> {
    "PIN violation: "@ + ax
}

/// The verdict for lowered content `chunk_l` against the axiom pool:
/// ambiguity first (carrying the matched term), then the first
/// contradicted axiom, else consistent.
pub open spec fn verdict_of(axioms: Seq<Seq<char>>, chunk_l: Seq<char>) -> VerdictView {
    if ambiguity_hit(chunk_l) {
        VerdictView::Ambiguous(first_trigger(chunk_l))
    } else {
        let k = first_contradiction(axioms, chunk_l);
        if k < axioms.len() {
            VerdictView::Contradiction(contradiction_reason(axioms[k]))
        } else {
            VerdictView::Consistent
        }
    }
}

/// The sliding-window validator: an immutable axiom pool, the pending
/// content buffer, and the window length that triggers a validation pass.
pub struct NeuroAssembler {
    pub buffer: Vec<String>,
    pub axioms: Vec<String>,
    pub safety_window: usize,
}

impl NeuroAssembler {
    /// A fresh validator over the given axiom pool, with an empty buffer and
    /// the default safety window of three fragments.
    pub fn new(axioms: Vec<String>) -> (r: Self)
        ensures
            r.buffer@ =~= Seq::<String>::empty(),
            r.axioms == axioms,
            r.safety_window == 3,
    {
        Self { buffer: Vec::new(), axioms, safety_window: 3 }
    }

    /// Validates a chunk of content against the axiom pool. Pure: the
    /// verdict is a function of the chunk and the pool alone.
    pub fn validate_chunk(&self, chunk: &str) -> (v: Verdict)
        ensures
            v@ == verdict_of(self.axioms.deep_view(), lower_of(chunk@)),
    {
        let lower: String = lowercase(chunk);
        let chunk_l: Vec<char> = str_chars(lower.as_str());
        let t_ejecutar: Vec<char> = str_chars("ejecutar");
        let t_eliminar: Vec<char> = str_chars("eliminar");
        let t_matar: Vec<char> = str_chars("matar");
        let t_kill: Vec<char> = str_chars("kill");
        if contains_chars(&chunk_l, &t_ejecutar) {
            return Verdict::Ambiguous(String::from_str("ejecutar"));
        }
        if contains_chars(&chunk_l, &t_eliminar) {
            return Verdict::Ambiguous(String::from_str("eliminar"));
        }
        if contains_chars(&chunk_l, &t_matar) {
            return Verdict::Ambiguous(String::from_str("matar"));
        }
        if contains_chars(&chunk_l, &t_kill) {
            return Verdict::Ambiguous(String::from_str("kill"));
        }
        let no_pat: Vec<char> = str_chars("no");
        let no_sp: Vec<char> = str_chars("no ");
        proof {
            reveal_strlit("no ");
            assert(no_sp@.len() == 3);
        }
        let ghost cl = lower_of(chunk@);
        let ghost pool = self.axioms.deep_view();
        let n: usize = self.axioms.len();
        let mut i: usize = 0;
        while i < n
            invariant
                n == self.axioms@.len(),
                pool == self.axioms.deep_view(),
                pool.len() == n,
                cl == lower_of(chunk@),
                chunk_l@ == cl,
                !ambiguity_hit(cl),
                no_pat@ == "no"@,
                no_sp@ == "no "@,
                no_sp@.len() == 3,
                i <= n,
                forall|j: int| 0 <= j < i ==> !contradicts(pool[j], cl),
            decreases n - i,
        {
            let ax_low: String = lowercase(self.axioms[i].as_str());
            let mut ax_chars: Vec<char> = str_chars(ax_low.as_str());
            proof {
                assert(pool[i as int] == self.axioms@[i as int]@);
                assert(ax_chars@ == lower_of(pool[i as int]));
            }
            let hit: bool;
            if contains_chars(&ax_chars, &no_pat) {
                let stripped: Vec<char> = strip_all_chars(&ax_chars, &no_sp);
                let negated: Vec<char> = trim_chars(&stripped);
                hit = contains_chars(&chunk_l, &negated);
            } else {
                let mut negated: Vec<char> = str_chars("no ");
                negated.append(&mut ax_chars);
                hit = contains_chars(&chunk_l, &negated);
            }
            if hit {
                let mut reason = String::from_str("PIN violation: ");
                reason.append(self.axioms[i].as_str());
                proof {
                    lemma_first_contradiction(pool, cl, i as int);
                    assert(reason@ == contradiction_reason(pool[i as int]));
                }
                return Verdict::Contradiction(reason);
            }
            i = i + 1;
        }
        proof {
            lemma_first_contradiction(pool, cl, n as int);
        }
        Verdict::Consistent
    }
}

} // verus!
