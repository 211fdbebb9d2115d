//! Extraction of the session axiom pool from the structured pin nodes of
//! an inbound request. Each node is read through the two fields the logic
//! inspects (`content`, preferred, and `statement`), modelled as plain
//! values so the selection rule is verified.

use vstd::prelude::*;

verus! {

/// One structured field of a pin node as the extraction reads it: the key
/// may be missing, present with a non-string value, or a string.
pub enum PinField {
    Absent,
    NotText,
    Text(String),
}

#[verifier::ext_equal]
pub enum PinFieldView {
    Absent,
    NotText,
    Text(Seq<char>),
}

impl View for PinField {
    type V = PinFieldView;

    open spec fn view(&self) -> PinFieldView {
        match self {
            PinField::Absent => PinFieldView::Absent,
            PinField::NotText => PinFieldView::NotText,
            PinField::Text(s) => PinFieldView::Text(s@),
        }
    }
}

/// One pin node, reduced to the two fields the extraction inspects.
pub struct PinNode {
    pub content: PinField,
    pub statement: PinField,
}

#[verifier::ext_equal]
pub struct PinNodeView {
    pub content: PinFieldView,
    pub statement: PinFieldView,
}

impl View for PinNode {
    type V = PinNodeView;

    open spec fn view(&self) -> PinNodeView {
        PinNodeView { content: self.content@, statement: self.statement@ }
    }
}

impl DeepView for PinNode {
    type V = PinNodeView;

    open spec fn deep_view(&self) -> PinNodeView {
        self@
    }
}

/// The text one node contributes: the `content` field whenever its key is
/// present (whatever its value), otherwise the `statement` field; anything
/// but a string reads as empty text.
pub open spec fn pin_text(n: PinNodeView) -> Seq<char> {
    let chosen = if !(n.content is Absent) {
        n.content
    } else {
        n.statement
    };
    match chosen {
        PinFieldView::Text(s) => s,
        _ => Seq::empty(),
    }
}

/// The axiom pool the nodes yield: each node's text, with empty texts
/// dropped and the node order kept.
pub open spec fn axioms_of_pins(nodes: Seq<PinNodeView>) -> Seq<Seq<char>>
    decreases nodes.len(),
{
    if nodes.len() == 0 {
        Seq::empty()
    } else {
        axioms_of_pins(nodes.drop_last()) + (if pin_text(nodes.last()).len() > 0 {
            seq![pin_text(nodes.last())]
        } else {
            Seq::empty()
        })
    }
}

/// Collects the session axiom pool from the request's pin nodes.
pub fn collect_axioms(nodes: &Vec<PinNode>) -> (r: Vec<String>)
    ensures
        r.deep_view() == axioms_of_pins(nodes.deep_view()),
{
    let mut r: Vec<String> = Vec::new();
    let n: usize = nodes.len();
    let mut i: usize = 0;
    proof {
        assert(nodes.deep_view().take(0) =~= Seq::<PinNodeView>::empty());
        assert(r.deep_view() =~= axioms_of_pins(nodes.deep_view().take(0)));
    }
    while i < n
        invariant
            n == nodes@.len(),
            i <= n,
            nodes.deep_view().len() == n,
            r.deep_view() == axioms_of_pins(nodes.deep_view().take(i as int)),
        decreases n - i,
    {
        let ghost prev = r.deep_view();
        let node = &nodes[i];
        proof {
            assert(node@ == nodes.deep_view()[i as int]);
        }
        let chosen: &PinField = match &node.content {
            PinField::Absent => &node.statement,
            _ => &node.content,
        };
        proof {
            assert(chosen@ == (if !(node@.content is Absent) {
                node@.content
            } else {
                node@.statement
            }));
        }
        match chosen {
            PinField::Text(s) => {
                if !s.as_str().is_empty() {
                    r.push(s.clone());
                    proof {
                        assert(r.deep_view() =~= prev.push(s@));
                    }
                }
            },
            _ => {},
        }
        i = i + 1;
        proof {
            let dv = nodes.deep_view();
            assert(dv.take(i as int).drop_last() =~= dv.take(i - 1));
            assert(dv.take(i as int).last() == dv[i - 1]);
            if pin_text(dv[i - 1]).len() > 0 {
                assert(r.deep_view() =~= prev + seq![pin_text(dv[i - 1])]);
            } else {
                assert(r.deep_view() =~= prev + Seq::<Seq<char>>::empty());
            }
            assert(r.deep_view() =~= axioms_of_pins(dv.take(i as int)));
        }
    }
    proof {
        assert(nodes.deep_view().take(n as int) =~= nodes.deep_view());
    }
    r
}

} // verus!
