//! Finding the rules that a newly derived quad may fire.

use vstd::prelude::*;
use vstd::string::StringExecFns;

use crate::rdf_store::GroundQuad;
use crate::rule::{SpecTriple, SpecVarOrTerm, Triple, VarOrTerm};
use crate::semantics::{const_text, iri_text, SpecQuad};
use crate::text::{chars_of, string_from_chars};

verus! {

/// Whether a pattern position may stand for the stored term `text`: a variable may stand
/// for any term, a term only for its own IRI.
pub open spec fn pos_matches(v: SpecVarOrTerm, text: Seq<char>) -> bool {
    match v {
        SpecVarOrTerm::Var(_) => true,
        SpecVarOrTerm::Term(t) => const_text(t) == text,
    }
}

/// Whether a pattern may stand for the quad `q` (its graph aside).
pub open spec fn pattern_matches(t: SpecTriple, q: SpecQuad) -> bool {
    pos_matches(t.s, q.subject) && pos_matches(t.p, q.predicate) && pos_matches(t.o, q.object)
}

/// Whether some pattern of `body` may stand for `q`.
pub open spec fn body_matches(body: Seq<SpecTriple>, q: SpecQuad) -> bool {
    exists|i: int| 0 <= i < body.len() && #[trigger] pattern_matches(body[i], q)
}

/// The IRI that a rule term denotes; see [`iri_text`].
pub fn iri_text_of(t: &str) -> (r: String)
    ensures
        r@ == iri_text(t@),
{
    let cs = chars_of(t);
    let n = cs.len();
    assert(cs@.subrange(0, n as int) =~= cs@);
    if n >= 2 && cs[0] == '<' && cs[n - 1] == '>' {
        string_from_chars(&cs, 1, n - 1)
    } else {
        string_from_chars(&cs, 0, n)
    }
}

/// The N-Triples text of the IRI that a rule term denotes; see [`const_text`].
pub fn const_text_of(t: &str) -> (r: String)
    ensures
        r@ == const_text(t@),
{
    let inner = iri_text_of(t);
    let mut r = String::from_str("<");
    r.append(inner.as_str());
    r.append(">");
    proof {
        reveal_strlit("<");
        reveal_strlit(">");
    }
    assert(r@ =~= const_text(t@));
    r
}

fn position_matches(v: &VarOrTerm, text: &str) -> (b: bool)
    ensures
        b == pos_matches(v@, text@),
{
    match v {
        VarOrTerm::Var(_) => true,
        VarOrTerm::Term(t) => {
            let c = const_text_of(t.as_str());
            let other = String::from_str(text);
            c == other
        },
    }
}

/// Whether the pattern `t` may stand for the quad `q`.
pub fn triple_matches(t: &Triple, q: &GroundQuad) -> (b: bool)
    ensures
        b == pattern_matches(t@, q@),
{
    position_matches(&t.s, q.subject()) && position_matches(&t.p, q.predicate())
        && position_matches(&t.o, q.object())
}

/// The body patterns of each rule, in the order the rules were added.
pub struct RuleIndex {
    bodies: Vec<Vec<Triple>>,
}

pub open spec fn bodies_view(v: Seq<Vec<Triple>>) -> Seq<Seq<SpecTriple>> {
    v.map_values(|b: Vec<Triple>| b@.map_values(|t: Triple| t@))
}

impl View for RuleIndex {
    type V = Seq<Seq<SpecTriple>>;

    closed spec fn view(&self) -> Seq<Seq<SpecTriple>> {
        bodies_view(self.bodies@)
    }
}

impl RuleIndex {
    /// An index of no rules.
    pub fn new() -> (r: RuleIndex)
        ensures
            r@ == Seq::<Seq<SpecTriple>>::empty(),
    {
        let r = RuleIndex { bodies: Vec::new() };
        assert(r@ =~= Seq::<Seq<SpecTriple>>::empty());
        r
    }

    /// Adds a rule with the given body patterns.
    pub fn add(&mut self, body: &Vec<Triple>)
        ensures
            final(self)@ == old(self)@.push(body@.map_values(|t: Triple| t@)),
    {
        let mut copy: Vec<Triple> = Vec::new();
        for i in 0..body.len()
            invariant
                copy@.len() == i,
                forall|j: int| 0 <= j < i ==> (#[trigger] copy@[j])@ == body@[j]@,
        {
            copy.push(body[i].duplicate());
        }
        assert(copy@.map_values(|t: Triple| t@) =~= body@.map_values(|t: Triple| t@));
        self.bodies.push(copy);
        assert(self@ =~= old(self)@.push(body@.map_values(|t: Triple| t@)));
    }

    /// The positions, in increasing order, of the rules with a body pattern that may
    /// stand for `q`.
    pub fn find_match(&self, q: &GroundQuad) -> (r: Vec<usize>)
        ensures
            forall|k: int| 0 <= k < r.len() ==> 0 <= #[trigger] r@[k] < self@.len(),
            forall|k: int| 0 <= k < r.len() ==> body_matches(self@[#[trigger] r@[k] as int], q@),
            forall|j: int|
                0 <= j < self@.len() && body_matches(#[trigger] self@[j], q@) ==> r@.contains(
                    j as usize,
                ),
    {
        let mut r: Vec<usize> = Vec::new();
        for j in 0..self.bodies.len()
            invariant
                forall|k: int| 0 <= k < r.len() ==> 0 <= #[trigger] r@[k] < j,
                forall|k: int| 0 <= k < r.len() ==> body_matches(self@[#[trigger] r@[k] as int], q@),
                forall|m: int|
                    0 <= m < j && body_matches(#[trigger] self@[m], q@) ==> r@.contains(m as usize),
        {
            let body = &self.bodies[j];
            let ghost bv = self@[j as int];
            assert(bv == body@.map_values(|t: Triple| t@));
            let mut found = false;
            for i in 0..body.len()
                invariant
                    bv == body@.map_values(|t: Triple| t@),
                    found <==> exists|m: int| 0 <= m < i && #[trigger] pattern_matches(bv[m], q@),
            {
                assert(bv[i as int] == body@[i as int]@);
                if triple_matches(&body[i], q) {
                    found = true;
                    assert(pattern_matches(bv[i as int], q@));
                }
            }
            let ghost prev = r@;
            if found {
                r.push(j);
                assert(r@[r.len() - 1] == j);
            }
            assert forall|m: int|
                0 <= m < j + 1 && body_matches(#[trigger] self@[m], q@) implies r@.contains(
                m as usize,
            ) by {
                if m == j {
                    assert(pattern_matches(bv[choose|i: int| 0 <= i < bv.len() && #[trigger] pattern_matches(bv[i], q@)], q@));
                    assert(r@[r.len() - 1] == j);
                } else {
                    assert(prev.contains(m as usize));
                    let w = choose|w: int| 0 <= w < prev.len() && prev[w] == m as usize;
                    assert(r@[w] == m as usize);
                }
            }
        }
        r
    }
}

} // verus!
