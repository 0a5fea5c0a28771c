//! Rules and their triple patterns, as the parser builds them and the reasoner applies them.

use vstd::prelude::*;

use crate::text::string_from_chars;
use vstd::string::StringExecFns;

verus! {

/// A position of a triple pattern: a variable, or a term given by its text
/// (an IRI reference in angle brackets, an expanded IRI, or a prefixed name).
#[derive(Debug)]
pub enum VarOrTerm {
    /// A variable, by its name without the leading `?`.
    Var(String),
    /// A term, by its text.
    Term(String),
}

/// The mathematical value of a [`VarOrTerm`].
pub enum SpecVarOrTerm {
    Var(Seq<char>),
    Term(Seq<char>),
}

impl View for VarOrTerm {
    type V = SpecVarOrTerm;

    open spec fn view(&self) -> SpecVarOrTerm {
        match self {
            VarOrTerm::Var(n) => SpecVarOrTerm::Var(n@),
            VarOrTerm::Term(t) => SpecVarOrTerm::Term(t@),
        }
    }
}

/// A triple pattern.
#[derive(Debug)]
pub struct Triple {
    pub s: VarOrTerm,
    pub p: VarOrTerm,
    pub o: VarOrTerm,
}

pub struct SpecTriple {
    pub s: SpecVarOrTerm,
    pub p: SpecVarOrTerm,
    pub o: SpecVarOrTerm,
}

impl View for Triple {
    type V = SpecTriple;

    open spec fn view(&self) -> SpecTriple {
        SpecTriple { s: self.s@, p: self.p@, o: self.o@ }
    }
}

/// A rule: when every pattern of `body` holds, so does `head`.
#[derive(Debug)]
pub struct Rule {
    pub body: Vec<Triple>,
    pub head: Triple,
}

pub struct SpecRule {
    pub body: Seq<SpecTriple>,
    pub head: SpecTriple,
}

impl View for Rule {
    type V = SpecRule;

    open spec fn view(&self) -> SpecRule {
        SpecRule { body: self.body@.map_values(|t: Triple| t@), head: self.head@ }
    }
}

pub open spec fn rules_view(v: Seq<Rule>) -> Seq<SpecRule> {
    v.map_values(|r: Rule| r@)
}

/// A text that starts with `?` names a variable; any other text is a term.
pub open spec fn spec_var_or_term(text: Seq<char>) -> SpecVarOrTerm {
    if text.len() > 0 && text[0] == '?' {
        SpecVarOrTerm::Var(text.skip(1))
    } else {
        SpecVarOrTerm::Term(text)
    }
}

impl VarOrTerm {
    /// Classifies a pattern position by its text: `?name` is a variable.
    pub fn from_text(text: String) -> (r: VarOrTerm)
        ensures
            r@ == spec_var_or_term(text@),
    {
        let cs = crate::text::chars_of(text.as_str());
        if cs.len() > 0 && cs[0] == '?' {
            let name = string_from_chars(&cs, 1, cs.len());
            proof {
                assert(cs@.subrange(1, cs@.len() as int) =~= text@.skip(1));
            }
            VarOrTerm::Var(name)
        } else {
            VarOrTerm::Term(text)
        }
    }

    /// A copy of this position.
    pub fn duplicate(&self) -> (r: VarOrTerm)
        ensures
            r@ == self@,
    {
        match self {
            VarOrTerm::Var(n) => VarOrTerm::Var(n.clone()),
            VarOrTerm::Term(t) => VarOrTerm::Term(t.clone()),
        }
    }
}

impl Triple {
    /// The triple pattern whose positions are given by their texts.
    pub fn from(s: String, p: String, o: String) -> (t: Triple)
        ensures
            t@ == (SpecTriple {
                s: spec_var_or_term(s@),
                p: spec_var_or_term(p@),
                o: spec_var_or_term(o@),
            }),
    {
        Triple { s: VarOrTerm::from_text(s), p: VarOrTerm::from_text(p), o: VarOrTerm::from_text(o) }
    }

    /// A copy of this pattern.
    pub fn duplicate(&self) -> (r: Triple)
        ensures
            r@ == self@,
    {
        Triple { s: self.s.duplicate(), p: self.p.duplicate(), o: self.o.duplicate() }
    }
}

impl Rule {
    /// A copy of this rule.
    pub fn duplicate(&self) -> (r: Rule)
        ensures
            r@ == self@,
    {
        let mut body: Vec<Triple> = Vec::new();
        for i in 0..self.body.len()
            invariant
                body@.len() == i,
                forall|j: int| 0 <= j < i ==> (#[trigger] body@[j])@ == self.body@[j]@,
        {
            body.push(self.body[i].duplicate());
        }
        assert(body@.map_values(|t: Triple| t@) =~= self.body@.map_values(|t: Triple| t@));
        Rule { body, head: self.head.duplicate() }
    }
}

/// The text of a pattern position when a rule is written out: a variable by its name,
/// a term by its text.
pub open spec fn position_text(v: SpecVarOrTerm) -> Seq<char> {
    match v {
        SpecVarOrTerm::Var(n) => n,
        SpecVarOrTerm::Term(t) => t,
    }
}

/// A pattern written out as `s p o.` followed by a line break.
pub open spec fn triple_text(t: SpecTriple) -> Seq<char> {
    position_text(t.s) + " "@ + position_text(t.p) + " "@ + position_text(t.o) + ".\n"@
}

/// The patterns written out one after the other.
pub open spec fn triples_text(ts: Seq<SpecTriple>) -> Seq<char>
    decreases ts.len(),
{
    if ts.len() == 0 {
        seq![]
    } else {
        triples_text(ts.drop_last()) + triple_text(ts.last())
    }
}

/// A rule written out as `{body}=>{head}.` followed by a line break.
pub open spec fn rule_text(r: SpecRule) -> Seq<char> {
    "{"@ + triples_text(r.body) + "}=>{"@ + triple_text(r.head) + "}.\n"@
}

fn append_position(out: &mut String, v: &VarOrTerm)
    ensures
        final(out)@ == old(out)@ + position_text(v@),
{
    match v {
        VarOrTerm::Var(n) => out.append(n.as_str()),
        VarOrTerm::Term(t) => out.append(t.as_str()),
    }
}

fn append_triple(out: &mut String, t: &Triple)
    ensures
        final(out)@ == old(out)@ + triple_text(t@),
{
    let ghost start = out@;
    append_position(out, &t.s);
    out.append(" ");
    append_position(out, &t.p);
    out.append(" ");
    append_position(out, &t.o);
    out.append(".\n");
    assert(out@ =~= start + triple_text(t@));
}

/// The rule written out in N3, variables by their bare names; see [`rule_text`].
pub fn decode_rule(rule: &Rule) -> (r: String)
    ensures
        r@ == rule_text(rule@),
{
    let mut out = String::from_str("{");
    let ghost start = out@;
    let ghost body = rule@.body;
    for i in 0..rule.body.len()
        invariant
            body == rule@.body,
            out@ == start + triples_text(body.take(i as int)),
    {
        append_triple(&mut out, &rule.body[i]);
        assert(body.take(i + 1).drop_last() =~= body.take(i as int));
        assert(start + triples_text(body.take(i as int)) + triple_text(body[i as int]) =~= start
            + triples_text(body.take(i + 1)));
    }
    assert(body.take(rule.body.len() as int) =~= body);
    out.append("}=>{");
    append_triple(&mut out, &rule.head);
    out.append("}.\n");
    assert(out@ =~= rule_text(rule@));
    out
}

} // verus!
