//! A store of facts (the ABox) and rules, and the forward-chaining materialization of
//! everything the rules conclude from the facts.

use vstd::prelude::*;
use vstd::string::StringExecFns;

use oxigraph::sparql::{ParseError, Query};
use oxigraph::MemoryStore;

use crate::binding::{bindings_of, Binding};
use crate::n3_parser::{lemma_parse_len, parse, rules_before, spec_document, spec_parse};
use crate::rdf_store::{
    iri_is_valid, new_memory_store, parse_query, parse_turtle, sparql_accepts, store_clear,
    store_construct, store_contains, store_contents, store_insert, store_len, store_load_trig,
    store_quads, store_select, turtle_triples, valid_iri, GroundQuad, trig_accepts,
    trig_ground_quads, trig_has_blank_node, has_blank_node,
};
use crate::rule::{rules_view, Rule, SpecRule, SpecTriple, SpecVarOrTerm, Triple, VarOrTerm};
use crate::rule_index::{const_text_of, iri_text_of, RuleIndex};
use crate::semantics::{
    closed_under, consequences, const_text, construct_text,
    default_graph_text, inst_pattern, iri_text, is_solution, pattern_has_var, patterns_vars,
    resource_text, valid_quad, lemma_consequences_in_universe,
    lemma_consequences_monotone, lemma_consequences_unmatched, lemma_no_consequences_from_nothing,
    lemma_quad_terms_finite, lemma_rules_consts, lemma_rules_consts_finite, lemma_universe_finite,
    pattern_query_text, patterns_query_text, quad_graphs, quad_terms, query_pos_text,
    rules_consts, select_text, sparql_iri_char, sparql_var_name, varname_char, varname_start_char, sparql_safe_pattern, sparql_safe_pos,
    sparql_safe_rule, universe, SpecQuad,
};
use crate::rdf_store::quads_view;
use crate::rule_index::body_matches;
use crate::rdf_store::are_solutions_of;
use crate::text::{chars_of, string_from_chars};

verus! {

// ---------------------------------------------------------------- query texts

fn append_query_pos(out: &mut String, v: &VarOrTerm)
    ensures
        final(out)@ == old(out)@ + query_pos_text(v@),
{
    match v {
        VarOrTerm::Var(n) => {
            out.append("?");
            out.append(n.as_str());
            proof {
                reveal_strlit("?");
            }
        },
        VarOrTerm::Term(t) => {
            let c = const_text_of(t.as_str());
            out.append(c.as_str());
        },
    }
    assert(final(out)@ =~= old(out)@ + query_pos_text(v@)) by {
        reveal_strlit("?");
    }
}

fn append_query_pattern(out: &mut String, t: &Triple)
    ensures
        final(out)@ == old(out)@ + pattern_query_text(t@),
{
    let ghost start = out@;
    append_query_pos(out, &t.s);
    out.append(" ");
    append_query_pos(out, &t.p);
    out.append(" ");
    append_query_pos(out, &t.o);
    out.append(" . ");
    proof {
        reveal_strlit(" ");
        reveal_strlit(" . ");
    }
    assert(out@ =~= start + pattern_query_text(t@));
}

/// The SPARQL CONSTRUCT query for the conclusions of `rule`; see [`construct_text`].
pub fn construct_query_text(rule: &Rule) -> (r: String)
    ensures
        r@ == construct_text(rule@),
{
    let mut out = String::from_str("CONSTRUCT { ");
    append_query_pattern(&mut out, &rule.head);
    out.append(" } WHERE { ");
    let ghost start = out@;
    let ghost body = rule@.body;
    for i in 0..rule.body.len()
        invariant
            body == rule@.body,
            out@ == start + patterns_query_text(body.take(i as int)),
    {
        append_query_pattern(&mut out, &rule.body[i]);
        assert(body.take(i + 1).drop_last() =~= body.take(i as int));
        assert(start + patterns_query_text(body.take(i as int)) + pattern_query_text(body[i as int])
            =~= start + patterns_query_text(body.take(i + 1)));
    }
    assert(body.take(rule.body.len() as int) =~= body);
    out.append(" }");
    assert(out@ =~= construct_text(rule@));
    out
}

/// The SPARQL SELECT query for the solutions of the pattern `atom`; see [`select_text`].
pub fn select_query_text(atom: &Triple) -> (r: String)
    ensures
        r@ == select_text(atom@),
{
    let mut out = String::from_str("SELECT * WHERE { ");
    append_query_pattern(&mut out, atom);
    out.append(" }");
    assert(out@ =~= select_text(atom@));
    out
}

/// The SPARQL query for the conclusions of `rule`, parsed; an error where the parser
/// refuses the text.
pub fn convert_to_query(rule: &Rule) -> (q: Result<Query, ParseError>)
    ensures
        q is Ok <==> sparql_accepts(construct_text(rule@)),
{
    let text = construct_query_text(rule);
    parse_query(text.as_str())
}

// ---------------------------------------------------------------- matching rule heads

/// Whether two pattern positions agree for backward chaining: two variables always do,
/// two terms when they denote the same IRI.
pub open spec fn element_matches(left: SpecVarOrTerm, right: SpecVarOrTerm) -> bool {
    match (left, right) {
        (SpecVarOrTerm::Var(_), SpecVarOrTerm::Var(_)) => true,
        (SpecVarOrTerm::Term(a), SpecVarOrTerm::Term(b)) => iri_text(a) == iri_text(b),
        _ => false,
    }
}

/// Whether a rule head agrees with a goal pattern in all three positions.
pub open spec fn head_matches(head: SpecTriple, goal: SpecTriple) -> bool {
    element_matches(head.s, goal.s) && element_matches(head.p, goal.p) && element_matches(
        head.o,
        goal.o,
    )
}

/// The rules, in order, whose head agrees with `goal`.
pub open spec fn matching_rules(rules: Seq<SpecRule>, goal: SpecTriple) -> Seq<SpecRule>
    decreases rules.len(),
{
    if rules.len() == 0 {
        seq![]
    } else {
        let rest = matching_rules(rules.drop_last(), goal);
        if head_matches(rules.last().head, goal) {
            rest.push(rules.last())
        } else {
            rest
        }
    }
}

fn eval_triple_element(left: &VarOrTerm, right: &VarOrTerm) -> (b: bool)
    ensures
        b == element_matches(left@, right@),
{
    match (left, right) {
        (VarOrTerm::Var(_), VarOrTerm::Var(_)) => true,
        (VarOrTerm::Term(a), VarOrTerm::Term(b)) => {
            let x = iri_text_of(a.as_str());
            let y = iri_text_of(b.as_str());
            x == y
        },
        _ => false,
    }
}

// ---------------------------------------------------------------- the terminology

/// `rdf:type`, as the IRI that rules built from a terminology use.
pub open spec fn rdf_type_iri_plain() -> Seq<char> {
    "http://www.w3.org/1999/02/22-rdf-syntax-ns#type"@
}

/// The N-Triples text of `rdfs:subClassOf`.
pub open spec fn subclass_of_text() -> Seq<char> {
    "<http://www.w3.org/2000/01/rdf-schema#subClassOf>"@
}

/// A term text without its first and last character (the brackets of `<iri>`).
pub open spec fn strip_ends(t: Seq<char>) -> Seq<char> {
    if t.len() >= 2 {
        t.subrange(1, t.len() - 1)
    } else {
        seq![]
    }
}

/// The rule `{?s rdf:type sub} => {?s rdf:type sup}`.
pub open spec fn subclass_rule(sub: Seq<char>, sup: Seq<char>) -> SpecRule {
    SpecRule {
        body: seq![
            SpecTriple {
                s: SpecVarOrTerm::Var("s"@),
                p: SpecVarOrTerm::Term(rdf_type_iri_plain()),
                o: SpecVarOrTerm::Term(sub),
            },
        ],
        head: SpecTriple {
            s: SpecVarOrTerm::Var("s"@),
            p: SpecVarOrTerm::Term(rdf_type_iri_plain()),
            o: SpecVarOrTerm::Term(sup),
        },
    }
}

/// The rule that one triple of a terminology gives, if any: a `rdfs:subClassOf` triple
/// between two absolute IRIs gives the rule that passes membership of the subclass on to
/// the superclass.
pub open spec fn tbox_rule(t: (Seq<char>, Seq<char>, Seq<char>)) -> Seq<SpecRule> {
    if t.1 == subclass_of_text() && valid_iri(strip_ends(t.0)) && valid_iri(strip_ends(t.2)) {
        seq![subclass_rule(strip_ends(t.0), strip_ends(t.2))]
    } else {
        seq![]
    }
}

/// The rules that the triples of a terminology give, in order.
pub open spec fn tbox_rules(ts: Seq<(Seq<char>, Seq<char>, Seq<char>)>) -> Seq<SpecRule>
    decreases ts.len(),
{
    if ts.len() == 0 {
        seq![]
    } else {
        tbox_rules(ts.drop_last()) + tbox_rule(ts.last())
    }
}

fn strip_ends_of(t: &String) -> (r: String)
    ensures
        r@ == strip_ends(t@),
{
    let cs = chars_of(t.as_str());
    if cs.len() >= 2 {
        string_from_chars(&cs, 1, cs.len() - 1)
    } else {
        String::new()
    }
}

/// The rules that the triples of a terminology give; see [`tbox_rules`].
pub fn rules_from_tbox(triples: &Vec<(String, String, String)>) -> (rules: Vec<Rule>)
    ensures
        rules_view(rules@) == tbox_rules(
            triples@.map_values(|t: (String, String, String)| (t.0@, t.1@, t.2@)),
        ),
{
    let ghost ts = triples@.map_values(|t: (String, String, String)| (t.0@, t.1@, t.2@));
    let mut rules: Vec<Rule> = Vec::new();
    let rdf_subclass = String::from_str("<http://www.w3.org/2000/01/rdf-schema#subClassOf>");
    for i in 0..triples.len()
        invariant
            ts == triples@.map_values(|t: (String, String, String)| (t.0@, t.1@, t.2@)),
            rdf_subclass@ == subclass_of_text(),
            rules_view(rules@) == tbox_rules(ts.take(i as int)),
    {
        let t = &triples[i];
        assert(ts.take(i + 1).drop_last() =~= ts.take(i as int));
        assert(ts[i as int] == (t.0@, t.1@, t.2@));
        let ghost before = rules_view(rules@);
        if t.1 == rdf_subclass {
            let subject_str = strip_ends_of(&t.0);
            let object_str = strip_ends_of(&t.2);
            if iri_is_valid(subject_str.as_str()) && iri_is_valid(object_str.as_str()) {
                let body = Triple {
                    s: VarOrTerm::Var(String::from_str("s")),
                    p: VarOrTerm::Term(
                        String::from_str("http://www.w3.org/1999/02/22-rdf-syntax-ns#type"),
                    ),
                    o: VarOrTerm::Term(subject_str),
                };
                let head = Triple {
                    s: VarOrTerm::Var(String::from_str("s")),
                    p: VarOrTerm::Term(
                        String::from_str("http://www.w3.org/1999/02/22-rdf-syntax-ns#type"),
                    ),
                    o: VarOrTerm::Term(object_str),
                };
                let mut body_rules = Vec::new();
                body_rules.push(body);
                let rule = Rule { body: body_rules, head };
                assert(rule@.body =~= subclass_rule(strip_ends(t.0@), strip_ends(t.2@)).body);
                rules.push(rule);
                assert(rules_view(rules@) =~= before + tbox_rule(ts[i as int]));
            } else {
                assert(rules_view(rules@) =~= before + tbox_rule(ts[i as int]));
            }
        } else {
            assert(rules_view(rules@) =~= before + tbox_rule(ts[i as int]));
        }
    }
    assert(ts.take(triples.len() as int) =~= ts);
    rules
}

// ---------------------------------------------------------------- writing rules in SPARQL

fn is_sparql_iri_char(c: char) -> (b: bool)
    ensures
        b == sparql_iri_char(c),
{
    ' ' < c && c != '<' && c != '>' && c != '"' && c != '{' && c != '}' && c != '|' && c != '^'
        && c != '`' && c != '\\'
}

fn is_varname_start_char(c: char) -> (b: bool)
    ensures
        b == varname_start_char(c),
{
    c == '_' || ('0' <= c && c <= '9') || ('A' <= c && c <= 'Z') || ('a' <= c && c <= 'z') || (
    '\u{00C0}' <= c && c <= '\u{00D6}') || ('\u{00D8}' <= c && c <= '\u{00F6}') || ('\u{00F8}'
        <= c && c <= '\u{02FF}') || ('\u{0370}' <= c && c <= '\u{037D}') || ('\u{037F}' <= c && c
        <= '\u{1FFF}') || ('\u{200C}' <= c && c <= '\u{200D}') || ('\u{2070}' <= c && c
        <= '\u{218F}') || ('\u{2C00}' <= c && c <= '\u{2FEF}') || ('\u{3001}' <= c && c
        <= '\u{D7FF}') || ('\u{F900}' <= c && c <= '\u{FDCF}') || ('\u{FDF0}' <= c && c
        <= '\u{FFFD}')
}

fn is_varname_char(c: char) -> (b: bool)
    ensures
        b == varname_char(c),
{
    is_varname_start_char(c) || c == '\u{00B7}' || ('\u{0300}' <= c && c <= '\u{036F}') || (
    '\u{203F}' <= c && c <= '\u{2040}')
}

fn is_sparql_safe_pos(v: &VarOrTerm) -> (b: bool)
    ensures
        b == sparql_safe_pos(v@),
{
    match v {
        VarOrTerm::Var(n) => {
            let cs = chars_of(n.as_str());
            if cs.len() == 0 || !is_varname_start_char(cs[0]) {
                return false;
            }
            for k in 0..cs.len()
                invariant
                    cs@ == n@,
                    v@ == SpecVarOrTerm::Var(n@),
                    forall|j: int| 0 <= j < k ==> varname_char(#[trigger] cs@[j]),
            {
                if !is_varname_char(cs[k]) {
                    assert(!varname_char(n@[k as int]));
                    return false;
                }
            }
            true
        },
        VarOrTerm::Term(t) => {
            let iri = iri_text_of(t.as_str());
            let cs = chars_of(iri.as_str());
            for k in 0..cs.len()
                invariant
                    cs@ == iri_text(t@),
                    v@ == SpecVarOrTerm::Term(t@),
                    forall|j: int| 0 <= j < k ==> sparql_iri_char(#[trigger] cs@[j]),
            {
                if !is_sparql_iri_char(cs[k]) {
                    assert(!sparql_iri_char(iri_text(t@)[k as int]));
                    assert(0 <= k < iri_text(t@).len());
                    return false;
                }
            }
            true
        },
    }
}

fn is_sparql_safe_pattern(t: &Triple) -> (b: bool)
    ensures
        b == sparql_safe_pattern(t@),
{
    is_sparql_safe_pos(&t.s) && is_sparql_safe_pos(&t.p) && is_sparql_safe_pos(&t.o)
}

/// Whether every position of `rule` can be written in SPARQL as itself.
pub fn is_sparql_safe_rule(rule: &Rule) -> (b: bool)
    ensures
        b == sparql_safe_rule(rule@),
{
    for i in 0..rule.body.len()
        invariant
            forall|j: int| 0 <= j < i ==> #[trigger] sparql_safe_pattern(rule@.body[j]),
    {
        if !is_sparql_safe_pattern(&rule.body[i]) {
            assert(rule@.body[i as int] == rule.body@[i as int]@);
            assert(!sparql_safe_pattern(rule@.body[i as int]));
            return false;
        }
        assert(rule@.body[i as int] == rule.body@[i as int]@);
    }
    is_sparql_safe_pattern(&rule.head)
}

/// A rule that materialization fires: it has a body, SPARQL can write it as itself, and
/// the SPARQL parser accepts its query.
pub open spec fn fireable(r: SpecRule) -> bool {
    sparql_safe_rule(r) && r.body.len() > 0 && sparql_accepts(construct_text(r))
}

/// `s` holds `init` and every conclusion from `s` of every fireable rule of `rules`.
pub open spec fn closed_superset(rules: Seq<SpecRule>, init: Set<SpecQuad>, s: Set<SpecQuad>) -> bool {
    &&& init.subset_of(s)
    &&& forall|i: int| 0 <= i < rules.len() && fireable(#[trigger] rules[i]) ==> closed_under(rules[i], s)
}

/// `m` is the materialization of `init` under `rules`: the least set that holds `init` and
/// every conclusion from itself of every fireable rule.
pub open spec fn materialized(rules: Seq<SpecRule>, init: Set<SpecQuad>, m: Set<SpecQuad>) -> bool {
    &&& closed_superset(rules, init, m)
    &&& forall|s: Set<SpecQuad>| closed_superset(rules, init, s) ==> m.subset_of(s)
}

// ---------------------------------------------------------------- the store

/// Facts (the ABox), the facts derived by the last materialization, and rules.
pub struct ReasoningStore {
    store: MemoryStore,
    reasoning_store: MemoryStore,
    rules: Vec<Rule>,
    rules_index: RuleIndex,
}

pub open spec fn rule_bodies(rules: Seq<SpecRule>) -> Seq<Seq<SpecTriple>> {
    rules.map_values(|r: SpecRule| r.body)
}

impl ReasoningStore {
    #[verifier::type_invariant]
    closed spec fn well_formed(self) -> bool {
        &&& self.rules_index@ == rule_bodies(rules_view(self.rules@))
        &&& store_contents(self.store).finite()
        &&& store_contents(self.reasoning_store).finite()
    }

    /// The quads of the ABox.
    pub closed spec fn abox(&self) -> Set<SpecQuad> {
        store_contents(self.store)
    }

    /// The quads that the last materialization went through.
    pub closed spec fn derived(&self) -> Set<SpecQuad> {
        store_contents(self.reasoning_store)
    }

    /// The rules, in the order they were added.
    pub closed spec fn rules(&self) -> Seq<SpecRule> {
        rules_view(self.rules@)
    }

    /// A store with no facts and no rules.
    pub fn new() -> (r: ReasoningStore)
        ensures
            r.abox() == Set::<SpecQuad>::empty(),
            r.derived() == Set::<SpecQuad>::empty(),
            r.rules() == Seq::<SpecRule>::empty(),
    {
        let store = new_memory_store();
        let reasoning_store = new_memory_store();
        let rules: Vec<Rule> = Vec::new();
        let rules_index = RuleIndex::new();
        assert(rules_view(rules@) =~= Seq::<SpecRule>::empty());
        assert(rule_bodies(rules_view(rules@)) =~= Seq::<Seq<SpecTriple>>::empty());
        ReasoningStore { store, reasoning_store, rules, rules_index }
    }

    /// Moves the whole store out, leaving an empty one in its place.
    fn take_all(&mut self) -> (t: ReasoningStore)
        ensures
            t == *old(self),
    {
        let mut taken = ReasoningStore::new();
        std::mem::swap(self, &mut taken);
        taken
    }

    /// Loads TriG data into the ABox. Quads are only added, also where the data turns out
    /// not to parse (then the quads read before the error stay, and the error is returned).
    /// On success the ABox holds every quad of the data without a blank node, and every
    /// quad it gained without a blank node is one of those; data without blank nodes adds
    /// just its quads.
    pub fn load_abox(&mut self, data: &[u8]) -> (r: Result<(), std::io::Error>)
        ensures
            r is Ok <==> trig_accepts(data@),
            old(self).abox().subset_of(final(self).abox()),
            r is Ok ==> trig_ground_quads(data@).subset_of(final(self).abox()),
            r is Ok ==> forall|q: SpecQuad|
                #![trigger final(self).abox().contains(q)]
                final(self).abox().contains(q) && !old(self).abox().contains(q)
                    && !has_blank_node(q) ==> trig_ground_quads(data@).contains(q),
            r is Ok && !trig_has_blank_node(data@) ==> final(self).abox() == old(self).abox()
                + trig_ground_quads(data@),
            final(self).derived() == old(self).derived(),
            final(self).rules() == old(self).rules(),
    {
        let taken = self.take_all();
        proof {
            use_type_invariant(&taken);
        }
        let ReasoningStore { mut store, reasoning_store, rules, rules_index } = taken;
        let r = store_load_trig(&mut store, data);
        *self = ReasoningStore { store, reasoning_store, rules, rules_index };
        r
    }

    /// Adds a rule.
    pub fn add_rule(&mut self, rule: Rule)
        ensures
            final(self).rules() == old(self).rules().push(rule@),
            final(self).abox() == old(self).abox(),
            final(self).derived() == old(self).derived(),
    {
        let taken = self.take_all();
        proof {
            use_type_invariant(&taken);
        }
        let ReasoningStore { store, reasoning_store, mut rules, mut rules_index } = taken;
        let ghost old_rules = rules@;
        rules_index.add(&rule.body);
        rules.push(rule);
        assert(rules_view(rules@) =~= rules_view(old_rules).push(rule@));
        assert(rule_bodies(rules_view(rules@)) =~= rule_bodies(rules_view(old_rules)).push(
            rule@.body,
        ));
        *self = ReasoningStore { store, reasoning_store, rules, rules_index };
    }

    fn add_rules(&mut self, rules: Vec<Rule>)
        ensures
            final(self).rules() == old(self).rules() + rules_view(rules@),
            final(self).abox() == old(self).abox(),
            final(self).derived() == old(self).derived(),
    {
        let mut rules = rules;
        let ghost all = rules_view(rules@);
        let ghost start = self.rules();
        let n = rules.len();
        let mut k: usize = 0;
        assert(all.skip(0) =~= all);
        assert(start + all.take(0) =~= start);
        while k < n
            invariant
                n == all.len(),
                rules_view(rules@) == all.skip(k as int),
                k <= n,
                self.rules() == start + all.take(k as int),
                self.abox() == old(self).abox(),
                self.derived() == old(self).derived(),
            decreases n - k,
        {
            assert(rules_view(rules@).len() == rules@.len());
            assert(rules@.len() == n - k);
            assert(rules_view(rules@)[0] == rules@[0]@);
            let ghost before = rules@;
            let rule = rules.remove(0);
            assert(rule@ == all[k as int]);
            assert forall|j: int| 0 <= j < rules@.len() implies #[trigger] rules@[j]@ == all[k + 1 + j] by {
                assert(rules@[j] == before[j + 1]);
                assert(rules_view(before)[j + 1] == before[j + 1]@);
            }
            self.add_rule(rule);
            k = k + 1;
            assert(rules_view(rules@) =~= all.skip(k as int));
            assert(start + all.take(k as int) =~= start + all.take(k - 1) + seq![all[k - 1]]);
        }
        assert(all.take(n as int) =~= all);
    }

    /// Adds the subclass rules of a Turtle terminology (see [`tbox_rules`]).
    pub fn load_tbox(&mut self, data: &[u8])
        requires
            turtle_triples(data@) is Some,
        ensures
            final(self).rules() == old(self).rules() + tbox_rules(turtle_triples(data@).unwrap()),
            final(self).abox() == old(self).abox(),
            final(self).derived() == old(self).derived(),
    {
        match parse_turtle(data) {
            Some(triples) => {
                let rules = rules_from_tbox(&triples);
                self.add_rules(rules);
            },
            None => {},
        }
    }

    /// Adds the subclass rules of a Turtle terminology where the document parses, and
    /// says whether it did; adds nothing where it does not.
    pub fn try_load_tbox(&mut self, data: &[u8]) -> (ok: bool)
        ensures
            ok == turtle_triples(data@) is Some,
            ok ==> final(self).rules() == old(self).rules() + tbox_rules(
                turtle_triples(data@).unwrap(),
            ),
            !ok ==> final(self).rules() == old(self).rules(),
            final(self).abox() == old(self).abox(),
            final(self).derived() == old(self).derived(),
    {
        match parse_turtle(data) {
            Some(_) => {
                self.load_tbox(data);
                true
            },
            None => false,
        }
    }

    /// Adds the rules of an N3 rule document (see [`spec_parse`]).
    pub fn parse_and_add_rule(&mut self, parse_string: &str)
        requires
            spec_document(parse_string@) is Some,
        ensures
            final(self).rules() == old(self).rules() + spec_parse(parse_string@),
            final(self).abox() == old(self).abox(),
            final(self).derived() == old(self).derived(),
    {
        match parse(parse_string) {
            Ok(rules) => {
                self.add_rules(rules);
            },
            Err(_) => {},
        }
    }

    /// The number of rules.
    pub fn len_rules(&self) -> (n: usize)
        ensures
            n == self.rules().len(),
    {
        self.rules.len()
    }

    /// The number of quads of the ABox.
    pub fn len_abox(&self) -> (n: usize)
        ensures
            n == self.abox().len(),
    {
        store_len(&self.store)
    }

    /// Every quad of the ABox, each at least once, and nothing else.
    pub fn abox_quads(&self) -> (v: Vec<GroundQuad>)
        ensures
            forall|i: int| 0 <= i < v.len() ==> self.abox().contains(#[trigger] v@[i]@),
            forall|q: SpecQuad| self.abox().contains(q) ==> exists|i: int| 0 <= i < v.len() && v@[i]@ == q,
    {
        store_quads(&self.store)
    }

    /// The rules, in order, whose head agrees with `rule_head` (variables agree with
    /// variables, terms with terms of the same IRI).
    pub fn find_subrules(&self, rule_head: &Triple) -> (r: Vec<Rule>)
        ensures
            rules_view(r@) == matching_rules(self.rules(), rule_head@),
    {
        let ghost all = self.rules();
        let mut rule_matches: Vec<Rule> = Vec::new();
        for i in 0..self.rules.len()
            invariant
                all == rules_view(self.rules@),
                rules_view(rule_matches@) == matching_rules(all.take(i as int), rule_head@),
        {
            let rule = &self.rules[i];
            assert(all.take(i + 1).drop_last() =~= all.take(i as int));
            assert(all.take(i + 1).last() == rule@);
            let head = &rule.head;
            if eval_triple_element(&head.s, &rule_head.s) && eval_triple_element(&head.p, &rule_head.p)
                && eval_triple_element(&head.o, &rule_head.o) {
                let ghost before = rules_view(rule_matches@);
                rule_matches.push(rule.duplicate());
                assert(rules_view(rule_matches@) =~= before.push(rule@));
            }
        }
        assert(all.take(self.rules.len() as int) =~= all);
        rule_matches
    }

    /// The terms that the variables of `rule_atom` are bound to by its solutions in the
    /// ABox, gathered over the solutions in the order the store gives them.
    pub fn eval_rule_atom(&self, rule_atom: &Triple) -> (b: Binding)
        requires
            sparql_accepts(select_text(rule_atom@)),
        ensures
            sparql_safe_pattern(rule_atom@) ==> exists|solutions: Seq<Vec<(String, String)>>|
                are_solutions_of(rule_atom@, solutions, self.abox()) && b@ == bindings_of(
                    solutions,
                ),
    {
        let query_string = select_query_text(rule_atom);
        match store_select(&self.store, query_string.as_str()) {
            Some(solutions) => Binding::from_solutions(&solutions),
            None => Binding::new(),
        }
    }

    /// As [`ReasoningStore::eval_rule_atom`] where the SPARQL parser accepts the query of
    /// `rule_atom`; `None` where it does not.
    pub fn try_eval_rule_atom(&self, rule_atom: &Triple) -> (r: Option<Binding>)
        ensures
            r is Some <==> sparql_accepts(select_text(rule_atom@)),
            r matches Some(b) ==> (sparql_safe_pattern(rule_atom@) ==> exists|
                solutions: Seq<Vec<(String, String)>>,
            |
                are_solutions_of(rule_atom@, solutions, self.abox()) && b@ == bindings_of(
                    solutions,
                )),
    {
        let query_string = select_query_text(rule_atom);
        match parse_query(query_string.as_str()) {
            Ok(_) => Some(self.eval_rule_atom(rule_atom)),
            Err(_) => None,
        }
    }

    /// Forward-chains the rules over the ABox. Every quad of the ABox is queued; each
    /// queued quad not met before is added to the derived quads (and to the ABox), and every
    /// rule with a body pattern that may stand for it is asked, as a SPARQL CONSTRUCT query
    /// over the derived quads, for its conclusions, which are queued in turn. A rule that
    /// SPARQL cannot write as itself, or whose query fails, concludes nothing.
    ///
    /// Afterwards the ABox and the derived quads are the same set, the materialization of
    /// the old ABox under the rules (see [`materialized`]).
    #[verifier::rlimit(60)]
    pub fn materialize(&mut self)
        ensures
            final(self).rules() == old(self).rules(),
            final(self).abox() == final(self).derived(),
            materialized(old(self).rules(), old(self).abox(), final(self).derived()),
    {
        let taken = self.take_all();
        proof {
            use_type_invariant(&taken);
        }
        let ReasoningStore { mut store, mut reasoning_store, rules, rules_index } = taken;
        let ghost init = store_contents(store);
        let ghost rs = rules_view(rules@);
        let ghost terms = quad_terms(init) + rules_consts(rs);
        let ghost graphs = quad_graphs(init).insert(default_graph_text());
        let ghost u = universe(terms, graphs);
        proof {
            lemma_quad_terms_finite(init);
            lemma_rules_consts_finite(rs);
            lemma_universe_finite(terms, graphs);
        }
        store_clear(&mut reasoning_store);
        let mut queue = store_quads(&store);
        let mut idx: usize = 0;
        proof {
            let qv0 = quads_view(queue@);
            assert forall|x: SpecQuad| qv0.to_set().contains(x) <==> init.contains(x) by {
                if qv0.contains(x) {
                    let i = choose|i: int| 0 <= i < qv0.len() && qv0[i] == x;
                    assert(queue@[i]@ == x);
                }
                if init.contains(x) {
                    let i = choose|i: int| 0 <= i < queue@.len() && queue@[i]@ == x;
                    assert(qv0[i] == x);
                }
            }
            assert(qv0.to_set() =~= init);
            lemma_start(rs, init, u, terms, graphs, quads_view(queue@));
            assert(init + Set::<SpecQuad>::empty() =~= init);
            assert(quads_view(queue@).take(0).to_set() =~= Set::<SpecQuad>::empty());
        }
        while idx < queue.len()
            invariant
                rules_index@ == rule_bodies(rs),
                rs == rules_view(rules@),
                step_frame(rs, init, u, terms, graphs),
                idx <= queue.len(),
                queue_state(rs, init, u, quads_view(queue@), idx as int, store_contents(reasoning_store)),
                store_contents(store) == init + store_contents(reasoning_store),
            decreases u.len() - store_contents(reasoning_store).len(), queue.len() - idx,
        {
            let ghost d = store_contents(reasoning_store);
            let ghost qv = quads_view(queue@);
            let ghost q = qv[idx as int];
            let mut temp: Vec<GroundQuad> = Vec::new();
            if !store_contains(&reasoning_store, &queue[idx]) {
                store_insert(&mut reasoning_store, &queue[idx]);
                store_insert(&mut store, &queue[idx]);
                temp = fire_rules(&rules, &rules_index, &reasoning_store, &queue[idx]);
                proof {
                    lemma_step_new(rs, init, u, terms, graphs, qv, idx as int, d, quads_view(temp@));
                    assert(init + d.insert(q) =~= (init + d).insert(q));
                }
            } else {
                proof {
                    lemma_step_old(rs, init, u, qv, idx as int, d);
                }
            }
            let ghost before = quads_view(queue@);
            let ghost tv = quads_view(temp@);
            queue.append(&mut temp);
            proof {
                assert(quads_view(queue@) =~= before + tv);
            }
            idx = idx + 1;
        }
        proof {
            lemma_finish(rs, init, u, quads_view(queue@), store_contents(reasoning_store));
        }
        *self = ReasoningStore { store, reasoning_store, rules, rules_index };
    }
}

/// The conclusions, from the derived quads, of the fireable rules among those with a body
/// pattern that may stand for `q` (and no other quads).
fn fire_rules(
    rules: &Vec<Rule>,
    rules_index: &RuleIndex,
    reasoning_store: &MemoryStore,
    q: &GroundQuad,
) -> (temp: Vec<GroundQuad>)
    requires
        rules_index@ == rule_bodies(rules_view(rules@)),
    ensures
        forall|t: SpecQuad|
            quads_view(temp@).to_set().contains(t) ==> exists|i: int|
                0 <= i < rules@.len() && fireable(rules_view(rules@)[i]) && #[trigger] consequences(rules_view(rules@)[i], store_contents(*reasoning_store)).contains(t),
        forall|i: int|
            0 <= i < rules@.len() && fireable(#[trigger] rules_view(rules@)[i]) && body_matches(rules_view(rules@)[i].body, q@)
                ==> consequences(rules_view(rules@)[i], store_contents(*reasoning_store)).subset_of(quads_view(temp@).to_set()),
{
    let ghost rs = rules_view(rules@);
    let ghost d = store_contents(*reasoning_store);
    let matched = rules_index.find_match(q);
    let mut temp: Vec<GroundQuad> = Vec::new();
    for k in 0..matched.len()
        invariant
            rs == rules_view(rules@),
            d == store_contents(*reasoning_store),
            rules_index@ == rule_bodies(rs),
            forall|kk: int| 0 <= kk < matched.len() ==> 0 <= #[trigger] matched@[kk] < rs.len(),
            forall|kk: int| 0 <= kk < matched.len() ==> body_matches(rules_index@[#[trigger] matched@[kk] as int], q@),
            forall|t: SpecQuad|
                quads_view(temp@).to_set().contains(t) ==> exists|i: int|
                    0 <= i < rs.len() && fireable(rs[i]) && #[trigger] consequences(rs[i], d).contains(t),
            forall|kk: int|
                0 <= kk < k && fireable(#[trigger] rs[matched@[kk] as int]) ==> consequences(rs[matched@[kk] as int], d).subset_of(
                    quads_view(temp@).to_set(),
                ),
    {
        let m = matched[k];
        let rule = &rules[m];
        assert(rs[m as int] == rule@);
        if is_sparql_safe_rule(rule) {
            let text = construct_query_text(rule);
            match store_construct(reasoning_store, text.as_str()) {
                Some(v) => {
                    let mut v = v;
                    let ghost vv = quads_view(v@);
                    let ghost before = quads_view(temp@);
                    assert(vv.to_set() == consequences(rs[m as int], d));
                    temp.append(&mut v);
                    proof {
                        assert(quads_view(temp@) =~= before + vv);
                        lemma_to_set_concat(before, vv);
                        assert(body_matches(rules_index@[m as int], q@));
                        assert(rules_index@[m as int] == rs[m as int].body);
                        assert(fireable(rs[m as int]));
                        assert forall|t: SpecQuad| quads_view(temp@).to_set().contains(t) implies exists|i: int|
                            0 <= i < rs.len() && fireable(rs[i]) && #[trigger] consequences(rs[i], d).contains(t) by {
                            if !before.to_set().contains(t) {
                                assert(consequences(rs[m as int], d).contains(t));
                            }
                        }
                    }
                },
                None => {
                    assert(!fireable(rs[m as int]));
                },
            }
        } else {
            assert(!fireable(rs[m as int]));
        }
    }
    proof {
        assert(rules.len() == rules@.len());
        assert forall|i: int|
            0 <= i < rules@.len() && fireable(#[trigger] rs[i]) && body_matches(rs[i].body, q@)
                implies consequences(rs[i], d).subset_of(quads_view(temp@).to_set()) by {
            assert(rules_index@[i] == rs[i].body);
            assert(matched@.contains(i as usize));
            let kk = choose|kk: int| 0 <= kk < matched.len() && matched@[kk] == i as usize;
            assert(matched@[kk] as int == i);
            assert(fireable(rs[matched@[kk] as int]));
        }
    }
    temp
}

// ---------------------------------------------------------------- the proof of materialization

/// What does not change while materializing: the universe of quads holds the old ABox and
/// is built from its terms and graphs and the IRIs of the rules.
pub open spec fn step_frame(
    rs: Seq<SpecRule>,
    init: Set<SpecQuad>,
    u: Set<SpecQuad>,
    terms: Set<Seq<char>>,
    graphs: Set<Seq<char>>,
) -> bool {
    &&& init.finite()
    &&& u.finite()
    &&& u == universe(terms, graphs)
    &&& rules_consts(rs).subset_of(terms)
    &&& graphs.contains(default_graph_text())
    &&& init.subset_of(u)
}

/// The state of the queue: the derived quads are those before position `idx`; the queue
/// holds the old ABox, lies within every closed superset of it and within the universe,
/// and holds every conclusion of every fireable rule from the derived quads.
pub open spec fn queue_state(
    rs: Seq<SpecRule>,
    init: Set<SpecQuad>,
    u: Set<SpecQuad>,
    qv: Seq<SpecQuad>,
    idx: int,
    d: Set<SpecQuad>,
) -> bool {
    &&& 0 <= idx <= qv.len()
    &&& d == qv.take(idx).to_set()
    &&& init.subset_of(qv.to_set())
    &&& forall|s: Set<SpecQuad>| closed_superset(rs, init, s) ==> qv.to_set().subset_of(s)
    &&& forall|i: int|
        0 <= i < rs.len() && fireable(#[trigger] rs[i]) ==> consequences(rs[i], d).subset_of(qv.to_set())
    &&& qv.to_set().subset_of(u)
    &&& d.finite()
    &&& d.subset_of(u)
    &&& d.len() <= u.len()
}

proof fn lemma_to_set_concat(a: Seq<SpecQuad>, b: Seq<SpecQuad>)
    ensures
        (a + b).to_set() == a.to_set() + b.to_set(),
{
    assert forall|x: SpecQuad| (a + b).to_set().contains(x) <==> (a.to_set() + b.to_set()).contains(x) by {
        if (a + b).contains(x) {
            let i = choose|i: int| 0 <= i < (a + b).len() && (a + b)[i] == x;
            if i < a.len() {
                assert(a[i] == x);
            } else {
                assert(b[i - a.len()] == x);
            }
        }
        if a.contains(x) {
            let i = choose|i: int| 0 <= i < a.len() && a[i] == x;
            assert((a + b)[i] == x);
        }
        if b.contains(x) {
            let i = choose|i: int| 0 <= i < b.len() && b[i] == x;
            assert((a + b)[a.len() + i] == x);
        }
    }
    assert((a + b).to_set() =~= a.to_set() + b.to_set());
}

proof fn lemma_take_to_set(qv: Seq<SpecQuad>, tv: Seq<SpecQuad>, idx: int)
    requires
        0 <= idx < qv.len(),
    ensures
        (qv + tv).take(idx + 1).to_set() == qv.take(idx).to_set().insert(qv[idx]),
{
    assert((qv + tv).take(idx + 1) =~= qv.take(idx).push(qv[idx]));
    assert forall|x: SpecQuad| qv.take(idx).push(qv[idx]).to_set().contains(x) <==> qv.take(idx).to_set().insert(qv[idx]).contains(x) by {
        let s = qv.take(idx).push(qv[idx]);
        if s.contains(x) {
            let i = choose|i: int| 0 <= i < s.len() && s[i] == x;
            if i < idx {
                assert(qv.take(idx)[i] == x);
            }
        }
        if qv.take(idx).contains(x) {
            let i = choose|i: int| 0 <= i < idx && qv.take(idx)[i] == x;
            assert(s[i] == x);
        }
        if x == qv[idx] {
            assert(s[idx] == x);
        }
    }
    assert(qv.take(idx).push(qv[idx]).to_set() =~= qv.take(idx).to_set().insert(qv[idx]));
}

proof fn lemma_start(
    rs: Seq<SpecRule>,
    init: Set<SpecQuad>,
    u: Set<SpecQuad>,
    terms: Set<Seq<char>>,
    graphs: Set<Seq<char>>,
    qv: Seq<SpecQuad>,
)
    requires
        init.finite(),
        u.finite(),
        u == universe(terms, graphs),
        terms == quad_terms(init) + rules_consts(rs),
        graphs == quad_graphs(init).insert(default_graph_text()),
        forall|q: SpecQuad| init.contains(q) ==> quad_terms(init).contains(q.subject) && quad_terms(init).contains(q.predicate) && quad_terms(init).contains(q.object) && quad_graphs(init).contains(q.graph),
        qv.to_set() == init,
    ensures
        step_frame(rs, init, u, terms, graphs),
        queue_state(rs, init, u, qv, 0, Set::empty()),
{
    assert(qv.take(0).to_set() =~= Set::<SpecQuad>::empty());
    assert forall|i: int| 0 <= i < rs.len() && fireable(#[trigger] rs[i]) implies consequences(rs[i], Set::empty()).subset_of(qv.to_set()) by {
        crate::semantics::lemma_no_consequences_from_nothing(rs[i]);
    }
    assert(Set::<SpecQuad>::empty().len() == 0);
}

proof fn lemma_step_old(
    rs: Seq<SpecRule>,
    init: Set<SpecQuad>,
    u: Set<SpecQuad>,
    qv: Seq<SpecQuad>,
    idx: int,
    d: Set<SpecQuad>,
)
    requires
        queue_state(rs, init, u, qv, idx, d),
        idx < qv.len(),
        d.contains(qv[idx]),
    ensures
        queue_state(rs, init, u, qv + Seq::<SpecQuad>::empty(), idx + 1, d),
{
    let tv = Seq::<SpecQuad>::empty();
    lemma_take_to_set(qv, tv, idx);
    assert(d.insert(qv[idx]) =~= d);
    assert(qv + tv =~= qv);
}

proof fn lemma_step_new(
    rs: Seq<SpecRule>,
    init: Set<SpecQuad>,
    u: Set<SpecQuad>,
    terms: Set<Seq<char>>,
    graphs: Set<Seq<char>>,
    qv: Seq<SpecQuad>,
    idx: int,
    d: Set<SpecQuad>,
    tv: Seq<SpecQuad>,
)
    requires
        step_frame(rs, init, u, terms, graphs),
        queue_state(rs, init, u, qv, idx, d),
        idx < qv.len(),
        !d.contains(qv[idx]),
        forall|t: SpecQuad|
            tv.to_set().contains(t) ==> exists|i: int|
                0 <= i < rs.len() && fireable(rs[i]) && #[trigger] consequences(rs[i], d.insert(qv[idx])).contains(t),
        forall|i: int|
            0 <= i < rs.len() && fireable(#[trigger] rs[i]) && body_matches(rs[i].body, qv[idx])
                ==> consequences(rs[i], d.insert(qv[idx])).subset_of(tv.to_set()),
    ensures
        queue_state(rs, init, u, qv + tv, idx + 1, d.insert(qv[idx])),
        d.insert(qv[idx]).len() == d.len() + 1,
{
    let q = qv[idx];
    let d2 = d.insert(q);
    let nq = qv + tv;
    lemma_take_to_set(qv, tv, idx);
    lemma_to_set_concat(qv, tv);
    assert(qv.to_set().contains(q)) by {
        assert(qv[idx] == q);
    }
    assert(d2.subset_of(qv.to_set())) by {
        assert forall|x: SpecQuad| d2.contains(x) implies qv.to_set().contains(x) by {
            if x != q {
                let i = choose|i: int| 0 <= i < idx && qv.take(idx)[i] == x;
                assert(qv[i] == x);
            }
        }
    }
    // every new quad lies in the universe
    assert forall|t: SpecQuad| tv.to_set().contains(t) implies u.contains(t) by {
        let i = choose|i: int| 0 <= i < rs.len() && fireable(rs[i]) && #[trigger] consequences(rs[i], d2).contains(t);
        crate::semantics::lemma_rules_consts(rs, i);
        crate::semantics::lemma_consequences_in_universe(rs[i], d2, terms, graphs);
    }
    // every new quad lies in every closed superset of the old ABox
    assert forall|s: Set<SpecQuad>| closed_superset(rs, init, s) implies nq.to_set().subset_of(s) by {
        assert forall|t: SpecQuad| tv.to_set().contains(t) implies s.contains(t) by {
            let i = choose|i: int| 0 <= i < rs.len() && fireable(rs[i]) && #[trigger] consequences(rs[i], d2).contains(t);
            crate::semantics::lemma_consequences_monotone(rs[i], d2, s);
            assert(closed_under(rs[i], s));
        }
    }
    // the conclusions from the new derived quads are queued
    assert forall|i: int| 0 <= i < rs.len() && fireable(#[trigger] rs[i]) implies consequences(rs[i], d2).subset_of(nq.to_set()) by {
        if !body_matches(rs[i].body, q) {
            crate::semantics::lemma_consequences_unmatched(rs[i], d, q);
        }
    }
    vstd::set_lib::lemma_len_subset(d2, u);
}

proof fn lemma_finish(
    rs: Seq<SpecRule>,
    init: Set<SpecQuad>,
    u: Set<SpecQuad>,
    qv: Seq<SpecQuad>,
    d: Set<SpecQuad>,
)
    requires
        queue_state(rs, init, u, qv, qv.len() as int, d),
    ensures
        init + d == d,
        materialized(rs, init, d),
{
    assert(qv.take(qv.len() as int) =~= qv);
    assert(init + d =~= d);
}


// ---------------------------------------------------------------- laws of materialization

/// A set of facts has one materialization under a list of rules: two sets that are both
/// its materialization are the same set.
pub proof fn law_materialization_is_unique(
    rules: Seq<SpecRule>,
    init: Set<SpecQuad>,
    m1: Set<SpecQuad>,
    m2: Set<SpecQuad>,
)
    requires
        materialized(rules, init, m1),
        materialized(rules, init, m2),
    ensures
        m1 == m2,
{
    assert(m1.subset_of(m2));
    assert(m2.subset_of(m1));
    assert(m1 =~= m2);
}

/// Materializing again changes nothing: a materialization is its own materialization.
pub proof fn law_materialization_is_idempotent(
    rules: Seq<SpecRule>,
    init: Set<SpecQuad>,
    m: Set<SpecQuad>,
)
    requires
        materialized(rules, init, m),
    ensures
        materialized(rules, m, m),
{
    assert forall|s: Set<SpecQuad>| closed_superset(rules, m, s) implies m.subset_of(s) by {
        assert(closed_superset(rules, init, s));
    }
}

/// More facts never give fewer conclusions: the materialization of a subset lies in the
/// materialization of the whole.
pub proof fn law_materialization_grows_with_facts(
    rules: Seq<SpecRule>,
    a1: Set<SpecQuad>,
    a2: Set<SpecQuad>,
    m1: Set<SpecQuad>,
    m2: Set<SpecQuad>,
)
    requires
        a1.subset_of(a2),
        materialized(rules, a1, m1),
        materialized(rules, a2, m2),
    ensures
        m1.subset_of(m2),
{
    assert(closed_superset(rules, a1, m2));
}

/// More rules never give fewer conclusions: where every rule of `r1` is also a rule of
/// `r2` (as after adding rules), the materialization under `r1` lies in that under `r2`.
pub proof fn law_materialization_grows_with_rules(
    r1: Seq<SpecRule>,
    r2: Seq<SpecRule>,
    init: Set<SpecQuad>,
    m1: Set<SpecQuad>,
    m2: Set<SpecQuad>,
)
    requires
        forall|i: int| 0 <= i < r1.len() ==> r2.contains(#[trigger] r1[i]),
        materialized(r1, init, m1),
        materialized(r2, init, m2),
    ensures
        m1.subset_of(m2),
{
    assert forall|i: int| 0 <= i < r1.len() && fireable(#[trigger] r1[i]) implies closed_under(r1[i], m2) by {
        assert(r2.contains(r1[i]));
        let j = choose|j: int| 0 <= j < r2.len() && r2[j] == r1[i];
        assert(fireable(r2[j]));
    }
    assert(closed_superset(r1, init, m2));
}

/// The `rdf:type` quad in the default graph that says `x` is an instance of the class `c`.
pub open spec fn type_quad(x: Seq<char>, c: Seq<char>) -> SpecQuad {
    SpecQuad {
        subject: x,
        predicate: const_text(rdf_type_iri_plain()),
        object: const_text(c),
        graph: default_graph_text(),
    }
}

/// A subclass rule that materialization fires passes membership on: where the
/// materialization says that a resource `x` is an instance of `sub`, it says that `x` is an
/// instance of `sup`.
pub proof fn law_subclass_membership_passes_on(
    rules: Seq<SpecRule>,
    init: Set<SpecQuad>,
    m: Set<SpecQuad>,
    i: int,
    sub: Seq<char>,
    sup: Seq<char>,
    x: Seq<char>,
)
    requires
        materialized(rules, init, m),
        0 <= i < rules.len(),
        rules[i] == subclass_rule(sub, sup),
        fireable(rules[i]),
        resource_text(x),
        m.contains(type_quad(x, sub)),
    ensures
        m.contains(type_quad(x, sup)),
{
    let r = subclass_rule(sub, sup);
    let sigma = Map::<Seq<char>, Seq<char>>::empty().insert("s"@, x);
    assert(patterns_vars(r.body) =~= set!["s"@]) by {
        assert(pattern_has_var(r.body[0], "s"@));
    }
    assert(sigma.dom() =~= set!["s"@]);
    assert(inst_pattern(r.body[0], sigma) == Some(type_quad(x, sub)));
    assert(is_solution(r.body, sigma, m));
    assert(inst_pattern(r.head, sigma) == Some(type_quad(x, sup)));
    reveal_strlit("http://www.w3.org/1999/02/22-rdf-syntax-ns#type");
    assert(valid_quad(type_quad(x, sup)));
    assert(consequences(r, m).contains(type_quad(x, sup)));
    assert(closed_under(rules[i], m));
}

/// Backward matching does not look at the names of variables: two goals that differ only
/// there match the same rules.
pub open spec fn same_but_variable_names(a: SpecVarOrTerm, b: SpecVarOrTerm) -> bool {
    match (a, b) {
        (SpecVarOrTerm::Var(_), SpecVarOrTerm::Var(_)) => true,
        (SpecVarOrTerm::Term(x), SpecVarOrTerm::Term(y)) => x == y,
        _ => false,
    }
}

/// Goals that differ only in the names of their variables match the same rules, in the
/// same order.
pub proof fn law_matching_ignores_variable_names(
    rules: Seq<SpecRule>,
    g1: SpecTriple,
    g2: SpecTriple,
)
    requires
        same_but_variable_names(g1.s, g2.s),
        same_but_variable_names(g1.p, g2.p),
        same_but_variable_names(g1.o, g2.o),
    ensures
        matching_rules(rules, g1) == matching_rules(rules, g2),
    decreases rules.len(),
{
    if rules.len() > 0 {
        law_matching_ignores_variable_names(rules.drop_last(), g1, g2);
        assert(head_matches(rules.last().head, g1) == head_matches(rules.last().head, g2));
    }
}

// ---------------------------------------------------------------- the rules over a sequence of calls

/// A call on a store, as far as the rules are concerned: the three calls that add rules,
/// with their arguments, and the calls that leave the rules as they are.
pub enum StoreCall {
    /// `add_rule(rule)`
    AddRule(SpecRule),
    /// `parse_and_add_rule(text)`
    ParseAndAddRule(Seq<char>),
    /// `load_tbox(data)`
    LoadTbox(Seq<u8>),
    /// `load_abox`
    LoadAbox,
    /// `materialize`
    Materialize,
    /// `find_subrules`, `eval_rule_atom`, `len_rules`, `len_abox` or `abox_quads`
    Read,
}

/// Whether a call can be made: the text or data it reads is accepted.
pub open spec fn call_allowed(c: StoreCall) -> bool {
    match c {
        StoreCall::ParseAndAddRule(t) => spec_document(t) is Some,
        StoreCall::LoadTbox(d) => turtle_triples(d) is Some,
        _ => true,
    }
}

/// The rules that a call appends, as its contract states.
pub open spec fn rules_added(c: StoreCall) -> Seq<SpecRule> {
    match c {
        StoreCall::AddRule(r) => seq![r],
        StoreCall::ParseAndAddRule(t) => spec_parse(t),
        StoreCall::LoadTbox(d) => tbox_rules(turtle_triples(d).unwrap()),
        _ => seq![],
    }
}

/// Whether a triple of a terminology is a `rdfs:subClassOf` triple between two absolute
/// IRIs.
pub open spec fn is_subclass_axiom(t: (Seq<char>, Seq<char>, Seq<char>)) -> bool {
    t.1 == subclass_of_text() && valid_iri(strip_ends(t.0)) && valid_iri(strip_ends(t.2))
}

/// The number of subclass axioms among the triples.
pub open spec fn subclass_axiom_count(ts: Seq<(Seq<char>, Seq<char>, Seq<char>)>) -> int
    decreases ts.len(),
{
    if ts.len() == 0 {
        0
    } else {
        subclass_axiom_count(ts.drop_last()) + if is_subclass_axiom(ts.last()) {
            1int
        } else {
            0int
        }
    }
}

/// The number of rules a call adds: one for `add_rule`, one for each rule statement of
/// the document for `parse_and_add_rule`, one for each subclass axiom for `load_tbox`.
pub open spec fn rule_count_of(c: StoreCall) -> int {
    match c {
        StoreCall::AddRule(_) => 1,
        StoreCall::ParseAndAddRule(t) => rules_before(
            spec_document(t).unwrap(),
            spec_document(t).unwrap().len() as int,
        ),
        StoreCall::LoadTbox(d) => subclass_axiom_count(turtle_triples(d).unwrap()),
        _ => 0,
    }
}

/// The rules after a sequence of calls on a new store.
pub open spec fn rules_after(calls: Seq<StoreCall>) -> Seq<SpecRule>
    decreases calls.len(),
{
    if calls.len() == 0 {
        seq![]
    } else {
        rules_after(calls.drop_last()) + rules_added(calls.last())
    }
}

/// The number of rules that a sequence of calls adds.
pub open spec fn rule_count(calls: Seq<StoreCall>) -> int
    decreases calls.len(),
{
    if calls.len() == 0 {
        0
    } else {
        rule_count(calls.drop_last()) + rule_count_of(calls.last())
    }
}

proof fn lemma_tbox_rules_len(ts: Seq<(Seq<char>, Seq<char>, Seq<char>)>)
    ensures
        tbox_rules(ts).len() == subclass_axiom_count(ts),
    decreases ts.len(),
{
    if ts.len() > 0 {
        lemma_tbox_rules_len(ts.drop_last());
    }
}

proof fn lemma_rules_after(states: Seq<Seq<SpecRule>>, calls: Seq<StoreCall>, n: int)
    requires
        states.len() == calls.len() + 1,
        states[0] == Seq::<SpecRule>::empty(),
        0 <= n <= calls.len(),
        forall|i: int|
            0 < i < states.len() ==> #[trigger] states[i] == states[i - 1] + rules_added(
                calls[i - 1],
            ),
        forall|i: int| 0 <= i < calls.len() ==> call_allowed(#[trigger] calls[i]),
    ensures
        states[n] == rules_after(calls.take(n)),
        states[n].len() == rule_count(calls.take(n)),
    decreases n,
{
    if n == 0 {
        assert(calls.take(0) =~= seq![]);
    } else {
        lemma_rules_after(states, calls, n - 1);
        assert(calls.take(n).drop_last() =~= calls.take(n - 1));
        let c = calls[n - 1];
        assert(states[n] == states[n - 1] + rules_added(c));
        assert(call_allowed(c));
        match c {
            StoreCall::ParseAndAddRule(t) => {
                lemma_parse_len(t);
            },
            StoreCall::LoadTbox(d) => {
                lemma_tbox_rules_len(turtle_triples(d).unwrap());
            },
            _ => {},
        }
    }
}

/// Rules are only ever added, never removed, and the rules of a store are those its calls
/// added, in order. For a store made by `ReasoningStore::new` and then the calls `calls`,
/// where `states[i]` are its rules after the first `i` calls and each call appended what
/// its contract says (`rules_added`): the rules before any call are a prefix of the rules
/// after it, the rules at the end are `rules_after(calls)`, and their number is one for each
/// `add_rule`, one for each rule statement of each document given to
/// `parse_and_add_rule`, and one for each subclass axiom of each terminology given to
/// `load_tbox`.
pub proof fn law_rules_accumulate(states: Seq<Seq<SpecRule>>, calls: Seq<StoreCall>)
    requires
        states.len() == calls.len() + 1,
        states[0] == Seq::<SpecRule>::empty(),
        forall|i: int|
            0 < i < states.len() ==> #[trigger] states[i] == states[i - 1] + rules_added(
                calls[i - 1],
            ),
        forall|i: int| 0 <= i < calls.len() ==> call_allowed(#[trigger] calls[i]),
    ensures
        forall|i: int, j: int|
            0 <= i <= j < states.len() ==> #[trigger] states[j].take(states[i].len() as int)
                == states[i],
        states.last() == rules_after(calls),
        states.last().len() == rule_count(calls),
{
    lemma_rules_after(states, calls, calls.len() as int);
    assert(calls.take(calls.len() as int) =~= calls);
    assert forall|i: int, j: int| 0 <= i <= j < states.len() implies #[trigger] states[j].take(
        states[i].len() as int,
    ) == states[i] by {
        lemma_states_grow(states, calls, i, j);
    }
}

proof fn lemma_states_grow(states: Seq<Seq<SpecRule>>, calls: Seq<StoreCall>, i: int, j: int)
    requires
        states.len() == calls.len() + 1,
        forall|i: int|
            0 < i < states.len() ==> #[trigger] states[i] == states[i - 1] + rules_added(
                calls[i - 1],
            ),
        0 <= i <= j < states.len(),
    ensures
        states[i].len() <= states[j].len(),
        states[j].take(states[i].len() as int) == states[i],
    decreases j - i,
{
    if i == j {
        assert(states[j].take(states[i].len() as int) =~= states[i]);
    } else {
        lemma_states_grow(states, calls, i, j - 1);
        assert(states[j] == states[j - 1] + rules_added(calls[j - 1]));
        assert(states[j].take(states[i].len() as int) =~= states[j - 1].take(states[i].len() as int));
    }
}

// ---------------------------------------------------------------- laws of matching, terminologies and SPARQL text

/// Backward matching returns exactly the rules whose head agrees with the goal, in the
/// order they were added: no agreeing rule is left out and no other rule is returned.
pub proof fn law_matching_rules_are_the_agreeing_rules(rules: Seq<SpecRule>, goal: SpecTriple)
    ensures
        matching_rules(rules, goal) == rules.filter(|r: SpecRule| head_matches(r.head, goal)),
        forall|i: int|
            0 <= i < rules.len() && head_matches(#[trigger] rules[i].head, goal) ==> matching_rules(
                rules,
                goal,
            ).contains(rules[i]),
    decreases rules.len(),
{
    let pred = |r: SpecRule| head_matches(r.head, goal);
    if rules.len() == 0 {
        reveal(Seq::filter);
    } else {
        law_matching_rules_are_the_agreeing_rules(rules.drop_last(), goal);
        rules.drop_last().lemma_filter_push(rules.last(), pred);
        assert(rules.drop_last().push(rules.last()) =~= rules);
    }
    assert forall|i: int|
        0 <= i < rules.len() && head_matches(#[trigger] rules[i].head, goal) implies matching_rules(
        rules,
        goal,
    ).contains(rules[i]) by {
        rules.lemma_filter_contains(pred, i);
    }
}

/// Stripping the brackets of an IRI reference `<i>` gives the IRI `i`, whatever it holds.
pub proof fn law_strip_ends_of_iri_reference(i: Seq<char>)
    ensures
        strip_ends(seq!['<'] + i + seq!['>']) == i,
{
    assert((seq!['<'] + i + seq!['>']).subrange(1, i.len() + 1 as int) =~= i);
}

/// Every `rdfs:subClassOf` triple of a terminology between two IRI references whose IRIs
/// are absolute gives the rule that passes membership of the subclass on to the superclass.
pub proof fn law_subclass_axioms_give_rules(
    ts: Seq<(Seq<char>, Seq<char>, Seq<char>)>,
    k: int,
    sub: Seq<char>,
    sup: Seq<char>,
)
    requires
        0 <= k < ts.len(),
        ts[k] == (seq!['<'] + sub + seq!['>'], subclass_of_text(), seq!['<'] + sup + seq!['>']),
        valid_iri(sub),
        valid_iri(sup),
    ensures
        tbox_rules(ts).contains(subclass_rule(sub, sup)),
    decreases ts.len(),
{
    law_strip_ends_of_iri_reference(sub);
    law_strip_ends_of_iri_reference(sup);
    let before = tbox_rules(ts.drop_last());
    let last = tbox_rule(ts.last());
    if k == ts.len() - 1 {
        assert(last == seq![subclass_rule(sub, sup)]);
        assert((before + last)[before.len() as int] == subclass_rule(sub, sup));
    } else {
        law_subclass_axioms_give_rules(ts.drop_last(), k, sub, sup);
        let j = choose|j: int| 0 <= j < before.len() && before[j] == subclass_rule(sub, sup);
        assert((before + last)[j] == subclass_rule(sub, sup));
    }
}

/// A text all of whose characters SPARQL's `IRIREF` admits between `<` and `>`: any
/// character above the space other than `<`, `>`, `"`, `{`, `}`, `|`, `^`, `` ` `` and `\`.
pub open spec fn iriref_text(i: Seq<char>) -> bool {
    forall|k: int|
        0 <= k < i.len() ==> {
            let c = #[trigger] i[k];
            ' ' < c && c != '<' && c != '>' && c != '"' && c != '{' && c != '}' && c != '|'
                && c != '^' && c != '`' && c != '\\'
        }
}

/// A position that SPARQL can write: a variable with a SPARQL variable name, or a term
/// whose IRI is made of `IRIREF` characters.
pub open spec fn writable_position(v: SpecVarOrTerm) -> bool {
    match v {
        SpecVarOrTerm::Var(n) => sparql_var_name(n),
        SpecVarOrTerm::Term(t) => iriref_text(iri_text(t)),
    }
}

/// Every character that SPARQL's `IRIREF` admits is one the crate writes as itself.
pub proof fn law_iriref_characters_are_written(c: char)
    requires
        ' ' < c && c != '<' && c != '>' && c != '"' && c != '{' && c != '}' && c != '|' && c
            != '^' && c != '`' && c != '\\',
    ensures
        sparql_iri_char(c),
{
}

/// A rule with a body, all of whose positions SPARQL can write and whose query SPARQL
/// accepts, is fired by materialization: each of its conclusions from the materialization
/// lies in the materialization.
pub proof fn law_writable_rules_fire(
    rules: Seq<SpecRule>,
    init: Set<SpecQuad>,
    m: Set<SpecQuad>,
    i: int,
)
    requires
        materialized(rules, init, m),
        0 <= i < rules.len(),
        rules[i].body.len() > 0,
        forall|j: int|
            0 <= j < rules[i].body.len() ==> writable_position(#[trigger] rules[i].body[j].s)
                && writable_position(rules[i].body[j].p) && writable_position(
                rules[i].body[j].o,
            ),
        writable_position(rules[i].head.s),
        writable_position(rules[i].head.p),
        writable_position(rules[i].head.o),
        sparql_accepts(construct_text(rules[i])),
    ensures
        consequences(rules[i], m).subset_of(m),
{
    let r = rules[i];
    assert forall|v: SpecVarOrTerm| writable_position(v) implies sparql_safe_pos(v) by {
        if let SpecVarOrTerm::Term(t) = v {
            assert forall|k: int| 0 <= k < iri_text(t).len() implies sparql_iri_char(
                #[trigger] iri_text(t)[k],
            ) by {
                law_iriref_characters_are_written(iri_text(t)[k]);
            }
        }
    }
    assert forall|j: int| 0 <= j < r.body.len() implies #[trigger] sparql_safe_pattern(
        r.body[j],
    ) by {
        assert(writable_position(rules[i].body[j].s));
    }
    assert(sparql_safe_rule(r));
    assert(fireable(rules[i]));
    assert(closed_under(rules[i], m));
}

} // verus!
