//! What a rule means over a set of stored quads, and the SPARQL text that asks for it.
//!
//! Stored terms are given by their N-Triples text (`<iri>`, `_:id`, `"lexical"...`),
//! and the graph of a quad by its text, `DEFAULT` for the default graph.

use vstd::prelude::*;

use crate::rule::{SpecRule, SpecTriple, SpecVarOrTerm};
use crate::rule_index::{body_matches, pattern_matches};

verus! {

/// A quad of the store, each position by its N-Triples text.
pub struct SpecQuad {
    pub subject: Seq<char>,
    pub predicate: Seq<char>,
    pub object: Seq<char>,
    pub graph: Seq<char>,
}

/// The graph text of the default graph.
pub open spec fn default_graph_text() -> Seq<char> {
    "DEFAULT"@
}

/// The IRI that a term text of a rule denotes: the text inside `<` and `>` where the
/// text is so enclosed, the text itself otherwise.
pub open spec fn iri_text(t: Seq<char>) -> Seq<char> {
    if t.len() >= 2 && t[0] == '<' && t.last() == '>' {
        t.subrange(1, t.len() - 1)
    } else {
        t
    }
}

/// The N-Triples text of the IRI that a term text of a rule denotes.
pub open spec fn const_text(t: Seq<char>) -> Seq<char> {
    seq!['<'] + iri_text(t) + seq!['>']
}

/// An assignment of stored term texts to variable names.
pub type Subst = Map<Seq<char>, Seq<char>>;

/// The stored term that a pattern position stands for under `sigma`, if it stands for one.
pub open spec fn inst_pos(v: SpecVarOrTerm, sigma: Subst) -> Option<Seq<char>> {
    match v {
        SpecVarOrTerm::Var(n) => if sigma.contains_key(n) {
            Some(sigma[n])
        } else {
            None
        },
        SpecVarOrTerm::Term(t) => Some(const_text(t)),
    }
}

/// The default-graph quad that a pattern stands for under `sigma`, if it stands for one.
pub open spec fn inst_pattern(t: SpecTriple, sigma: Subst) -> Option<SpecQuad> {
    match (inst_pos(t.s, sigma), inst_pos(t.p, sigma), inst_pos(t.o, sigma)) {
        (Some(s), Some(p), Some(o)) => Some(
            SpecQuad { subject: s, predicate: p, object: o, graph: default_graph_text() },
        ),
        _ => None,
    }
}

pub open spec fn pos_has_var(v: SpecVarOrTerm, n: Seq<char>) -> bool {
    v == SpecVarOrTerm::Var(n)
}

/// Whether the variable `n` occurs in the pattern `t`.
pub open spec fn pattern_has_var(t: SpecTriple, n: Seq<char>) -> bool {
    pos_has_var(t.s, n) || pos_has_var(t.p, n) || pos_has_var(t.o, n)
}

/// The variables that occur in a list of patterns.
pub open spec fn patterns_vars(ts: Seq<SpecTriple>) -> Set<Seq<char>> {
    Set::new(|n: Seq<char>| exists|i: int| 0 <= i < ts.len() && pattern_has_var(ts[i], n))
}

/// `sigma` is a solution of the patterns `ts` in `g`: it binds exactly their variables,
/// and every pattern stands for a quad of `g`.
pub open spec fn is_solution(ts: Seq<SpecTriple>, sigma: Subst, g: Set<SpecQuad>) -> bool {
    &&& sigma.dom() == patterns_vars(ts)
    &&& forall|i: int|
        0 <= i < ts.len() ==> (#[trigger] inst_pattern(ts[i], sigma) matches Some(q) && g.contains(
            q,
        ))
}

/// A term text that may stand as a subject: an IRI or a blank node.
pub open spec fn resource_text(t: Seq<char>) -> bool {
    t.len() > 0 && (t[0] == '<' || t[0] == '_')
}

/// A term text that may stand as a predicate: an IRI.
pub open spec fn iri_term_text(t: Seq<char>) -> bool {
    t.len() > 0 && t[0] == '<'
}

/// A quad that RDF admits: its subject is an IRI or blank node, its predicate an IRI.
pub open spec fn valid_quad(q: SpecQuad) -> bool {
    resource_text(q.subject) && iri_term_text(q.predicate)
}

/// The quads that the rule `r` concludes from `g`: the heads of its solutions in `g`
/// that RDF admits.
pub open spec fn consequences(r: SpecRule, g: Set<SpecQuad>) -> Set<SpecQuad> {
    Set::new(
        |q: SpecQuad|
            valid_quad(q) && exists|sigma: Subst|
                is_solution(r.body, sigma, g) && inst_pattern(r.head, sigma) == Some(q),
    )
}

/// `g` holds every conclusion of `r` from `g`.
pub open spec fn closed_under(r: SpecRule, g: Set<SpecQuad>) -> bool {
    consequences(r, g).subset_of(g)
}

// ---------------------------------------------------------------- SPARQL text

/// A character that SPARQL admits inside `<...>`.
pub open spec fn sparql_iri_char(c: char) -> bool {
    ' ' < c && c != '<' && c != '>' && c != '"' && c != '{' && c != '}' && c != '|' && c != '^'
        && c != '`' && c != '\\'
}

/// A pattern position that can be written in SPARQL as itself: a variable with a
/// non-empty name of letters, digits and `_`, or a term whose IRI has only characters
/// that SPARQL admits inside `<...>`.
pub open spec fn sparql_safe_pos(v: SpecVarOrTerm) -> bool {
    match v {
        SpecVarOrTerm::Var(n) => sparql_var_name(n),
        SpecVarOrTerm::Term(t) => sparql_iri(iri_text(t)),
    }
}

/// A character of the SPARQL grammar's `PN_CHARS_BASE`, as the parser of `oxigraph`
/// has it.
pub open spec fn pn_chars_base(c: char) -> bool {
    ||| 'A' <= c <= 'Z'
    ||| 'a' <= c <= 'z'
    ||| '\u{00C0}' <= c <= '\u{00D6}'
    ||| '\u{00D8}' <= c <= '\u{00F6}'
    ||| '\u{00F8}' <= c <= '\u{02FF}'
    ||| '\u{0370}' <= c <= '\u{037D}'
    ||| '\u{037F}' <= c <= '\u{1FFF}'
    ||| '\u{200C}' <= c <= '\u{200D}'
    ||| '\u{2070}' <= c <= '\u{218F}'
    ||| '\u{2C00}' <= c <= '\u{2FEF}'
    ||| '\u{3001}' <= c <= '\u{D7FF}'
    ||| '\u{F900}' <= c <= '\u{FDCF}'
    ||| '\u{FDF0}' <= c <= '\u{FFFD}'
}

/// A character that may begin a SPARQL variable name: `PN_CHARS_U` or a digit.
pub open spec fn varname_start_char(c: char) -> bool {
    c == '_' || '0' <= c <= '9' || pn_chars_base(c)
}

/// A character that may stand in a SPARQL variable name after the first.
pub open spec fn varname_char(c: char) -> bool {
    varname_start_char(c) || c == '\u{00B7}' || '\u{0300}' <= c <= '\u{036F}' || '\u{203F}'
        <= c <= '\u{2040}'
}

/// A SPARQL variable name (`VARNAME`): one start character, then variable-name
/// characters.
pub open spec fn sparql_var_name(n: Seq<char>) -> bool {
    &&& n.len() > 0
    &&& varname_start_char(n[0])
    &&& forall|k: int| 0 <= k < n.len() ==> varname_char(#[trigger] n[k])
}

/// An IRI with only characters that SPARQL admits inside `<...>`.
pub open spec fn sparql_iri(i: Seq<char>) -> bool {
    forall|k: int| 0 <= k < i.len() ==> sparql_iri_char(#[trigger] i[k])
}

pub open spec fn sparql_safe_pattern(t: SpecTriple) -> bool {
    sparql_safe_pos(t.s) && sparql_safe_pos(t.p) && sparql_safe_pos(t.o)
}

/// A rule all of whose positions can be written in SPARQL as themselves.
pub open spec fn sparql_safe_rule(r: SpecRule) -> bool {
    &&& forall|i: int| 0 <= i < r.body.len() ==> #[trigger] sparql_safe_pattern(r.body[i])
    &&& sparql_safe_pattern(r.head)
}

/// A pattern position in SPARQL: `?name` or `<iri>`.
pub open spec fn query_pos_text(v: SpecVarOrTerm) -> Seq<char> {
    match v {
        SpecVarOrTerm::Var(n) => seq!['?'] + n,
        SpecVarOrTerm::Term(t) => const_text(t),
    }
}

/// A pattern in SPARQL, `s p o . `.
pub open spec fn pattern_query_text(t: SpecTriple) -> Seq<char> {
    query_pos_text(t.s) + seq![' '] + query_pos_text(t.p) + seq![' '] + query_pos_text(t.o)
        + seq![' ', '.', ' ']
}

/// The patterns in SPARQL, one after the other.
pub open spec fn patterns_query_text(ts: Seq<SpecTriple>) -> Seq<char>
    decreases ts.len(),
{
    if ts.len() == 0 {
        seq![]
    } else {
        patterns_query_text(ts.drop_last()) + pattern_query_text(ts.last())
    }
}

/// The SPARQL query that constructs the conclusions of a rule.
pub open spec fn construct_text(r: SpecRule) -> Seq<char> {
    "CONSTRUCT { "@ + pattern_query_text(r.head) + " } WHERE { "@ + patterns_query_text(r.body)
        + " }"@
}

/// The SPARQL query that selects the solutions of a single pattern.
pub open spec fn select_text(t: SpecTriple) -> Seq<char> {
    "SELECT * WHERE { "@ + pattern_query_text(t) + " }"@
}

// ---------------------------------------------------------------- facts about consequences

/// A larger set of quads has at least the same solutions.
pub proof fn lemma_solution_monotone(ts: Seq<SpecTriple>, sigma: Subst, g1: Set<SpecQuad>, g2: Set<SpecQuad>)
    requires
        is_solution(ts, sigma, g1),
        g1.subset_of(g2),
    ensures
        is_solution(ts, sigma, g2),
{
    assert forall|i: int| 0 <= i < ts.len() implies (#[trigger] inst_pattern(ts[i], sigma) matches Some(q) && g2.contains(q)) by {
        assert(inst_pattern(ts[i], sigma) matches Some(q) && g1.contains(q));
    }
}

/// A larger set of quads has at least the same consequences.
pub proof fn lemma_consequences_monotone(r: SpecRule, g1: Set<SpecQuad>, g2: Set<SpecQuad>)
    requires
        g1.subset_of(g2),
    ensures
        consequences(r, g1).subset_of(consequences(r, g2)),
{
    assert forall|q: SpecQuad| consequences(r, g1).contains(q) implies consequences(r, g2).contains(q) by {
        let sigma = choose|sigma: Subst| is_solution(r.body, sigma, g1) && inst_pattern(r.head, sigma) == Some(q);
        lemma_solution_monotone(r.body, sigma, g1, g2);
    }
}

/// A pattern that stands for a quad under some assignment may stand for that quad.
pub proof fn lemma_inst_matches(t: SpecTriple, sigma: Subst)
    ensures
        inst_pattern(t, sigma) matches Some(q) ==> pattern_matches(t, q),
{
}

/// A quad that no body pattern of a rule may stand for adds no consequences of the rule.
pub proof fn lemma_consequences_unmatched(r: SpecRule, g: Set<SpecQuad>, q: SpecQuad)
    requires
        !body_matches(r.body, q),
    ensures
        consequences(r, g.insert(q)) == consequences(r, g),
{
    assert forall|c: SpecQuad| consequences(r, g.insert(q)).contains(c) implies consequences(r, g).contains(c) by {
        let sigma = choose|sigma: Subst| is_solution(r.body, sigma, g.insert(q)) && inst_pattern(r.head, sigma) == Some(c);
        assert forall|i: int| 0 <= i < r.body.len() implies (#[trigger] inst_pattern(r.body[i], sigma) matches Some(p) && g.contains(p)) by {
            lemma_inst_matches(r.body[i], sigma);
            if let Some(p) = inst_pattern(r.body[i], sigma) {
                if p == q {
                    assert(pattern_matches(r.body[i], q));
                }
            }
        }
    }
    lemma_consequences_monotone(r, g, g.insert(q));
    assert(consequences(r, g.insert(q)) =~= consequences(r, g));
}

/// A rule with a body has no consequences from no quads.
pub proof fn lemma_no_consequences_from_nothing(r: SpecRule)
    requires
        r.body.len() > 0,
    ensures
        consequences(r, Set::empty()) == Set::<SpecQuad>::empty(),
{
    assert forall|c: SpecQuad| !consequences(r, Set::empty()).contains(c) by {
        if consequences(r, Set::empty()).contains(c) {
            let sigma = choose|sigma: Subst| is_solution(r.body, sigma, Set::empty()) && inst_pattern(r.head, sigma) == Some(c);
            assert(inst_pattern(r.body[0], sigma) matches Some(p) && Set::<SpecQuad>::empty().contains(p));
        }
    }
    assert(consequences(r, Set::empty()) =~= Set::<SpecQuad>::empty());
}

// ---------------------------------------------------------------- a finite universe of quads

/// The term texts of the quads of `g`.
pub open spec fn quad_terms(g: Set<SpecQuad>) -> Set<Seq<char>> {
    g.map(|q: SpecQuad| q.subject) + g.map(|q: SpecQuad| q.predicate) + g.map(|q: SpecQuad| q.object)
}

/// The graph texts of the quads of `g`.
pub open spec fn quad_graphs(g: Set<SpecQuad>) -> Set<Seq<char>> {
    g.map(|q: SpecQuad| q.graph)
}

pub open spec fn pos_consts(v: SpecVarOrTerm) -> Set<Seq<char>> {
    match v {
        SpecVarOrTerm::Var(_) => Set::empty(),
        SpecVarOrTerm::Term(t) => set![const_text(t)],
    }
}

pub open spec fn pattern_consts(t: SpecTriple) -> Set<Seq<char>> {
    pos_consts(t.s) + pos_consts(t.p) + pos_consts(t.o)
}

pub open spec fn patterns_consts(ts: Seq<SpecTriple>) -> Set<Seq<char>>
    decreases ts.len(),
{
    if ts.len() == 0 {
        Set::empty()
    } else {
        patterns_consts(ts.drop_last()) + pattern_consts(ts.last())
    }
}

/// The texts of the IRIs that the rules name.
pub open spec fn rules_consts(rs: Seq<SpecRule>) -> Set<Seq<char>>
    decreases rs.len(),
{
    if rs.len() == 0 {
        Set::empty()
    } else {
        rules_consts(rs.drop_last()) + patterns_consts(rs.last().body) + pattern_consts(rs.last().head)
    }
}

/// The quads whose terms are all in `terms` and whose graph is in `graphs`.
pub open spec fn universe(terms: Set<Seq<char>>, graphs: Set<Seq<char>>) -> Set<SpecQuad> {
    Set::new(
        |q: SpecQuad|
            terms.contains(q.subject) && terms.contains(q.predicate) && terms.contains(q.object)
                && graphs.contains(q.graph),
    )
}

proof fn lemma_patterns_consts(ts: Seq<SpecTriple>, i: int)
    requires
        0 <= i < ts.len(),
    ensures
        pattern_consts(ts[i]).subset_of(patterns_consts(ts)),
        patterns_consts(ts).finite(),
    decreases ts.len(),
{
    if i < ts.len() - 1 {
        lemma_patterns_consts(ts.drop_last(), i);
    } else if ts.len() > 1 {
        lemma_patterns_consts(ts.drop_last(), 0);
    }
}

proof fn lemma_patterns_consts_finite(ts: Seq<SpecTriple>)
    ensures
        patterns_consts(ts).finite(),
    decreases ts.len(),
{
    if ts.len() > 0 {
        lemma_patterns_consts_finite(ts.drop_last());
    }
}

pub proof fn lemma_rules_consts(rs: Seq<SpecRule>, i: int)
    requires
        0 <= i < rs.len(),
    ensures
        patterns_consts(rs[i].body).subset_of(rules_consts(rs)),
        pattern_consts(rs[i].head).subset_of(rules_consts(rs)),
    decreases rs.len(),
{
    if i < rs.len() - 1 {
        lemma_rules_consts(rs.drop_last(), i);
    }
}

pub proof fn lemma_rules_consts_finite(rs: Seq<SpecRule>)
    ensures
        rules_consts(rs).finite(),
    decreases rs.len(),
{
    if rs.len() > 0 {
        lemma_rules_consts_finite(rs.drop_last());
        lemma_patterns_consts_finite(rs.last().body);
    }
}

pub proof fn lemma_quad_terms_finite(g: Set<SpecQuad>)
    requires
        g.finite(),
    ensures
        quad_terms(g).finite(),
        quad_graphs(g).finite(),
        forall|q: SpecQuad| g.contains(q) ==> quad_terms(g).contains(q.subject) && quad_terms(g).contains(q.predicate) && quad_terms(g).contains(q.object) && quad_graphs(g).contains(q.graph),
{
    g.lemma_map_finite(|q: SpecQuad| q.subject);
    g.lemma_map_finite(|q: SpecQuad| q.predicate);
    g.lemma_map_finite(|q: SpecQuad| q.object);
    g.lemma_map_finite(|q: SpecQuad| q.graph);
    assert forall|q: SpecQuad| g.contains(q) implies quad_terms(g).contains(q.subject) && quad_terms(g).contains(q.predicate) && quad_terms(g).contains(q.object) && quad_graphs(g).contains(q.graph) by {
        assert(g.map(|q: SpecQuad| q.subject).contains(q.subject));
        assert(g.map(|q: SpecQuad| q.predicate).contains(q.predicate));
        assert(g.map(|q: SpecQuad| q.object).contains(q.object));
        assert(g.map(|q: SpecQuad| q.graph).contains(q.graph));
    }
}

/// The pairs of an element of `a` and an element of `b`.
pub open spec fn product<A, B>(a: Set<A>, b: Set<B>) -> Set<(A, B)> {
    Set::new(|p: (A, B)| a.contains(p.0) && b.contains(p.1))
}

pub proof fn lemma_product_finite<A, B>(a: Set<A>, b: Set<B>)
    requires
        a.finite(),
        b.finite(),
    ensures
        product(a, b).finite(),
{
    let f = |x: A| b.map(|y: B| (x, y));
    let fam = a.map(f);
    a.lemma_map_finite(f);
    assert forall|s: Set<(A, B)>| fam.contains(s) implies #[trigger] s.finite() by {
        let x = choose|x: A| a.contains(x) && f(x) == s;
        b.lemma_map_finite(|y: B| (x, y));
    }
    fam.lemma_flatten_finite();
    assert forall|p: (A, B)| product(a, b).contains(p) implies fam.flatten().contains(p) by {
        assert(fam.contains(f(p.0)));
        assert(f(p.0).contains(p));
    }
    assert forall|p: (A, B)| fam.flatten().contains(p) implies product(a, b).contains(p) by {
        let s = choose|s: Set<(A, B)>| fam.contains(s) && s.contains(p);
        let x = choose|x: A| a.contains(x) && f(x) == s;
        let y = choose|y: B| b.contains(y) && (x, y) == p;
    }
    assert(product(a, b) =~= fam.flatten());
}

pub proof fn lemma_universe_finite(terms: Set<Seq<char>>, graphs: Set<Seq<char>>)
    requires
        terms.finite(),
        graphs.finite(),
    ensures
        universe(terms, graphs).finite(),
{
    lemma_product_finite(terms, terms);
    lemma_product_finite(terms, graphs);
    lemma_product_finite(product(terms, terms), product(terms, graphs));
    let p = product(product(terms, terms), product(terms, graphs));
    let f = |x: ((Seq<char>, Seq<char>), (Seq<char>, Seq<char>))| SpecQuad { subject: x.0.0, predicate: x.0.1, object: x.1.0, graph: x.1.1 };
    p.lemma_map_finite(f);
    assert forall|q: SpecQuad| universe(terms, graphs).contains(q) implies p.map(f).contains(q) by {
        let x = ((q.subject, q.predicate), (q.object, q.graph));
        assert(p.contains(x));
        assert(f(x) == q);
    }
    vstd::set_lib::lemma_len_subset(universe(terms, graphs), p.map(f));
}

proof fn lemma_inst_pos_in_terms(
    v: SpecVarOrTerm,
    sigma: Subst,
    body: Seq<SpecTriple>,
    g: Set<SpecQuad>,
    terms: Set<Seq<char>>,
    graphs: Set<Seq<char>>,
)
    requires
        g.subset_of(universe(terms, graphs)),
        pos_consts(v).subset_of(terms),
        is_solution(body, sigma, g),
    ensures
        inst_pos(v, sigma) matches Some(x) ==> terms.contains(x),
{
    match v {
        SpecVarOrTerm::Term(t) => {
            assert(pos_consts(v).contains(const_text(t)));
        },
        SpecVarOrTerm::Var(n) => {
            if sigma.contains_key(n) {
                assert(patterns_vars(body).contains(n));
                let i = choose|i: int| 0 <= i < body.len() && pattern_has_var(body[i], n);
                assert(inst_pattern(body[i], sigma) matches Some(p) && g.contains(p));
                let p = inst_pattern(body[i], sigma).unwrap();
                assert(universe(terms, graphs).contains(p));
            }
        },
    }
}

/// The conclusions of a rule from quads of a universe stay in the universe, when the
/// universe has the rule's IRIs among its terms and the default graph among its graphs.
pub proof fn lemma_consequences_in_universe(
    r: SpecRule,
    g: Set<SpecQuad>,
    terms: Set<Seq<char>>,
    graphs: Set<Seq<char>>,
)
    requires
        g.subset_of(universe(terms, graphs)),
        patterns_consts(r.body).subset_of(terms),
        pattern_consts(r.head).subset_of(terms),
        graphs.contains(default_graph_text()),
    ensures
        consequences(r, g).subset_of(universe(terms, graphs)),
{
    assert forall|c: SpecQuad| consequences(r, g).contains(c) implies universe(terms, graphs).contains(c) by {
        let sigma = choose|sigma: Subst| is_solution(r.body, sigma, g) && inst_pattern(r.head, sigma) == Some(c);
        lemma_inst_pos_in_terms(r.head.s, sigma, r.body, g, terms, graphs);
        lemma_inst_pos_in_terms(r.head.p, sigma, r.body, g, terms, graphs);
        lemma_inst_pos_in_terms(r.head.o, sigma, r.body, g, terms, graphs);
        assert(inst_pos(r.head.s, sigma) == Some(c.subject));
        assert(inst_pos(r.head.p, sigma) == Some(c.predicate));
        assert(inst_pos(r.head.o, sigma) == Some(c.object));
    }
}

} // verus!
