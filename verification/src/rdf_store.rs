//! The in-memory RDF store of `oxigraph`, and the few of its operations that the
//! reasoner uses, each with what it is trusted to do.

use vstd::prelude::*;

use oxigraph::io::DatasetFormat;
use oxigraph::model::{GraphName, NamedNode, Quad};
use oxigraph::sparql::{Query, QueryResults};
use oxigraph::MemoryStore;
use rio_api::parser::TriplesParser;
use rio_turtle::{TurtleError, TurtleParser};

use crate::semantics::{
    consequences, construct_text, is_solution, select_text, sparql_safe_pattern,
    sparql_safe_rule, SpecQuad, Subst,
};
use crate::rule::{SpecRule, SpecTriple};

verus! {

#[verifier::external_type_specification]
#[verifier::external_body]
pub struct ExMemoryStore(MemoryStore);

#[verifier::external_type_specification]
#[verifier::external_body]
pub struct ExQuad(Quad);

#[verifier::external_type_specification]
#[verifier::external_body]
pub struct ExQuery(Query);

#[verifier::external_type_specification]
#[verifier::external_body]
pub struct ExSparqlParseError(oxigraph::sparql::ParseError);

#[verifier::external_type_specification]
#[verifier::external_body]
pub struct ExIoError(std::io::Error);

/// The quads that a store holds, each by the N-Triples texts of its terms.
pub uninterp spec fn store_contents(store: MemoryStore) -> Set<SpecQuad>;

/// Whether the SPARQL parser of `oxigraph` accepts `query` (with no base IRI).
pub uninterp spec fn sparql_accepts(query: Seq<char>) -> bool;

/// The triples of a Turtle document, each position by its N-Triples text, or `None`
/// where the document does not parse.
pub uninterp spec fn turtle_triples(data: Seq<u8>) -> Option<Seq<(Seq<char>, Seq<char>, Seq<char>)>>;

/// Whether the TriG parser of `rio_turtle` (with no base IRI) reads `data` to its end
/// without a syntax error.
pub uninterp spec fn trig_accepts(data: Seq<u8>) -> bool;

/// The quads of the TriG document `data` that hold no blank node, each by the N-Triples
/// texts of its terms as the store writes them (graph `DEFAULT` for the default graph).
pub uninterp spec fn trig_ground_quads(data: Seq<u8>) -> Set<SpecQuad>;

/// Whether some quad of the TriG document `data` holds a blank node (a graph name
/// included).
pub uninterp spec fn trig_has_blank_node(data: Seq<u8>) -> bool;

/// Whether some position of the quad (graph name included) is a blank node.
pub open spec fn has_blank_node(q: SpecQuad) -> bool {
    exists|t: Seq<char>|
        (t == q.subject || t == q.predicate || t == q.object || t == q.graph) && t.len() > 1
            && t[0] == '_' && t[1] == ':'
}

/// Whether `iri` is an absolute IRI.
pub uninterp spec fn valid_iri(iri: Seq<char>) -> bool;

/// A quad read from a store: the `oxigraph` quad together with the texts of its terms.
/// Only the functions of this module build one, from a quad that a store gave out, so
/// the texts are those of the quad.
pub struct GroundQuad {
    quad: Quad,
    subject: String,
    predicate: String,
    object: String,
    graph: String,
}

impl View for GroundQuad {
    type V = SpecQuad;

    closed spec fn view(&self) -> SpecQuad {
        SpecQuad {
            subject: self.subject@,
            predicate: self.predicate@,
            object: self.object@,
            graph: self.graph@,
        }
    }
}

impl GroundQuad {
    /// The N-Triples text of the subject.
    pub fn subject(&self) -> (r: &str)
        ensures
            r@ == self@.subject,
    {
        self.subject.as_str()
    }

    /// The N-Triples text of the predicate.
    pub fn predicate(&self) -> (r: &str)
        ensures
            r@ == self@.predicate,
    {
        self.predicate.as_str()
    }

    /// The N-Triples text of the object.
    pub fn object(&self) -> (r: &str)
        ensures
            r@ == self@.object,
    {
        self.object.as_str()
    }

    /// The text of the graph name, `DEFAULT` for the default graph.
    pub fn graph(&self) -> (r: &str)
        ensures
            r@ == self@.graph,
    {
        self.graph.as_str()
    }
}

pub open spec fn quads_view(v: Seq<GroundQuad>) -> Seq<SpecQuad> {
    v.map_values(|q: GroundQuad| q@)
}

/// The view of a solution: the map from each variable name to the text of its term.
pub open spec fn solution_map(pairs: Seq<(String, String)>) -> Subst
    decreases pairs.len(),
{
    if pairs.len() == 0 {
        Map::empty()
    } else {
        solution_map(pairs.drop_last()).insert(pairs.last().0@, pairs.last().1@)
    }
}

/// `sols` are the solutions of the single pattern `t` in `g`: each solution of `t` in `g` is
/// one of them, each of them is one, no two are the same, and no solution names a
/// variable twice.
pub open spec fn are_solutions_of(t: SpecTriple, sols: Seq<Vec<(String, String)>>, g: Set<SpecQuad>) -> bool {
    &&& forall|sigma: Subst|
        is_solution(seq![t], sigma, g) <==> exists|i: int|
            0 <= i < sols.len() && #[trigger] solution_map(sols[i]@) == sigma
    &&& forall|i: int, j: int|
        #![trigger solution_map(sols[i]@), solution_map(sols[j]@)]
        0 <= i < j < sols.len() ==> solution_map(sols[i]@) != solution_map(sols[j]@)
    &&& forall|i: int, a: int, b: int|
        #![trigger sols[i]@[a], sols[i]@[b]]
        0 <= i < sols.len() && 0 <= a < b < sols[i]@.len() ==> sols[i]@[a].0@ != sols[i]@[b].0@
}

/// `MemoryStore::new`: a store that holds nothing.
#[verifier::external_body]
pub(crate) fn new_memory_store() -> (store: MemoryStore)
    ensures
        store_contents(store) == Set::<SpecQuad>::empty(),
{
    MemoryStore::new()
}

/// `MemoryStore::len`: the number of quads held.
#[verifier::external_body]
pub(crate) fn store_len(store: &MemoryStore) -> (n: usize)
    ensures
        n == store_contents(*store).len(),
{
    store.len()
}

/// `MemoryStore::contains`: whether the store holds the quad.
#[verifier::external_body]
pub(crate) fn store_contains(store: &MemoryStore, q: &GroundQuad) -> (b: bool)
    ensures
        b == store_contents(*store).contains(q@),
{
    store.contains(&q.quad)
}

/// `MemoryStore::insert`: the store holds the quad afterwards, and nothing else changes.
#[verifier::external_body]
pub(crate) fn store_insert(store: &mut MemoryStore, q: &GroundQuad)
    ensures
        store_contents(*final(store)) == store_contents(*old(store)).insert(q@),
{
    store.insert(q.quad.clone())
}

/// `MemoryStore::clear`: the store holds nothing afterwards.
#[verifier::external_body]
pub(crate) fn store_clear(store: &mut MemoryStore)
    ensures
        store_contents(*final(store)) == Set::<SpecQuad>::empty(),
{
    store.clear()
}

/// `MemoryStore::iter`: every quad held, each at least once, and nothing else.
#[verifier::external_body]
pub(crate) fn store_quads(store: &MemoryStore) -> (v: Vec<GroundQuad>)
    ensures
        forall|i: int| 0 <= i < v.len() ==> store_contents(*store).contains(#[trigger] v@[i]@),
        forall|q: SpecQuad|
            store_contents(*store).contains(q) ==> exists|i: int| 0 <= i < v.len() && v@[i]@ == q,
{
    store.iter().map(|q| GroundQuad {
        subject: q.subject.to_string(),
        predicate: q.predicate.to_string(),
        object: q.object.to_string(),
        graph: q.graph_name.to_string(),
        quad: q,
    }).collect()
}

/// `MemoryStore::query` on a CONSTRUCT query: `None` where the query fails; otherwise
/// its triples, as default-graph quads (triples that fail to evaluate are left out).
/// For the query text of a rule that SPARQL can write as itself, the query fails just
/// when the text does not parse, and the triples are the rule's conclusions from the
/// default graph of the store (SPARQL 1.1, sections 10.2 and 16.2).
#[verifier::external_body]
pub(crate) fn store_construct(store: &MemoryStore, query: &str) -> (r: Option<Vec<GroundQuad>>)
    ensures
        forall|rule: SpecRule|
            sparql_safe_rule(rule) && #[trigger] construct_text(rule) == query@ ==> {
                &&& (r is Some <==> sparql_accepts(query@))
                &&& (r matches Some(v) ==> quads_view(v@).to_set() == consequences(
                    rule,
                    store_contents(*store),
                ))
            },
{
    match store.query(query) {
        Ok(QueryResults::Graph(triples)) => Some(triples.filter_map(|t| t.ok()).map(|t| {
            let q = Quad::new(t.subject, t.predicate, t.object, GraphName::DefaultGraph);
            GroundQuad {
                subject: q.subject.to_string(),
                predicate: q.predicate.to_string(),
                object: q.object.to_string(),
                graph: q.graph_name.to_string(),
                quad: q,
            }
        }).collect()),
        _ => None,
    }
}

/// `MemoryStore::query` on a SELECT query: `None` where the query fails; otherwise its
/// solutions (solutions that fail to evaluate are left out), each as the pairs of a
/// variable name and the N-Triples text of its term. For the query text of a pattern that
/// SPARQL can write as itself, the query fails just when the text does not parse, and the
/// solutions are those of the pattern in the default graph of the store, each once (the
/// pattern is matched against each quad once, and a solution fixes the quad); the
/// variables of a solution are distinct (`SELECT *` takes them from a set).
#[verifier::external_body]
pub(crate) fn store_select(store: &MemoryStore, query: &str) -> (r: Option<
    Vec<Vec<(String, String)>>,
>)
    ensures
        forall|t: SpecTriple|
            sparql_safe_pattern(t) && #[trigger] select_text(t) == query@ ==> {
                &&& (r is Some <==> sparql_accepts(query@))
                &&& (r matches Some(v) ==> are_solutions_of(t, v@, store_contents(*store)))
            },
{
    match store.query(query) {
        Ok(QueryResults::Solutions(solutions)) => Some(solutions.filter_map(|s| s.ok()).map(
            |s| s.iter().map(|(v, t)| (v.as_str().to_string(), t.to_string())).collect(),
        ).collect()),
        _ => None,
    }
}

/// `MemoryStore::load_dataset` with TriG data and no base IRI. The store's own inserts
/// cannot fail, so the call fails just on a syntax error; quads are only added (those read
/// before a syntax error stay), and the store stays finite. Where it succeeds, every quad
/// of the document that holds no blank node is held afterwards, and every quad added that
/// holds no blank node is one of them; a document with no blank node adds just its quads.
/// Blank nodes are given fresh identifiers at random, so which quads with blank nodes are
/// added is left unsaid.
#[verifier::external_body]
pub(crate) fn store_load_trig(store: &mut MemoryStore, data: &[u8]) -> (r: Result<
    (),
    std::io::Error,
>)
    ensures
        r is Ok <==> trig_accepts(data@),
        store_contents(*old(store)).subset_of(store_contents(*final(store))),
        store_contents(*old(store)).finite() ==> store_contents(*final(store)).finite(),
        r is Ok ==> trig_ground_quads(data@).subset_of(store_contents(*final(store))),
        r is Ok ==> forall|q: SpecQuad|
            #![trigger store_contents(*final(store)).contains(q)]
            store_contents(*final(store)).contains(q) && !store_contents(*old(store)).contains(q)
                && !has_blank_node(q) ==> trig_ground_quads(data@).contains(q),
        r is Ok && !trig_has_blank_node(data@) ==> store_contents(*final(store))
            == store_contents(*old(store)) + trig_ground_quads(data@),
{
    store.load_dataset(data, DatasetFormat::TriG, None)
}

/// `Query::parse` with no base IRI: succeeds just when the parser accepts the text.
#[verifier::external_body]
pub(crate) fn parse_query(query: &str) -> (r: Result<Query, oxigraph::sparql::ParseError>)
    ensures
        r is Ok <==> sparql_accepts(query@),
{
    Query::parse(query, None)
}

/// `TurtleParser::parse_all` with no base IRI: the triples of the document, each position
/// by its N-Triples text, or `None` where the document does not parse.
#[verifier::external_body]
pub(crate) fn parse_turtle(data: &[u8]) -> (r: Option<Vec<(String, String, String)>>)
    ensures
        match r {
            Some(v) => turtle_triples(data@) == Some(
                v@.map_values(|t: (String, String, String)| (t.0@, t.1@, t.2@)),
            ),
            None => turtle_triples(data@) is None,
        },
{
    let mut triples = Vec::new();
    let parsed: Result<(), TurtleError> = TurtleParser::new(data, None).parse_all(&mut |t| {
        triples.push((t.subject.to_string(), t.predicate.to_string(), t.object.to_string()));
        Ok(())
    });
    match parsed {
        Ok(()) => Some(triples),
        Err(_) => None,
    }
}

/// `NamedNode::new`: whether `iri` is accepted as an absolute IRI.
#[verifier::external_body]
pub(crate) fn iri_is_valid(iri: &str) -> (b: bool)
    ensures
        b == valid_iri(iri@),
{
    NamedNode::new(iri).is_ok()
}

} // verus!
