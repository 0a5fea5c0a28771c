# n3_reasoner

Forward-chaining reasoning with N3 rules over an in-memory RDF store (`oxigraph`),
written in Verus.

## Layout

- `src/text.rs`: character classes and scanning, the basis of the grammar.
- `src/prefix_mapper.rs`: prefix declarations and the expansion of prefixed names.
- `src/n3_parser.rs`: the grammar of N3 rule documents as spec functions, a parser
  proved to follow it, and the reading of statements into rules.
- `src/rule.rs`: variables, terms, triple patterns and rules, and writing a rule out.
- `src/rule_index.rs`: the index from quads to the rules whose body may match them.
- `src/semantics.rs`: what a rule concludes from a set of quads, and the SPARQL text
  that asks for it.
- `src/rdf_store.rs`: the operations of `oxigraph` (and of `rio_turtle`) that the
  reasoner calls, each with the contract it is trusted to meet.
- `src/binding.rs`: bindings of variables to terms.
- `src/reasoning_store.rs`: the store of facts and rules, materialization (proved to
  compute the least set closed under the rules), backward matching of rule heads, and
  the laws that relate these operations.
- `app/lib.rs`: reading from `BufRead`, failing loudly on bad input, printing.
