use n3_reasoner::binding::Binding;
use n3_reasoner::reasoning_store::{construct_query_text, convert_to_query, ReasoningStore};
use n3_reasoner::n3_parser::CSVParser;
use n3_reasoner::rule::{Rule, Triple, VarOrTerm};

fn abox_has(store: &ReasoningStore, s: &str, p: &str, o: &str) -> bool {
    store.abox_quads().iter().any(|q| q.subject() == s && q.predicate() == p && q.object() == o)
}

#[test]
fn test_add_abox() {
    let mut store = ReasoningStore::new();
    store.load_abox(b"<http://example2.com/a> <http://rdf/type> <http://test.com/C1> .".as_ref()).unwrap();
    assert_eq!(store.len_abox(), 1);
}

#[test]
fn test_add_rule() {
    let mut store = ReasoningStore::new();
    store.parse_and_add_rule("@prefix test: <http://www.test.be/test#>.\n{?VaRr0 <http://test.be/pieter> ?lastVar. ?VaRr0 test:type ?lastVar.}=>{?VaRr0 test:hasValue ?lastVar.}");
    assert_eq!(store.len_rules(), 1);
}

#[test]
fn test_single_rule() {
    let mut store = ReasoningStore::new();
    store.parse_and_add_rule("@prefix test: <http://www.test.be/test#>.\n @prefix rdf: <http://www.w3.org/1999/02/22-rdf-syntax-ns#>.\n {?s rdf:type test:SubClass. }=>{?s rdf:type test:SuperType.}");
    store.load_abox(b"<http://example2.com/a> <http://www.w3.org/1999/02/22-rdf-syntax-ns#type> <http://www.test.be/test#SubClass> .".as_ref()).unwrap();
    assert_eq!(store.len_abox(), 1);
    store.materialize();
    assert_eq!(store.len_abox(), 2);
    assert!(abox_has(&store, "<http://example2.com/a>", "<http://www.w3.org/1999/02/22-rdf-syntax-ns#type>", "<http://www.test.be/test#SuperType>"));
}

#[test]
fn test_join_rule() {
    let mut store = ReasoningStore::new();
    store.parse_and_add_rule("@prefix test: <http://www.test.be/test#>.\n @prefix rdf: <http://www.w3.org/1999/02/22-rdf-syntax-ns#>.\n {?s rdf:type test:SubClass. ?s test:hasRef ?o.}=>{?s rdf:type test:SuperType.}");
    store.load_abox(b"<http://example2.com/a> <http://www.w3.org/1999/02/22-rdf-syntax-ns#type> <http://www.test.be/test#SubClass> .".as_ref()).unwrap();
    store.load_abox(b"<http://example2.com/a> <http://www.test.be/test#hasRef> <http://example2.com/b> .".as_ref()).unwrap();

    assert_eq!(store.len_abox(), 2);
    store.materialize();
    assert_eq!(store.len_abox(), 3);
    assert!(abox_has(&store, "<http://example2.com/a>", "<http://www.w3.org/1999/02/22-rdf-syntax-ns#type>", "<http://www.test.be/test#SuperType>"));
}

#[test]
fn test_long_join_rule() {
    let mut store = ReasoningStore::new();
    store.parse_and_add_rule("@prefix test: <http://www.test.be/test#>.\n @prefix rdf: <http://www.w3.org/1999/02/22-rdf-syntax-ns#>.\n {?s rdf:type test:SubClass. ?s test:hasRef ?o. ?o test:hasRef ?o2. ?o2 rdf:type test:SubClass.}=>{?s rdf:type test:SuperType.}");
    store.load_abox(b"<http://example2.com/a> <http://www.w3.org/1999/02/22-rdf-syntax-ns#type> <http://www.test.be/test#SubClass> .".as_ref()).unwrap();
    store.load_abox(b"<http://example2.com/b> <http://www.w3.org/1999/02/22-rdf-syntax-ns#type> <http://www.test.be/test#SubClass> .".as_ref()).unwrap();
    store.load_abox(b"<http://example2.com/c> <http://www.w3.org/1999/02/22-rdf-syntax-ns#type> <http://www.test.be/test#SubClass> .".as_ref()).unwrap();
    store.load_abox(b"<http://example2.com/a> <http://www.test.be/test#hasRef> <http://example2.com/b> .".as_ref()).unwrap();
    store.load_abox(b"<http://example2.com/b> <http://www.test.be/test#hasRef> <http://example2.com/c> .".as_ref()).unwrap();

    assert_eq!(store.len_abox(), 5);
    store.materialize();
    assert_eq!(store.len_abox(), 6);
    assert!(abox_has(&store, "<http://example2.com/a>", "<http://www.w3.org/1999/02/22-rdf-syntax-ns#type>", "<http://www.test.be/test#SuperType>"));
}

#[test]
fn test_find_backward_rules() {
    let mut store = ReasoningStore::new();
    store.parse_and_add_rule("@prefix test: <http://www.test.be/test#>.\n @prefix rdf: <http://www.w3.org/1999/02/22-rdf-syntax-ns#>.\n \
    {?s rdf:type test:SubClass. ?s test:hasRef ?o. ?o test:hasRef ?o2. ?o2 rdf:type test:SubClass.}=>{?s rdf:type test:SuperType.}");
    //match
    let backward_head = Triple::from("?s".to_string(), "http://www.w3.org/1999/02/22-rdf-syntax-ns#type".to_string(), "http://www.test.be/test#SuperType".to_string());
    let sub_rules: Vec<Rule> = store.find_subrules(&backward_head);
    assert_eq!(sub_rules.len(), 1);
    // no match
    let backward_head = Triple::from("?s".to_string(), "http://www.w3.org/1999/02/22-rdf-syntax-ns#type".to_string(), "http://www.test.be/test#SuperTypeNotFound".to_string());
    let sub_rules: Vec<Rule> = store.find_subrules(&backward_head);
    assert_eq!(sub_rules.len(), 0);
}

#[test]
fn test_find_backward_rules_with_diff_var_names() {
    let mut store = ReasoningStore::new();
    store.parse_and_add_rule("@prefix test: <http://www.test.be/test#>.\n @prefix rdf: <http://www.w3.org/1999/02/22-rdf-syntax-ns#>.\n \
    {?s rdf:type test:SubClass. ?s test:hasRef ?o. ?o test:hasRef ?o2. ?o2 rdf:type test:SubClass.}=>{?s rdf:type test:SuperType.}");
    // diff variable names
    let backward_head = Triple::from("?newVar".to_string(), "http://www.w3.org/1999/02/22-rdf-syntax-ns#type".to_string(), "http://www.test.be/test#SuperType".to_string());
    let sub_rules: Vec<Rule> = store.find_subrules(&backward_head);
    assert_eq!(sub_rules.len(), 1);
}

#[test]
fn test_eval_rule_atom() {
    let mut store = ReasoningStore::new();
    store.load_abox(b"<http://example2.com/a> <http://www.w3.org/1999/02/22-rdf-syntax-ns#type> <http://www.test.be/test#SubClass> .".as_ref()).unwrap();

    let rule_atom = Triple::from("?s".to_string(), "http://www.w3.org/1999/02/22-rdf-syntax-ns#type".to_string(), "http://www.test.be/test#SubClass".to_string());
    let result_bindings = store.eval_rule_atom(&rule_atom);
    let mut binding: Binding = Binding::new();
    binding.add("s", "<http://example2.com/a>".to_string());
    assert_eq!(binding, result_bindings);
}

#[test]
fn tbox_subclass_axioms_become_rules() {
    let mut store = ReasoningStore::new();
    store.load_tbox(b"<http://e/A> <http://www.w3.org/2000/01/rdf-schema#subClassOf> <http://e/B> .\n<http://e/A> <http://e/other> <http://e/C> .".as_ref());
    assert_eq!(store.len_rules(), 1);
    store.load_abox(b"<http://e/x> <http://www.w3.org/1999/02/22-rdf-syntax-ns#type> <http://e/A> .".as_ref()).unwrap();
    store.materialize();
    assert!(abox_has(&store, "<http://e/x>", "<http://www.w3.org/1999/02/22-rdf-syntax-ns#type>", "<http://e/B>"));
    assert_eq!(store.len_abox(), 2);
}

#[test]
fn tbox_with_syntax_error_adds_nothing() {
    let mut store = ReasoningStore::new();
    let ok = store.try_load_tbox(b"<http://e/A> <http://www.w3.org/2000/01/rdf-schema#subClassOf> .".as_ref());
    assert!(!ok);
    assert_eq!(store.len_rules(), 0);
}

#[test]
fn try_load_tbox_reports_success() {
    let mut store = ReasoningStore::new();
    let ok = store.try_load_tbox(b"<http://e/A> <http://www.w3.org/2000/01/rdf-schema#subClassOf> <http://e/B> .\n<http://e/B> <http://www.w3.org/2000/01/rdf-schema#subClassOf> <http://e/C> .".as_ref());
    assert!(ok);
    assert_eq!(store.len_rules(), 2);
    let rules = store.find_subrules(&Triple::from("?x".to_string(), "http://www.w3.org/1999/02/22-rdf-syntax-ns#type".to_string(), "http://e/C".to_string()));
    assert_eq!(rules.len(), 1);
    assert!(matches!(&rules[0].body[0].o, VarOrTerm::Term(t) if t == "http://e/B"));
}

#[test]
fn tbox_literal_superclass_is_skipped() {
    let mut store = ReasoningStore::new();
    store.load_tbox(b"<http://e/A> <http://www.w3.org/2000/01/rdf-schema#subClassOf> \"B\" .".as_ref());
    assert_eq!(store.len_rules(), 0);
}

#[test]
fn chained_rules_reach_a_fixpoint() {
    let mut store = ReasoningStore::new();
    store.parse_and_add_rule("@prefix rdf: <http://www.w3.org/1999/02/22-rdf-syntax-ns#>.\n@prefix : <http://e/#>.\n{?V0 rdf:type :N0} => {?V0 rdf:type :N1}.\n{?V0 rdf:type :N1} => {?V0 rdf:type :N2}.");
    store.load_abox(b"<http://e/a> <http://www.w3.org/1999/02/22-rdf-syntax-ns#type> <http://e/#N0> .".as_ref()).unwrap();
    store.materialize();
    assert_eq!(store.len_abox(), 3);
    assert!(abox_has(&store, "<http://e/a>", "<http://www.w3.org/1999/02/22-rdf-syntax-ns#type>", "<http://e/#N2>"));
    // a second materialization changes nothing
    store.materialize();
    assert_eq!(store.len_abox(), 3);
}

#[test]
fn recursive_rule_terminates() {
    let mut store = ReasoningStore::new();
    store.parse_and_add_rule("{?a <http://e/p> ?b. ?b <http://e/p> ?c} => {?a <http://e/p> ?c}.");
    store.load_abox(b"<http://e/1> <http://e/p> <http://e/2> .\n<http://e/2> <http://e/p> <http://e/3> .\n<http://e/3> <http://e/p> <http://e/4> .".as_ref()).unwrap();
    store.materialize();
    assert_eq!(store.len_abox(), 6);
    assert!(abox_has(&store, "<http://e/1>", "<http://e/p>", "<http://e/4>"));
}

#[test]
fn rule_with_relative_iri_concludes_nothing() {
    let mut store = ReasoningStore::new();
    store.parse_and_add_rule("{?a <http://e/p> ?b} => {?a relative ?b}.");
    store.load_abox(b"<http://e/1> <http://e/p> <http://e/2> .".as_ref()).unwrap();
    store.materialize();
    assert_eq!(store.len_abox(), 1);
}

#[test]
fn construct_query_text_of_rule() {
    let mut store = ReasoningStore::new();
    store.parse_and_add_rule("{?a <http://e/p> ?b} => {?b <http://e/q> ?a}.");
    let rules = store.find_subrules(&Triple::from("?x".to_string(), "<http://e/q>".to_string(), "?y".to_string()));
    assert_eq!(rules.len(), 1);
    assert_eq!(construct_query_text(&rules[0]), "CONSTRUCT { ?b <http://e/q> ?a .  } WHERE { ?a <http://e/p> ?b .  }");
    assert!(convert_to_query(&rules[0]).is_ok());
}

#[test]
fn eval_rule_atom_collects_every_solution() {
    let mut store = ReasoningStore::new();
    store.load_abox(b"<http://e/1> <http://e/p> <http://e/2> .\n<http://e/3> <http://e/p> \"lit\" .".as_ref()).unwrap();
    let atom = Triple::from("?s".to_string(), "http://e/p".to_string(), "?o".to_string());
    let b = store.eval_rule_atom(&atom);
    let mut subjects = b.get("s").unwrap();
    subjects.sort();
    assert_eq!(subjects, vec!["<http://e/1>".to_string(), "<http://e/3>".to_string()]);
    let mut objects = b.get("o").unwrap();
    objects.sort();
    assert_eq!(objects, vec!["\"lit\"".to_string(), "<http://e/2>".to_string()]);
    assert!(b.get("x").is_none());
}

#[test]
fn syntax_error_in_rules_is_detected_before_adding() {
    let text = "{?a <http://e/p> ?b} =>";
    assert!(CSVParser::parse(text).is_none());
    let mut store = ReasoningStore::new();
    if CSVParser::parse(text).is_some() {
        store.parse_and_add_rule(text);
    }
    assert_eq!(store.len_rules(), 0);
}

#[test]
fn try_eval_rule_atom_refuses_a_query_the_parser_refuses() {
    let mut store = ReasoningStore::new();
    store.load_abox(b"<http://e/1> <http://e/p> <http://e/2> .".as_ref()).unwrap();
    let atom = Triple::from("?s".to_string(), "relative".to_string(), "?o".to_string());
    assert!(store.try_eval_rule_atom(&atom).is_none());
    let atom = Triple::from("?s".to_string(), "http://e/p".to_string(), "?o".to_string());
    let b = store.try_eval_rule_atom(&atom).unwrap();
    assert_eq!(b.get("s").unwrap(), vec!["<http://e/1>".to_string()]);
    assert_eq!(b.get("o").unwrap(), vec!["<http://e/2>".to_string()]);
}

#[test]
fn more_rules_never_retract_conclusions() {
    let abox = b"<http://e/a> <http://www.w3.org/1999/02/22-rdf-syntax-ns#type> <http://e/#N0> .";
    let mut fewer = ReasoningStore::new();
    fewer.parse_and_add_rule("@prefix rdf: <http://www.w3.org/1999/02/22-rdf-syntax-ns#>.\n@prefix : <http://e/#>.\n{?V0 rdf:type :N0} => {?V0 rdf:type :N1}.");
    fewer.load_abox(abox.as_ref()).unwrap();
    fewer.materialize();
    let mut more = ReasoningStore::new();
    more.parse_and_add_rule("@prefix rdf: <http://www.w3.org/1999/02/22-rdf-syntax-ns#>.\n@prefix : <http://e/#>.\n{?V0 rdf:type :N0} => {?V0 rdf:type :N1}.\n{?V0 rdf:type :N0} => {?V0 rdf:type :N3}.");
    more.load_abox(abox.as_ref()).unwrap();
    more.materialize();
    for q in fewer.abox_quads() {
        assert!(abox_has(&more, q.subject(), q.predicate(), q.object()));
    }
    assert_eq!(fewer.len_abox(), 2);
    assert_eq!(more.len_abox(), 3);
}

#[test]
fn more_facts_never_retract_conclusions() {
    let rules = "{?a <http://e/p> ?b. ?b <http://e/p> ?c} => {?a <http://e/p> ?c}.";
    let mut small = ReasoningStore::new();
    small.parse_and_add_rule(rules);
    small.load_abox(b"<http://e/1> <http://e/p> <http://e/2> .\n<http://e/2> <http://e/p> <http://e/3> .".as_ref()).unwrap();
    small.materialize();
    let mut large = ReasoningStore::new();
    large.parse_and_add_rule(rules);
    large.load_abox(b"<http://e/1> <http://e/p> <http://e/2> .\n<http://e/2> <http://e/p> <http://e/3> .\n<http://e/3> <http://e/p> <http://e/4> .".as_ref()).unwrap();
    large.materialize();
    assert_eq!(small.len_abox(), 3);
    for q in small.abox_quads() {
        assert!(abox_has(&large, q.subject(), q.predicate(), q.object()));
    }
}

#[test]
fn subclass_chain_from_terminology() {
    let mut store = ReasoningStore::new();
    assert!(store.try_load_tbox(b"<http://e/A> <http://www.w3.org/2000/01/rdf-schema#subClassOf> <http://e/B> .\n<http://e/B> <http://www.w3.org/2000/01/rdf-schema#subClassOf> <http://e/C> .".as_ref()));
    store.load_abox(b"<http://e/x> <http://www.w3.org/1999/02/22-rdf-syntax-ns#type> <http://e/A> .".as_ref()).unwrap();
    store.materialize();
    assert!(abox_has(&store, "<http://e/x>", "<http://www.w3.org/1999/02/22-rdf-syntax-ns#type>", "<http://e/B>"));
    assert!(abox_has(&store, "<http://e/x>", "<http://www.w3.org/1999/02/22-rdf-syntax-ns#type>", "<http://e/C>"));
    assert_eq!(store.len_abox(), 3);
}

#[test]
fn binding_add_appends_to_its_variable_only() {
    let mut b = Binding::new();
    b.add("s", "<http://e/1>".to_string());
    b.add("o", "<http://e/2>".to_string());
    b.add("s", "<http://e/3>".to_string());
    assert_eq!(b.get("s").unwrap(), vec!["<http://e/1>".to_string(), "<http://e/3>".to_string()]);
    assert_eq!(b.get("o").unwrap(), vec!["<http://e/2>".to_string()]);
    assert!(b.get("p").is_none());
}

#[test]
fn load_abox_reports_a_syntax_error() {
    let mut store = ReasoningStore::new();
    assert!(store.load_abox(b"<http://e/1> <http://e/p> .".as_ref()).is_err());
    assert!(store.load_abox(b"<http://e/1> <http://e/p> <http://e/2> .".as_ref()).is_ok());
    assert_eq!(store.len_abox(), 1);
}

#[test]
fn load_abox_holds_every_ground_quad() {
    let mut store = ReasoningStore::new();
    store.load_abox(b"<http://e/1> <http://e/p> _:b .\n<http://e/g> { <http://e/2> <http://e/p> \"x\" . }".as_ref()).unwrap();
    assert_eq!(store.len_abox(), 2);
    assert!(store.abox_quads().iter().any(|q| q.subject() == "<http://e/2>" && q.object() == "\"x\"" && q.graph() == "<http://e/g>"));
    assert!(store.abox_quads().iter().any(|q| q.subject() == "<http://e/1>" && q.object().starts_with("_:")));
}

#[test]
fn load_abox_without_blank_nodes_adds_just_its_quads() {
    let mut store = ReasoningStore::new();
    store.load_abox(b"<http://e/1> <http://e/p> <http://e/2> .\n<http://e/1> <http://e/p> <http://e/2> .\n<http://e/3> <http://e/p> \"v\"@en .".as_ref()).unwrap();
    assert_eq!(store.len_abox(), 2);
    assert!(abox_has(&store, "<http://e/3>", "<http://e/p>", "\"v\"@en"));
}

#[test]
fn eval_rule_atom_lists_each_solution_once() {
    let mut store = ReasoningStore::new();
    store.load_abox(b"<http://e/1> <http://e/p> <http://e/2> .\n<http://e/1> <http://e/p> <http://e/3> .\n<http://e/1> <http://e/q> <http://e/2> .".as_ref()).unwrap();
    let atom = Triple::from("?s".to_string(), "http://e/p".to_string(), "?o".to_string());
    let b = store.eval_rule_atom(&atom);
    assert_eq!(b.get("s").unwrap(), vec!["<http://e/1>".to_string(), "<http://e/1>".to_string()]);
    assert_eq!(b.get("o").unwrap().len(), 2);
}

#[test]
fn rules_with_non_ascii_variable_names_fire() {
    let mut store = ReasoningStore::new();
    store.add_rule(Rule {
        body: vec![Triple::from("?été".to_string(), "http://e/p".to_string(), "?ö".to_string())],
        head: Triple::from("?ö".to_string(), "http://e/q".to_string(), "?été".to_string()),
    });
    store.load_abox(b"<http://e/1> <http://e/p> <http://e/2> .".as_ref()).unwrap();
    store.materialize();
    assert!(abox_has(&store, "<http://e/2>", "<http://e/q>", "<http://e/1>"));
    let b = store.eval_rule_atom(&Triple::from("?été".to_string(), "http://e/p".to_string(), "?ö".to_string()));
    assert_eq!(b.get("été").unwrap(), vec!["<http://e/1>".to_string()]);
}

#[test]
fn rules_only_accumulate_over_calls() {
    let mut store = ReasoningStore::new();
    store.add_rule(Rule {
        body: vec![Triple::from("?s".to_string(), "http://e/p".to_string(), "?o".to_string())],
        head: Triple::from("?o".to_string(), "http://e/p".to_string(), "?s".to_string()),
    });
    store.parse_and_add_rule("@prefix e: <http://e/>.\n{?s e:a ?o} => {?s e:b ?o}.\n{?s e:b ?o} => {?s e:c ?o}.");
    store.load_abox(b"<http://e/1> <http://e/a> <http://e/2> .".as_ref()).unwrap();
    store.materialize();
    store.load_tbox(b"<http://e/A> <http://www.w3.org/2000/01/rdf-schema#subClassOf> <http://e/B> .\n<http://e/A> <http://e/r> <http://e/B> .".as_ref());
    assert_eq!(store.len_rules(), 1 + 2 + 1);
}
