use n3_reasoner::n3_parser::{parse, CSVParser};
use n3_reasoner::rule::{decode_rule, VarOrTerm};

#[test]
fn parse_tp() {
    let rules = parse("@prefix log: <http://www.w3.org/2000/10/swap/log#>.\n{?VaRr0 <http://test.be/pieter> ?lastVar. ?VaRr0 log:type ?lastVar.}=>{?VaRr0 ssn:HasValue ?lastVar.}").unwrap();
    println!("{:?}", rules);
    assert_eq!(rules.get(0).unwrap().body.len(), 2);
}

#[test]
fn parse_multiple_prefixes() {
    let rules = parse("@prefix log: <http://www.w3.org/2000/10/swap/log#>.\n @prefix log2: <http://www.w3.org/2000/10/swap/log2#>.\n {?VaRr0 <http://test.be/pieter> ?lastVar. ?VaRr0 log:type ?lastVar.}=>{?VaRr0 ssn:HasValue ?lastVar.}").unwrap();
    println!("{:?}", rules);
    assert_eq!(rules.get(0).unwrap().body.len(), 2);
}

#[test]
fn parse_multiple_rules() {
    let rules = parse("@prefix log: <http://www.w3.org/2000/10/swap/log#>.\n @prefix log2: <http://www.w3.org/2000/10/swap/log2#>.\n {?VaRr0 <http://test.be/pieter> ?lastVar. ?VaRr0 log:type ?lastVar.}=>{?VaRr0 ssn:HasValue ?lastVar.}\n{?s <http://test.be/pieter> ?o.}=>{?s ssn:HasValue ?o.}").unwrap();
    println!("{:?}", rules);
    assert_eq!(rules.len(), 2);
}

#[test]
fn parse_multiple_rulese_ending_with_dot() {
    let rules = parse("@prefix rdf: <http://www.w3.org/1999/02/22-rdf-syntax-ns#>.\n@prefix : <http://eulersharp.sourceforge.net/2009/12dtb/test#>.\n{?V0 rdf:type :N0} => {?V0 rdf:type :N1}.\n{?V0 rdf:type :N1} => {?V0 rdf:type :N2}.").unwrap();
    println!("{:?}", rules);
    assert_eq!(rules.len(), 2);
}

#[test]
fn parse_empty_rule() {
    let rules = parse("").unwrap();
    println!("{:?}", rules);
    assert_eq!(0, rules.len());
}

#[test]
fn parse_rule_with_multiple_spaces() {
    let input_rule = "{  ?VaRr0   <http://test.be/pieter>   ?lastVar.\n ?VaRr0 <http://www.w3.org/2000/10/swap/log#type> ?lastVar.\n}=>{ ?VaRr0  <ssn:HasValue>  ?lastVar .\n}.\n";
    let rules = parse(input_rule).unwrap();

    let rule = rules.get(0).unwrap();
    let str_rule = decode_rule(rule);
    println!("{:?}", str_rule);
    assert_eq!(input_rule.replace("?", "").replace(" ", ""), str_rule.replace(" ", ""));
}

#[test]
fn parse_rule_with_a_syntactic_sugar() {
    let input_rule = "{?VaRr0 <http://test.be/pieter> ?lastVar.\n ?VaRr0 a ?lastVar.\n}=>{?VaRr0 <ssn:HasValue> ?lastVar.\n}.\n";
    let expected_rule = "{?VaRr0 <http://test.be/pieter> ?lastVar.\n?VaRr0 <http://www.w3.org/1999/02/22-rdf-syntax-ns#type> ?lastVar.\n}=>{?VaRr0 <ssn:HasValue> ?lastVar.\n}.\n";

    let rules = parse(input_rule).unwrap();

    let rule = rules.get(0).unwrap();
    let str_rule = decode_rule(rule);
    println!("{:?}", str_rule);
    assert_eq!(expected_rule.replace("?", ""), str_rule);
}

#[test]
fn prefixed_names_expand_with_earlier_declarations_only() {
    let rules = parse("{?x ex:p ?y} => {?y ex:q ?x}.\n@prefix ex: <http://example.org/>.\n{?x ex:p ?y} => {?y ex:q ?x}.").unwrap();
    assert_eq!(rules.len(), 2);
    match &rules[0].body[0].p {
        VarOrTerm::Term(t) => assert_eq!(t, "ex:p"),
        _ => panic!("expected a term"),
    }
    match &rules[1].body[0].p {
        VarOrTerm::Term(t) => assert_eq!(t, "http://example.org/p"),
        _ => panic!("expected a term"),
    }
    match &rules[1].head.o {
        VarOrTerm::Var(v) => assert_eq!(v, "x"),
        _ => panic!("expected a variable"),
    }
}

#[test]
fn empty_head_defaults_to_spo() {
    let rules = parse("{?a <http://x/p> ?b} => {}").unwrap();
    assert_eq!(decode_rule(&rules[0]), "{a <http://x/p> b.\n}=>{s p o.\n}.\n");
}

#[test]
fn last_head_pattern_wins() {
    let rules = parse("{?a <http://x/p> ?b} => {?a <http://x/q> ?b. ?b <http://x/r> ?a}").unwrap();
    assert_eq!(decode_rule(&rules[0]), "{a <http://x/p> b.\n}=>{b <http://x/r> a.\n}.\n");
}

#[test]
fn document_statements() {
    let stmts = CSVParser::parse("@prefix p: <http://p/>.\n{?a p:x ?b} => {?b p:y ?a}").unwrap();
    assert_eq!(stmts.len(), 2);
}

#[test]
fn malformed_documents_are_refused() {
    assert!(CSVParser::parse("{?a <http://x/p> ?b} =>").is_none());
    assert!(CSVParser::parse("@prefix p <http://p/>.").is_none());
    assert!(CSVParser::parse("{?a <http://x/p>} => {?a <http://x/p> ?a}").is_none());
    assert!(CSVParser::parse("hello").is_none());
    assert!(CSVParser::parse("{? <http://x/p> ?b} => {}").is_none());
    assert!(CSVParser::parse("@prefixp: <http://p/>.").is_none());
}

#[test]
fn prefix_applies_only_to_later_rules() {
    let rules = parse("{?a p:x ?b} => {?a p:y ?b}.\n@prefix p: <http://one/>.\n{?a p:x ?b} => {?a p:y ?b}.\n@prefix p: <http://two/>.\n{?a p:x ?b} => {?a p:y ?b}.").unwrap();
    assert_eq!(rules.len(), 3);
    let pred = |i: usize| match &rules[i].body[0].p {
        VarOrTerm::Term(t) => t.clone(),
        VarOrTerm::Var(v) => v.clone(),
    };
    assert_eq!(pred(0), "p:x");
    assert_eq!(pred(1), "http://one/x");
    assert_eq!(pred(2), "http://two/x");
}
