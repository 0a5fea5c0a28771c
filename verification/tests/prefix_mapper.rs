use n3_reasoner::prefix_mapper::PrefixMapper;

#[test]
fn a_expands_to_rdf_type() {
    let m = PrefixMapper::new();
    assert_eq!(m.expand("a".to_string()), "<http://www.w3.org/1999/02/22-rdf-syntax-ns#type>");
}

#[test]
fn declared_prefix_expands() {
    let mut m = PrefixMapper::new();
    m.add("rdf".to_string(), "http://www.w3.org/1999/02/22-rdf-syntax-ns#".to_string());
    assert_eq!(m.expand("rdf:type".to_string()), "http://www.w3.org/1999/02/22-rdf-syntax-ns#type");
}

#[test]
fn empty_prefix_expands() {
    let mut m = PrefixMapper::new();
    m.add("".to_string(), "http://e/#".to_string());
    assert_eq!(m.expand(":N0".to_string()), "http://e/#N0");
}

#[test]
fn undeclared_prefix_is_kept() {
    let m = PrefixMapper::new();
    assert_eq!(m.expand("ssn:HasValue".to_string()), "ssn:HasValue");
    assert_eq!(m.expand("<http://test.be/pieter>".to_string()), "<http://test.be/pieter>");
    assert_eq!(m.expand("?x".to_string()), "?x");
}

#[test]
fn only_the_part_before_the_next_colon_is_kept() {
    let mut m = PrefixMapper::new();
    m.add("p".to_string(), "http://p/".to_string());
    assert_eq!(m.expand("p:a:b".to_string()), "http://p/a");
}

#[test]
fn later_declaration_replaces_earlier() {
    let mut m = PrefixMapper::new();
    m.add("p".to_string(), "http://one/".to_string());
    m.add("p".to_string(), "http://two/".to_string());
    assert_eq!(m.expand("p:x".to_string()), "http://two/x");
}

#[test]
fn redeclaring_one_prefix_keeps_the_others() {
    let mut m = PrefixMapper::new();
    m.add("p".to_string(), "http://one/".to_string());
    m.add("q".to_string(), "http://q/".to_string());
    m.add("p".to_string(), "http://two/".to_string());
    assert_eq!(m.expand("p:x".to_string()), "http://two/x");
    assert_eq!(m.expand("q:y".to_string()), "http://q/y");
}

#[test]
fn duplicate_and_clone_expand_alike() {
    let mut m = PrefixMapper::new();
    m.add("p".to_string(), "http://one/".to_string());
    let d = m.duplicate();
    let c = m.clone();
    m.add("p".to_string(), "http://two/".to_string());
    assert_eq!(d.expand("p:x".to_string()), "http://one/x");
    assert_eq!(c.expand("p:x".to_string()), "http://one/x");
    assert_eq!(m.expand("p:x".to_string()), "http://two/x");
    assert!(format!("{:?}", d).contains("http://one/"));
}
