//! The grammar of N3 rule documents, and the reading of a document into rules.
//!
//! A document is a sequence of statements, separated by whitespace:
//! a prefix declaration `@prefix p: <iri> .` or a rule `{ body } => { head }`, optionally
//! followed by `.`. A body or head is a list of triple patterns separated by `.`
//! (a trailing `.` is allowed); the three positions of a pattern are separated by
//! whitespace, and each is a variable `?name`, an IRI reference `<...>`, or a
//! prefixed name such as `rdf:type`, `:N0` or `a`.

use vstd::prelude::*;

use crate::prefix_mapper::{colon_free, law_declared_prefix_expands, spec_expand, PrefixMapper};
use crate::rule::{rules_view, spec_var_or_term, Rule, SpecRule, SpecTriple, SpecVarOrTerm, Triple};
use vstd::string::StringExecFns;
use crate::text::{chars_of, lemma_scan, scan, scan_class, string_from_chars, CharClass};

verus! {

/// The three position texts of a triple pattern, as written in the document.
pub struct RawTriple {
    pub subject: String,
    pub property: String,
    pub object: String,
}

pub struct SpecRawTriple {
    pub subject: Seq<char>,
    pub property: Seq<char>,
    pub object: Seq<char>,
}

impl View for RawTriple {
    type V = SpecRawTriple;

    open spec fn view(&self) -> SpecRawTriple {
        SpecRawTriple { subject: self.subject@, property: self.property@, object: self.object@ }
    }
}

/// A statement of a document.
pub enum Statement {
    /// `@prefix name: <iri> .`
    Prefix { name: String, iri: String },
    /// `{ body } => { head }`
    Rule { body: Vec<RawTriple>, head: Vec<RawTriple> },
}

pub enum SpecStatement {
    Prefix { name: Seq<char>, iri: Seq<char> },
    Rule { body: Seq<SpecRawTriple>, head: Seq<SpecRawTriple> },
}

pub open spec fn raw_triples_view(v: Seq<RawTriple>) -> Seq<SpecRawTriple> {
    v.map_values(|t: RawTriple| t@)
}

impl View for Statement {
    type V = SpecStatement;

    open spec fn view(&self) -> SpecStatement {
        match self {
            Statement::Prefix { name, iri } => SpecStatement::Prefix { name: name@, iri: iri@ },
            Statement::Rule { body, head } => SpecStatement::Rule {
                body: raw_triples_view(body@),
                head: raw_triples_view(head@),
            },
        }
    }
}

pub open spec fn statements_view(v: Seq<Statement>) -> Seq<SpecStatement> {
    v.map_values(|t: Statement| t@)
}

// ---------------------------------------------------------------- the grammar

/// The end of the term that starts at `i`: `?name`, `<iri>` or a prefixed name.
pub open spec fn term_end(s: Seq<char>, i: int) -> Option<int> {
    if 0 <= i < s.len() {
        if s[i] == '?' {
            let j = scan(s, i + 1, CharClass::Name);
            if j > i + 1 {
                Some(j)
            } else {
                None
            }
        } else if s[i] == '<' {
            let j = scan(s, i + 1, CharClass::Iri);
            if j < s.len() && s[j] == '>' {
                Some(j + 1)
            } else {
                None
            }
        } else {
            let j = scan(s, i, CharClass::PrefixedName);
            if j > i {
                Some(j)
            } else {
                None
            }
        }
    } else {
        None
    }
}

/// The triple pattern that starts at `i`, and where it ends.
pub open spec fn spec_tp(s: Seq<char>, i: int) -> Option<(SpecRawTriple, int)> {
    match term_end(s, i) {
        None => None,
        Some(e1) => {
            let w1 = scan(s, e1, CharClass::Whitespace);
            if w1 == e1 {
                None
            } else {
                match term_end(s, w1) {
                    None => None,
                    Some(e2) => {
                        let w2 = scan(s, e2, CharClass::Whitespace);
                        if w2 == e2 {
                            None
                        } else {
                            match term_end(s, w2) {
                                None => None,
                                Some(e3) => Some(
                                    (
                                        SpecRawTriple {
                                            subject: s.subrange(i, e1),
                                            property: s.subrange(w1, e2),
                                            object: s.subrange(w2, e3),
                                        },
                                        e3,
                                    ),
                                ),
                            }
                        }
                    },
                }
            }
        },
    }
}

pub proof fn lemma_scan_ge(s: Seq<char>, i: int, cls: CharClass)
    ensures
        scan(s, i, cls) >= i,
    decreases s.len() - i,
{
    if 0 <= i < s.len() && crate::text::in_class(cls, s[i]) {
        lemma_scan_ge(s, i + 1, cls);
    }
}

pub proof fn lemma_term_end(s: Seq<char>, i: int)
    ensures
        term_end(s, i) matches Some(j) ==> i < j <= s.len(),
{
    if 0 <= i < s.len() {
        if s[i] == '?' {
            lemma_scan(s, i + 1, CharClass::Name);
        } else if s[i] == '<' {
            lemma_scan(s, i + 1, CharClass::Iri);
        } else {
            lemma_scan(s, i, CharClass::PrefixedName);
        }
    }
}

pub proof fn lemma_tp_advances(s: Seq<char>, i: int)
    ensures
        spec_tp(s, i) matches Some((_, e)) ==> 0 <= i < e <= s.len(),
{
    lemma_term_end(s, i);
    if let Some(e1) = term_end(s, i) {
        let w1 = scan(s, e1, CharClass::Whitespace);
        lemma_scan(s, e1, CharClass::Whitespace);
        lemma_term_end(s, w1);
        if let Some(e2) = term_end(s, w1) {
            let w2 = scan(s, e2, CharClass::Whitespace);
            lemma_scan(s, e2, CharClass::Whitespace);
            lemma_term_end(s, w2);
        }
    }
}

/// The list of triple patterns that starts at `i` and is closed by `}`, and the
/// position after the `}`.
pub open spec fn spec_tp_list(s: Seq<char>, i: int) -> Option<(Seq<SpecRawTriple>, int)>
    decreases s.len() - i,
{
    let j = scan(s, i, CharClass::Whitespace);
    if 0 <= j < s.len() && s[j] == '}' {
        Some((seq![], j + 1))
    } else {
        match spec_tp(s, j) {
            None => None,
            Some((t, k)) => {
                let m = scan(s, k, CharClass::Whitespace);
                if 0 <= m < s.len() && s[m] == '.' {
                    proof {
                        lemma_scan_ge(s, i, CharClass::Whitespace);
                        lemma_tp_advances(s, j);
                        lemma_scan_ge(s, k, CharClass::Whitespace);
                    }
                    match spec_tp_list(s, m + 1) {
                        None => None,
                        Some((ts, e)) => Some((seq![t] + ts, e)),
                    }
                } else if 0 <= m < s.len() && s[m] == '}' {
                    Some((seq![t], m + 1))
                } else {
                    None
                }
            },
        }
    }
}

pub open spec fn prefix_keyword() -> Seq<char> {
    seq!['@', 'p', 'r', 'e', 'f', 'i', 'x']
}

/// The prefix declaration that starts at `i`, and where it ends.
pub open spec fn spec_prefix(s: Seq<char>, i: int) -> Option<(SpecStatement, int)> {
    if 0 <= i && i + 7 <= s.len() && s.subrange(i, i + 7) == prefix_keyword() {
        let a = scan(s, i + 7, CharClass::Whitespace);
        let b = scan(s, a, CharClass::PrefixName);
        let c = scan(s, b + 1, CharClass::Whitespace);
        let d = scan(s, c + 1, CharClass::Iri);
        let e = scan(s, d + 1, CharClass::Whitespace);
        if a > i + 7 && b < s.len() && s[b] == ':' && c < s.len() && s[c] == '<' && d < s.len()
            && s[d] == '>' && e < s.len() && s[e] == '.' {
            Some(
                (SpecStatement::Prefix { name: s.subrange(a, b), iri: s.subrange(c + 1, d) }, e + 1),
            )
        } else {
            None
        }
    } else {
        None
    }
}

/// The rule that starts at `i`, and where it ends.
pub open spec fn spec_rule_stmt(s: Seq<char>, i: int) -> Option<(SpecStatement, int)> {
    if 0 <= i < s.len() && s[i] == '{' {
        match spec_tp_list(s, i + 1) {
            None => None,
            Some((body, a)) => {
                let b = scan(s, a, CharClass::Whitespace);
                let c = scan(s, b + 2, CharClass::Whitespace);
                if 0 <= b && b + 1 < s.len() && s[b] == '=' && s[b + 1] == '>' && c < s.len()
                    && s[c] == '{' {
                    match spec_tp_list(s, c + 1) {
                        None => None,
                        Some((head, d)) => {
                            let e = scan(s, d, CharClass::Whitespace);
                            let end = if 0 <= e < s.len() && s[e] == '.' {
                                e + 1
                            } else {
                                d
                            };
                            Some((SpecStatement::Rule { body, head }, end))
                        },
                    }
                } else {
                    None
                }
            },
        }
    } else {
        None
    }
}

/// The statement that starts at `i` (a prefix declaration or a rule), and where it ends.
pub open spec fn spec_statement(s: Seq<char>, i: int) -> Option<(SpecStatement, int)> {
    if 0 <= i < s.len() && s[i] == '@' {
        spec_prefix(s, i)
    } else {
        spec_rule_stmt(s, i)
    }
}

pub proof fn lemma_tp_list_advances(s: Seq<char>, i: int)
    ensures
        spec_tp_list(s, i) matches Some((_, e)) ==> i < e <= s.len(),
    decreases s.len() - i,
{
    let j = scan(s, i, CharClass::Whitespace);
    lemma_scan_ge(s, i, CharClass::Whitespace);
    if 0 <= j < s.len() && s[j] == '}' {
    } else {
        lemma_tp_advances(s, j);
        if let Some((t, k)) = spec_tp(s, j) {
            let m = scan(s, k, CharClass::Whitespace);
            lemma_scan(s, k, CharClass::Whitespace);
            if 0 <= m < s.len() && s[m] == '.' {
                lemma_tp_list_advances(s, m + 1);
            }
        }
    }
}

pub proof fn lemma_statement_advances(s: Seq<char>, i: int)
    ensures
        spec_statement(s, i) matches Some((_, e)) ==> i < e <= s.len(),
{
    if 0 <= i < s.len() && s[i] == '@' {
        if 0 <= i && i + 7 <= s.len() && s.subrange(i, i + 7) == prefix_keyword() {
            let a = scan(s, i + 7, CharClass::Whitespace);
            let b = scan(s, a, CharClass::PrefixName);
            let c = scan(s, b + 1, CharClass::Whitespace);
            let d = scan(s, c + 1, CharClass::Iri);
            lemma_scan_ge(s, i + 7, CharClass::Whitespace);
            lemma_scan_ge(s, a, CharClass::PrefixName);
            lemma_scan_ge(s, b + 1, CharClass::Whitespace);
            lemma_scan_ge(s, c + 1, CharClass::Iri);
            lemma_scan_ge(s, d + 1, CharClass::Whitespace);
        }
    } else if 0 <= i < s.len() && s[i] == '{' {
        lemma_tp_list_advances(s, i + 1);
        if let Some((body, a)) = spec_tp_list(s, i + 1) {
            let b = scan(s, a, CharClass::Whitespace);
            lemma_scan_ge(s, a, CharClass::Whitespace);
            let c = scan(s, b + 2, CharClass::Whitespace);
            lemma_scan_ge(s, b + 2, CharClass::Whitespace);
            lemma_tp_list_advances(s, c + 1);
            if let Some((head, d)) = spec_tp_list(s, c + 1) {
                lemma_scan(s, d, CharClass::Whitespace);
            }
        }
    }
}

/// The statements of the document suffix that starts at `i`.
pub open spec fn spec_statements_from(s: Seq<char>, i: int) -> Option<Seq<SpecStatement>>
    decreases s.len() - i,
{
    let j = scan(s, i, CharClass::Whitespace);
    if j >= s.len() {
        Some(seq![])
    } else {
        match spec_statement(s, j) {
            None => None,
            Some((st, k)) => {
                proof {
                    lemma_scan_ge(s, i, CharClass::Whitespace);
                    lemma_statement_advances(s, j);
                }
                match spec_statements_from(s, k) {
                    None => None,
                    Some(rest) => Some(seq![st] + rest),
                }
            },
        }
    }
}

/// The statements of a whole document, or `None` where the text is not a document.
pub open spec fn spec_document(s: Seq<char>) -> Option<Seq<SpecStatement>> {
    spec_statements_from(s, 0)
}

// ---------------------------------------------------------------- reading the grammar

fn term_end_at(s: &Vec<char>, i: usize) -> (r: Option<usize>)
    requires
        i <= s.len(),
    ensures
        match r {
            Some(j) => term_end(s@, i as int) == Some(j as int),
            None => term_end(s@, i as int) is None,
        },
{
    if i >= s.len() {
        return None;
    }
    if s[i] == '?' {
        let j = scan_class(s, i + 1, CharClass::Name);
        if j > i + 1 {
            Some(j)
        } else {
            None
        }
    } else if s[i] == '<' {
        let j = scan_class(s, i + 1, CharClass::Iri);
        if j < s.len() && s[j] == '>' {
            Some(j + 1)
        } else {
            None
        }
    } else {
        let j = scan_class(s, i, CharClass::PrefixedName);
        if j > i {
            Some(j)
        } else {
            None
        }
    }
}

fn parse_tp_at(s: &Vec<char>, i: usize) -> (r: Option<(RawTriple, usize)>)
    requires
        i <= s.len(),
    ensures
        match r {
            Some((t, e)) => spec_tp(s@, i as int) == Some((t@, e as int)),
            None => spec_tp(s@, i as int) is None,
        },
{
    let e1 = match term_end_at(s, i) {
        Some(e) => e,
        None => return None,
    };
    proof {
        lemma_term_end(s@, i as int);
    }
    let w1 = scan_class(s, e1, CharClass::Whitespace);
    if w1 == e1 {
        return None;
    }
    let e2 = match term_end_at(s, w1) {
        Some(e) => e,
        None => return None,
    };
    proof {
        lemma_term_end(s@, w1 as int);
    }
    let w2 = scan_class(s, e2, CharClass::Whitespace);
    if w2 == e2 {
        return None;
    }
    let e3 = match term_end_at(s, w2) {
        Some(e) => e,
        None => return None,
    };
    proof {
        lemma_term_end(s@, w2 as int);
    }
    let t = RawTriple {
        subject: string_from_chars(s, i, e1),
        property: string_from_chars(s, w1, e2),
        object: string_from_chars(s, w2, e3),
    };
    Some((t, e3))
}

pub open spec fn prepend_triples(
    acc: Seq<SpecRawTriple>,
    r: Option<(Seq<SpecRawTriple>, int)>,
) -> Option<(Seq<SpecRawTriple>, int)> {
    match r {
        None => None,
        Some((ts, e)) => Some((acc + ts, e)),
    }
}

fn parse_tp_list(s: &Vec<char>, i: usize) -> (r: Option<(Vec<RawTriple>, usize)>)
    requires
        i <= s.len(),
    ensures
        match r {
            Some((ts, e)) => spec_tp_list(s@, i as int) == Some((raw_triples_view(ts@), e as int)),
            None => spec_tp_list(s@, i as int) is None,
        },
{
    let mut acc: Vec<RawTriple> = Vec::new();
    let mut pos = i;
    assert(raw_triples_view(acc@) + seq![] =~= seq![]);
    loop
        invariant
            i <= pos <= s.len(),
            spec_tp_list(s@, i as int) == prepend_triples(
                raw_triples_view(acc@),
                spec_tp_list(s@, pos as int),
            ),
        decreases s.len() - pos,
    {
        let j = scan_class(s, pos, CharClass::Whitespace);
        if j < s.len() && s[j] == '}' {
            assert(raw_triples_view(acc@) + seq![] =~= raw_triples_view(acc@));
            return Some((acc, j + 1));
        }
        match parse_tp_at(s, j) {
            None => {
                return None;
            },
            Some((t, k)) => {
                proof {
                    lemma_tp_advances(s@, j as int);
                }
                let m = scan_class(s, k, CharClass::Whitespace);
                let ghost tv = t@;
                let ghost before = raw_triples_view(acc@);
                if m < s.len() && s[m] == '.' {
                    acc.push(t);
                    proof {
                        assert(raw_triples_view(acc@) =~= before + seq![tv]);
                        match spec_tp_list(s@, m + 1) {
                            None => {},
                            Some((ts, e)) => {
                                assert(before + (seq![tv] + ts) =~= raw_triples_view(acc@) + ts);
                            },
                        }
                    }
                    pos = m + 1;
                } else if m < s.len() && s[m] == '}' {
                    acc.push(t);
                    assert(raw_triples_view(acc@) =~= before + seq![tv]);
                    return Some((acc, m + 1));
                } else {
                    return None;
                }
            },
        }
    }
}

fn at_prefix_keyword(s: &Vec<char>, i: usize) -> (b: bool)
    requires
        i <= s.len(),
    ensures
        b == (i + 7 <= s.len() && s@.subrange(i as int, i + 7) == prefix_keyword()),
{
    if s.len() - i < 7 {
        return false;
    }
    let b = s[i] == '@' && s[i + 1] == 'p' && s[i + 2] == 'r' && s[i + 3] == 'e' && s[i + 4]
        == 'f' && s[i + 5] == 'i' && s[i + 6] == 'x';
    if b {
        assert(s@.subrange(i as int, i + 7) =~= prefix_keyword());
    } else {
        assert(s@.subrange(i as int, i + 7) != prefix_keyword()) by {
            if s@.subrange(i as int, i + 7) == prefix_keyword() {
                assert(s@.subrange(i as int, i + 7)[0] == s@[i as int]);
                assert(s@.subrange(i as int, i + 7)[1] == s@[i + 1]);
                assert(s@.subrange(i as int, i + 7)[2] == s@[i + 2]);
                assert(s@.subrange(i as int, i + 7)[3] == s@[i + 3]);
                assert(s@.subrange(i as int, i + 7)[4] == s@[i + 4]);
                assert(s@.subrange(i as int, i + 7)[5] == s@[i + 5]);
                assert(s@.subrange(i as int, i + 7)[6] == s@[i + 6]);
            }
        }
    }
    b
}

fn parse_prefix_at(s: &Vec<char>, i: usize) -> (r: Option<(Statement, usize)>)
    requires
        i <= s.len(),
    ensures
        match r {
            Some((st, e)) => spec_prefix(s@, i as int) == Some((st@, e as int)),
            None => spec_prefix(s@, i as int) is None,
        },
{
    if !at_prefix_keyword(s, i) {
        return None;
    }
    let a = scan_class(s, i + 7, CharClass::Whitespace);
    let b = scan_class(s, a, CharClass::PrefixName);
    if !(a > i + 7 && b < s.len() && s[b] == ':') {
        return None;
    }
    let c = scan_class(s, b + 1, CharClass::Whitespace);
    if !(c < s.len() && s[c] == '<') {
        return None;
    }
    let d = scan_class(s, c + 1, CharClass::Iri);
    if !(d < s.len() && s[d] == '>') {
        return None;
    }
    let e = scan_class(s, d + 1, CharClass::Whitespace);
    if !(e < s.len() && s[e] == '.') {
        return None;
    }
    let st = Statement::Prefix { name: string_from_chars(s, a, b), iri: string_from_chars(s, c + 1, d) };
    Some((st, e + 1))
}

fn parse_rule_at(s: &Vec<char>, i: usize) -> (r: Option<(Statement, usize)>)
    requires
        i <= s.len(),
    ensures
        match r {
            Some((st, e)) => spec_rule_stmt(s@, i as int) == Some((st@, e as int)),
            None => spec_rule_stmt(s@, i as int) is None,
        },
{
    if !(i < s.len() && s[i] == '{') {
        return None;
    }
    let (body, a) = match parse_tp_list(s, i + 1) {
        Some(r) => r,
        None => return None,
    };
    proof {
        lemma_tp_list_advances(s@, i + 1);
    }
    let b = scan_class(s, a, CharClass::Whitespace);
    if !(b < s.len() && s.len() - b >= 2 && s[b] == '=' && s[b + 1] == '>') {
        return None;
    }
    let c = scan_class(s, b + 2, CharClass::Whitespace);
    if !(c < s.len() && s[c] == '{') {
        return None;
    }
    let (head, d) = match parse_tp_list(s, c + 1) {
        Some(r) => r,
        None => return None,
    };
    proof {
        lemma_tp_list_advances(s@, c + 1);
    }
    let e = scan_class(s, d, CharClass::Whitespace);
    let end = if e < s.len() && s[e] == '.' {
        e + 1
    } else {
        d
    };
    Some((Statement::Rule { body, head }, end))
}

fn parse_statement_at(s: &Vec<char>, i: usize) -> (r: Option<(Statement, usize)>)
    requires
        i <= s.len(),
    ensures
        match r {
            Some((st, e)) => spec_statement(s@, i as int) == Some((st@, e as int)),
            None => spec_statement(s@, i as int) is None,
        },
{
    if i < s.len() && s[i] == '@' {
        parse_prefix_at(s, i)
    } else {
        parse_rule_at(s, i)
    }
}

pub open spec fn prepend_statements(
    acc: Seq<SpecStatement>,
    r: Option<Seq<SpecStatement>>,
) -> Option<Seq<SpecStatement>> {
    match r {
        None => None,
        Some(rest) => Some(acc + rest),
    }
}

/// Reads the statements of an N3 rule document.
pub struct CSVParser;

impl CSVParser {
    /// The statements of `input`, or `None` where `input` is not a document of the grammar.
    pub fn parse(input: &str) -> (r: Option<Vec<Statement>>)
        ensures
            match r {
                Some(v) => spec_document(input@) == Some(statements_view(v@)),
                None => spec_document(input@) is None,
            },
    {
        let s = chars_of(input);
        let mut acc: Vec<Statement> = Vec::new();
        let mut pos: usize = 0;
        assert(statements_view(acc@) =~= seq![]);
        assert(forall|r: Seq<SpecStatement>| seq![] + r =~= r);
        loop
            invariant
                pos <= s.len(),
                s@ == input@,
                spec_document(input@) == prepend_statements(
                    statements_view(acc@),
                    spec_statements_from(s@, pos as int),
                ),
            decreases s.len() - pos,
        {
            let j = scan_class(&s, pos, CharClass::Whitespace);
            if j >= s.len() {
                assert(statements_view(acc@) + seq![] =~= statements_view(acc@));
                return Some(acc);
            }
            match parse_statement_at(&s, j) {
                None => {
                    return None;
                },
                Some((st, k)) => {
                    proof {
                        lemma_statement_advances(s@, j as int);
                    }
                    let ghost sv = st@;
                    let ghost before = statements_view(acc@);
                    acc.push(st);
                    proof {
                        assert(statements_view(acc@) =~= before + seq![sv]);
                        match spec_statements_from(s@, k as int) {
                            None => {},
                            Some(rest) => {
                                assert(before + (seq![sv] + rest) =~= statements_view(acc@)
                                    + rest);
                            },
                        }
                    }
                    pos = k;
                },
            }
        }
    }
}

// ---------------------------------------------------------------- from statements to rules

/// The pattern of a written triple, its positions expanded under the prefix map `m`.
pub open spec fn spec_tp_of(t: SpecRawTriple, m: Map<Seq<char>, Seq<char>>) -> SpecTriple {
    SpecTriple {
        s: spec_var_or_term(spec_expand(m, t.subject)),
        p: spec_var_or_term(spec_expand(m, t.property)),
        o: spec_var_or_term(spec_expand(m, t.object)),
    }
}

/// The head of a rule whose head list is empty: `?s ?p ?o`.
pub open spec fn default_head() -> SpecTriple {
    SpecTriple {
        s: spec_var_or_term("?s"@),
        p: spec_var_or_term("?p"@),
        o: spec_var_or_term("?o"@),
    }
}

/// The rule of a written rule statement under the prefix map `m`:
/// every body pattern, and the last head pattern.
pub open spec fn spec_rule_of(
    body: Seq<SpecRawTriple>,
    head: Seq<SpecRawTriple>,
    m: Map<Seq<char>, Seq<char>>,
) -> SpecRule {
    SpecRule {
        body: body.map_values(|t: SpecRawTriple| spec_tp_of(t, m)),
        head: if head.len() == 0 {
            default_head()
        } else {
            spec_tp_of(head.last(), m)
        },
    }
}

/// The rules of a statement sequence, read in order from the prefix map `m`: each prefix
/// declaration applies to the rules after it.
pub open spec fn spec_rules_of(stmts: Seq<SpecStatement>, m: Map<Seq<char>, Seq<char>>) -> Seq<
    SpecRule,
>
    decreases stmts.len(),
{
    if stmts.len() == 0 {
        seq![]
    } else {
        match stmts[0] {
            SpecStatement::Prefix { name, iri } => spec_rules_of(stmts.drop_first(), m.insert(name, iri)),
            SpecStatement::Rule { body, head } => seq![spec_rule_of(body, head, m)] + spec_rules_of(
                stmts.drop_first(),
                m,
            ),
        }
    }
}

/// The rules of a document.
pub open spec fn spec_parse(s: Seq<char>) -> Seq<SpecRule> {
    spec_rules_of(spec_document(s).unwrap(), Map::empty())
}

// ---------------------------------------------------------------- expansion of written positions

/// A prefixed name `p:l` read under a map that declares `p` as the IRI `i` (one that does
/// not begin with `?`): the term `i` followed by `l`.
proof fn lemma_prefixed_name_reads_as_term(
    m: Map<Seq<char>, Seq<char>>,
    p: Seq<char>,
    l: Seq<char>,
)
    requires
        m.contains_key(p),
        colon_free(p),
        colon_free(l),
        m[p].len() > 0,
        m[p][0] != '?',
    ensures
        spec_var_or_term(spec_expand(m, p + seq![':'] + l)) == SpecVarOrTerm::Term(m[p] + l),
{
    assert(m.insert(p, m[p]) =~= m);
    law_declared_prefix_expands(m, p, m[p], l);
    assert((m[p] + l)[0] == m[p][0]);
}

/// Subject, property and object of a written pattern are read alike: a prefixed name
/// `p:l` in any of them, with `p` declared as an IRI `i` (not beginning with `?`), reads as
/// the term `i` followed by `l`.
pub proof fn law_every_position_expands(
    t: SpecRawTriple,
    m: Map<Seq<char>, Seq<char>>,
    p: Seq<char>,
    l: Seq<char>,
)
    requires
        m.contains_key(p),
        colon_free(p),
        colon_free(l),
        m[p].len() > 0,
        m[p][0] != '?',
    ensures
        t.subject == p + seq![':'] + l ==> spec_tp_of(t, m).s == SpecVarOrTerm::Term(m[p] + l),
        t.property == p + seq![':'] + l ==> spec_tp_of(t, m).p == SpecVarOrTerm::Term(m[p] + l),
        t.object == p + seq![':'] + l ==> spec_tp_of(t, m).o == SpecVarOrTerm::Term(m[p] + l),
{
    lemma_prefixed_name_reads_as_term(m, p, l);
}

/// In a parsed document, the subject, property and object of every pattern of a rule are
/// expanded alike with the prefixes declared before the rule: a position written `p:l`,
/// where `p` was last declared as an IRI `i` (not beginning with `?`), reads as the term
/// `i` followed by `l`.
pub proof fn law_parsed_positions_expand(s: Seq<char>, k: int, j: int, p: Seq<char>, l: Seq<char>)
    requires
        spec_document(s) is Some,
        0 <= k < spec_document(s).unwrap().len(),
        spec_document(s).unwrap()[k] is Rule,
        0 <= j < spec_document(s).unwrap()[k]->body.len(),
        prefixes_before(spec_document(s).unwrap(), k).contains_key(p),
        colon_free(p),
        colon_free(l),
        prefixes_before(spec_document(s).unwrap(), k)[p].len() > 0,
        prefixes_before(spec_document(s).unwrap(), k)[p][0] != '?',
    ensures
        ({
            let stmts = spec_document(s).unwrap();
            let m = prefixes_before(stmts, k);
            let w = stmts[k]->body[j];
            let r = spec_parse(s)[rules_before(stmts, k)];
            &&& w.subject == p + seq![':'] + l ==> r.body[j].s == SpecVarOrTerm::Term(m[p] + l)
            &&& w.property == p + seq![':'] + l ==> r.body[j].p == SpecVarOrTerm::Term(m[p] + l)
            &&& w.object == p + seq![':'] + l ==> r.body[j].o == SpecVarOrTerm::Term(m[p] + l)
        }),
{
    let stmts = spec_document(s).unwrap();
    law_prefixes_apply_to_later_rules(s, k);
    law_every_position_expands(stmts[k]->body[j], prefixes_before(stmts, k), p, l);
}

// ---------------------------------------------------------------- the scope of prefixes

/// The prefix map in force after the first `k` statements: their declarations in order,
/// a later declaration of a prefix replacing an earlier one.
pub open spec fn prefixes_before(stmts: Seq<SpecStatement>, k: int) -> Map<Seq<char>, Seq<char>>
    decreases k,
{
    if k <= 0 {
        Map::empty()
    } else {
        match stmts[k - 1] {
            SpecStatement::Prefix { name, iri } => prefixes_before(stmts, k - 1).insert(name, iri),
            SpecStatement::Rule { .. } => prefixes_before(stmts, k - 1),
        }
    }
}

/// The number of rule statements among the first `k`.
pub open spec fn rules_before(stmts: Seq<SpecStatement>, k: int) -> int
    decreases k,
{
    if k <= 0 {
        0
    } else {
        match stmts[k - 1] {
            SpecStatement::Prefix { .. } => rules_before(stmts, k - 1),
            SpecStatement::Rule { .. } => rules_before(stmts, k - 1) + 1,
        }
    }
}

proof fn lemma_rules_before_grows(stmts: Seq<SpecStatement>, a: int, b: int)
    requires
        0 <= a <= b,
    ensures
        rules_before(stmts, a) <= rules_before(stmts, b),
    decreases b - a,
{
    if a < b {
        lemma_rules_before_grows(stmts, a, b - 1);
    }
}

proof fn lemma_rules_from_len(stmts: Seq<SpecStatement>, j: int)
    requires
        0 <= j <= stmts.len(),
    ensures
        spec_rules_of(stmts.skip(j), prefixes_before(stmts, j)).len() == rules_before(
            stmts,
            stmts.len() as int,
        ) - rules_before(stmts, j),
    decreases stmts.len() - j,
{
    if j < stmts.len() {
        lemma_rules_from_len(stmts, j + 1);
        assert(stmts.skip(j)[0] == stmts[j]);
        assert(stmts.skip(j).drop_first() =~= stmts.skip(j + 1));
    } else {
        assert(stmts.skip(j) =~= seq![]);
    }
}

proof fn lemma_rule_from(stmts: Seq<SpecStatement>, j: int, k: int)
    requires
        0 <= j <= k < stmts.len(),
        stmts[k] is Rule,
    ensures
        0 <= rules_before(stmts, k) - rules_before(stmts, j) < spec_rules_of(
            stmts.skip(j),
            prefixes_before(stmts, j),
        ).len(),
        spec_rules_of(stmts.skip(j), prefixes_before(stmts, j))[rules_before(stmts, k)
            - rules_before(stmts, j)] == spec_rule_of(
            stmts[k]->body,
            stmts[k]->head,
            prefixes_before(stmts, k),
        ),
    decreases k - j,
{
    assert(stmts.skip(j)[0] == stmts[j]);
    assert(stmts.skip(j).drop_first() =~= stmts.skip(j + 1));
    lemma_rules_from_len(stmts, j);
    lemma_rules_from_len(stmts, j + 1);
    lemma_rules_before_grows(stmts, k + 1, stmts.len() as int);
    lemma_rules_before_grows(stmts, j, k);
    if j < k {
        lemma_rule_from(stmts, j + 1, k);
    }
}

/// A document has one rule for each rule statement.
pub(crate) proof fn lemma_parse_len(s: Seq<char>)
    requires
        spec_document(s) is Some,
    ensures
        spec_parse(s).len() == rules_before(
            spec_document(s).unwrap(),
            spec_document(s).unwrap().len() as int,
        ),
{
    let stmts = spec_document(s).unwrap();
    assert(stmts.skip(0) =~= stmts);
    lemma_rules_from_len(stmts, 0);
}

/// Each prefix declaration applies to the rules written after it and to no rule before it:
/// the rule of the `k`-th statement of a document, when that statement is a rule, is the
/// rule read with the prefix map that the declarations before it make (a later declaration
/// of a prefix replacing an earlier one), and it stands among the rules of the document
/// after the rules of the statements before it. The rules of a document are one for each
/// rule statement.
pub proof fn law_prefixes_apply_to_later_rules(s: Seq<char>, k: int)
    requires
        spec_document(s) is Some,
        0 <= k < spec_document(s).unwrap().len(),
        spec_document(s).unwrap()[k] is Rule,
    ensures
        ({
            let stmts = spec_document(s).unwrap();
            &&& spec_parse(s).len() == rules_before(stmts, stmts.len() as int)
            &&& rules_before(stmts, k) < spec_parse(s).len()
            &&& spec_parse(s)[rules_before(stmts, k)] == spec_rule_of(
                stmts[k]->body,
                stmts[k]->head,
                prefixes_before(stmts, k),
            )
        }),
{
    let stmts = spec_document(s).unwrap();
    assert(stmts.skip(0) =~= stmts);
    lemma_rules_from_len(stmts, 0);
    lemma_rule_from(stmts, 0, k);
}

/// The pattern of a written triple, its positions expanded by `prefixes`.
pub fn parse_tp(t: &RawTriple, prefixes: &PrefixMapper) -> (r: Triple)
    ensures
        r@ == spec_tp_of(t@, prefixes@),
{
    let subject_str = prefixes.expand(t.subject.clone());
    let property_str = prefixes.expand(t.property.clone());
    let object_str = prefixes.expand(t.object.clone());
    Triple::from(subject_str, property_str, object_str)
}

/// The rules of a statement sequence, each prefix declaration applying to the rules after it.
pub fn rules_from_statements(stmts: &Vec<Statement>) -> (rules: Vec<Rule>)
    ensures
        rules_view(rules@) == spec_rules_of(statements_view(stmts@), Map::empty()),
{
    let ghost all = statements_view(stmts@);
    let mut rules: Vec<Rule> = Vec::new();
    let mut prefix_mapper = PrefixMapper::new();
    assert(all.skip(0) =~= all);
    assert(rules_view(rules@) + spec_rules_of(all, Map::empty()) =~= spec_rules_of(
        all,
        Map::empty(),
    ));
    for k in 0..stmts.len()
        invariant
            all == statements_view(stmts@),
            spec_rules_of(all, Map::empty()) == rules_view(rules@) + spec_rules_of(
                all.skip(k as int),
                prefix_mapper@,
            ),
    {
        let ghost rest = all.skip(k as int);
        assert(rest[0] == stmts@[k as int]@);
        assert(rest.drop_first() =~= all.skip(k + 1));
        let ghost before = rules_view(rules@);
        match &stmts[k] {
            Statement::Prefix { name, iri } => {
                prefix_mapper.add(name.clone(), iri.clone());
            },
            Statement::Rule { body, head } => {
                let mut body_tps: Vec<Triple> = Vec::new();
                for b in 0..body.len()
                    invariant
                        body_tps@.len() == b,
                        forall|j: int|
                            0 <= j < b ==> (#[trigger] body_tps@[j])@ == spec_tp_of(
                                body@[j]@,
                                prefix_mapper@,
                            ),
                {
                    body_tps.push(parse_tp(&body[b], &prefix_mapper));
                }
                let head_tp = if head.len() == 0 {
                    Triple::from(
                        String::from_str("?s"),
                        String::from_str("?p"),
                        String::from_str("?o"),
                    )
                } else {
                    parse_tp(&head[head.len() - 1], &prefix_mapper)
                };
                let rule = Rule { body: body_tps, head: head_tp };
                proof {
                    assert(rule@.body =~= raw_triples_view(body@).map_values(
                        |t: SpecRawTriple| spec_tp_of(t, prefix_mapper@),
                    ));
                    assert(rule@ == spec_rule_of(
                        raw_triples_view(body@),
                        raw_triples_view(head@),
                        prefix_mapper@,
                    ));
                }
                rules.push(rule);
                assert(rules_view(rules@) =~= before + seq![rule@]);
                assert(before + (seq![rule@] + spec_rules_of(all.skip(k + 1), prefix_mapper@))
                    =~= rules_view(rules@) + spec_rules_of(all.skip(k + 1), prefix_mapper@));
            },
        }
    }
    assert(all.skip(stmts.len() as int) =~= seq![]);
    assert(rules_view(rules@) + seq![] =~= rules_view(rules@));
    rules
}

/// The rules of an N3 rule document.
pub fn parse(parse_string: &str) -> (r: Result<Vec<Rule>, &'static str>)
    requires
        spec_document(parse_string@) is Some,
    ensures
        r matches Ok(rules) && rules_view(rules@) == spec_parse(parse_string@),
{
    match CSVParser::parse(parse_string) {
        None => Err("Parsing failed"),
        Some(statements) => Ok(rules_from_statements(&statements)),
    }
}

} // verus!
