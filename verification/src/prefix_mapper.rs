//! Prefix declarations of an N3 document and the expansion of prefixed names.

use vstd::prelude::*;
use vstd::string::StringExecFns;

use crate::text::{chars_of, lemma_scan, scan, scan_class, string_from_chars, CharClass};

verus! {

/// The IRI that the keyword `a` stands for.
pub open spec fn rdf_type_iri() -> Seq<char> {
    "<http://www.w3.org/1999/02/22-rdf-syntax-ns#type>"@
}

/// The expansion of `text` under the prefix map `m`:
/// `a` is `rdf:type`; a text `p:l...` whose prefix `p` (up to the first `:`) is mapped
/// becomes the mapped IRI followed by `l`, the part up to the next `:`;
/// any other text stays as it is.
pub open spec fn spec_expand(m: Map<Seq<char>, Seq<char>>, text: Seq<char>) -> Seq<char> {
    if text == seq!['a'] {
        rdf_type_iri()
    } else {
        let i = scan(text, 0, CharClass::NotColon);
        if i < text.len() {
            let prefix = text.take(i);
            let rest = text.skip(i + 1);
            let local = rest.take(scan(rest, 0, CharClass::NotColon));
            if m.contains_key(prefix) {
                m[prefix] + local
            } else {
                text
            }
        } else {
            text
        }
    }
}

/// Whether `s` holds no `:`.
pub open spec fn colon_free(s: Seq<char>) -> bool {
    forall|k: int| 0 <= k < s.len() ==> s[k] != ':'
}

/// The prefix map that a list of declarations makes, each declaration replacing any
/// earlier one of the same prefix.
pub open spec fn declarations_map(d: Seq<(Seq<char>, Seq<char>)>) -> Map<Seq<char>, Seq<char>>
    decreases d.len(),
{
    if d.len() == 0 {
        Map::empty()
    } else {
        declarations_map(d.drop_last()).insert(d.last().0, d.last().1)
    }
}

pub open spec fn pairs_view(v: Seq<(String, String)>) -> Seq<(Seq<char>, Seq<char>)> {
    v.map_values(|p: (String, String)| (p.0@, p.1@))
}

/// Maps prefix identifiers to the IRIs they abbreviate.
#[derive(Debug, Clone)]
pub struct PrefixMapper {
    declarations: Vec<(String, String)>,
}

impl View for PrefixMapper {
    type V = Map<Seq<char>, Seq<char>>;

    closed spec fn view(&self) -> Map<Seq<char>, Seq<char>> {
        declarations_map(pairs_view(self.declarations@))
    }
}

/// Declarations after position `i` that do not declare `k` leave its entry as the first
/// `i` declarations made it.
proof fn lemma_later_declarations(d: Seq<(Seq<char>, Seq<char>)>, k: Seq<char>, i: int)
    requires
        0 <= i <= d.len(),
        forall|j: int| i <= j < d.len() ==> (#[trigger] d[j]).0 != k,
    ensures
        declarations_map(d).contains_key(k) == declarations_map(d.take(i)).contains_key(k),
        declarations_map(d).contains_key(k) ==> declarations_map(d)[k] == declarations_map(
            d.take(i),
        )[k],
    decreases d.len() - i,
{
    if i < d.len() {
        lemma_later_declarations(d.drop_last(), k, i);
        assert(d.drop_last().take(i) =~= d.take(i));
    } else {
        assert(d.take(i) =~= d);
    }
}

proof fn lemma_scan_skip(s: Seq<char>, k: int, cls: CharClass)
    requires
        0 <= k <= s.len(),
    ensures
        scan(s.skip(k), 0, cls) == scan(s, k, cls) - k,
{
    lemma_scan(s, k, cls);
    let j = scan(s, k, cls);
    let r = s.skip(k);
    assert forall|m: int| 0 <= m < j - k implies crate::text::in_class(cls, #[trigger] r[m]) by {
        assert(r[m] == s[m + k]);
    }
    if j < s.len() {
        assert(r[j - k] == s[j]);
    }
    crate::text::lemma_scan_characterized(r, 0, j - k, cls);
}

impl PrefixMapper {
    /// A mapper with no prefixes.
    pub fn new() -> (m: PrefixMapper)
        ensures
            m@ == Map::<Seq<char>, Seq<char>>::empty(),
    {
        let m = PrefixMapper { declarations: Vec::new() };
        assert(pairs_view(m.declarations@) =~= seq![]);
        m
    }

    /// Declares `prefix` as an abbreviation of `full_name`, replacing any earlier declaration.
    pub fn add(&mut self, prefix: String, full_name: String)
        ensures
            final(self)@ == old(self)@.insert(prefix@, full_name@),
    {
        let ghost before = pairs_view(self.declarations@);
        self.declarations.push((prefix, full_name));
        assert(pairs_view(self.declarations@).drop_last() =~= before);
    }

    /// A copy of this mapper.
    pub fn duplicate(&self) -> (r: PrefixMapper)
        ensures
            r@ == self@,
    {
        let mut declarations: Vec<(String, String)> = Vec::new();
        for i in 0..self.declarations.len()
            invariant
                pairs_view(declarations@) == pairs_view(self.declarations@).take(i as int),
        {
            let name = self.declarations[i].0.clone();
            let iri = self.declarations[i].1.clone();
            let ghost before = pairs_view(declarations@);
            declarations.push((name, iri));
            assert(pairs_view(declarations@) =~= before.push(pairs_view(self.declarations@)[i as int]));
            assert(pairs_view(self.declarations@).take(i + 1) =~= pairs_view(self.declarations@).take(
                i as int,
            ).push(pairs_view(self.declarations@)[i as int]));
        }
        assert(pairs_view(self.declarations@).take(self.declarations.len() as int) =~= pairs_view(
            self.declarations@,
        ));
        PrefixMapper { declarations }
    }

    /// The IRI that `prefix` abbreviates, if it is declared.
    fn lookup(&self, prefix: &String) -> (r: Option<&String>)
        ensures
            match r {
                Some(v) => self@.contains_key(prefix@) && self@[prefix@] == v@,
                None => !self@.contains_key(prefix@),
            },
    {
        let ghost d = pairs_view(self.declarations@);
        let mut i: usize = self.declarations.len();
        while i > 0
            invariant
                d == pairs_view(self.declarations@),
                i <= self.declarations.len(),
                forall|j: int| i <= j < d.len() ==> (#[trigger] d[j]).0 != prefix@,
            decreases i,
        {
            if self.declarations[i - 1].0 == *prefix {
                proof {
                    lemma_later_declarations(d, prefix@, i as int);
                    assert(d.take(i as int).drop_last() =~= d.take(i - 1));
                    assert(d.take(i as int).last() == d[i - 1]);
                }
                return Some(&self.declarations[i - 1].1);
            }
            i = i - 1;
        }
        proof {
            lemma_later_declarations(d, prefix@, 0);
            assert(d.take(0) =~= seq![]);
        }
        None
    }

    /// Expands a prefixed name; see [`spec_expand`].
    pub fn expand(&self, prefixed: String) -> (r: String)
        ensures
            r@ == spec_expand(self@, prefixed@),
    {
        let cs = chars_of(prefixed.as_str());
        if cs.len() == 1 && cs[0] == 'a' {
            assert(prefixed@ =~= seq!['a']);
            return String::from_str("<http://www.w3.org/1999/02/22-rdf-syntax-ns#type>");
        }
        assert(prefixed@ != seq!['a']);
        let i = scan_class(&cs, 0, CharClass::NotColon);
        if i < cs.len() {
            let prefix = string_from_chars(&cs, 0, i);
            assert(prefix@ =~= prefixed@.take(i as int));
            match self.lookup(&prefix) {
                Some(expanded) => {
                    let j = scan_class(&cs, i + 1, CharClass::NotColon);
                    let local = string_from_chars(&cs, i + 1, j);
                    proof {
                        lemma_scan_skip(cs@, i + 1, CharClass::NotColon);
                        let rest = prefixed@.skip(i + 1);
                        assert(local@ =~= rest.take(scan(rest, 0, CharClass::NotColon)));
                    }
                    expanded.clone().concat(local.as_str())
                },
                None => prefixed,
            }
        } else {
            prefixed
        }
    }
}

/// `a` always expands to `rdf:type`, whatever prefixes are declared.
pub proof fn law_a_is_rdf_type(m: Map<Seq<char>, Seq<char>>)
    ensures
        spec_expand(m, seq!['a']) == rdf_type_iri(),
{
}

/// After declaring `prefix` (which holds no `:`) for `iri`, the prefixed name
/// `prefix:local` (with a `local` part free of `:`) expands to `iri` followed by `local`.
pub proof fn law_declared_prefix_expands(
    m: Map<Seq<char>, Seq<char>>,
    prefix: Seq<char>,
    iri: Seq<char>,
    local: Seq<char>,
)
    requires
        colon_free(prefix),
        colon_free(local),
    ensures
        spec_expand(m.insert(prefix, iri), prefix + seq![':'] + local) == iri + local,
{
    let text = prefix + seq![':'] + local;
    let n = prefix.len() as int;
    assert(text[n] == ':');
    assert(text != seq!['a']) by {
        if text == seq!['a'] {
            assert(text.len() == 1);
            assert(n == 0);
        }
    }
    assert forall|k: int| 0 <= k < n implies crate::text::in_class(
        CharClass::NotColon,
        #[trigger] text[k],
    ) by {
        assert(text[k] == prefix[k]);
    }
    crate::text::lemma_scan_characterized(text, 0, n, CharClass::NotColon);
    let rest = text.skip(n + 1);
    assert(rest =~= local);
    crate::text::lemma_scan_characterized(rest, 0, rest.len() as int, CharClass::NotColon);
    assert(text.take(n) =~= prefix);
    assert(rest.take(rest.len() as int) =~= local);
}

/// A text without `:` (other than the keyword `a`) expands to itself.
pub proof fn law_unprefixed_text_is_kept(m: Map<Seq<char>, Seq<char>>, text: Seq<char>)
    requires
        colon_free(text),
        text != seq!['a'],
    ensures
        spec_expand(m, text) == text,
{
    crate::text::lemma_scan_characterized(text, 0, text.len() as int, CharClass::NotColon);
}

/// A prefixed name whose prefix is not declared expands to itself.
pub proof fn law_undeclared_prefix_is_kept(
    m: Map<Seq<char>, Seq<char>>,
    prefix: Seq<char>,
    local: Seq<char>,
)
    requires
        colon_free(prefix),
        !m.contains_key(prefix),
    ensures
        spec_expand(m, prefix + seq![':'] + local) == prefix + seq![':'] + local,
{
    let text = prefix + seq![':'] + local;
    let n = prefix.len() as int;
    assert(text[n] == ':');
    assert forall|k: int| 0 <= k < n implies crate::text::in_class(
        CharClass::NotColon,
        #[trigger] text[k],
    ) by {
        assert(text[k] == prefix[k]);
    }
    crate::text::lemma_scan_characterized(text, 0, n, CharClass::NotColon);
    assert(text.take(n) =~= prefix);
}

} // verus!
