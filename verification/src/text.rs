//! Character-level helpers shared by the rule parser and the prefix mapper.

use vstd::prelude::*;

verus! {

/// The classes of characters that the N3 rule grammar scans runs of.
#[derive(Clone, Copy, PartialEq, Eq, Structural)]
pub enum CharClass {
    /// Space, tab, line feed and carriage return.
    Whitespace,
    /// ASCII letters, digits and `_`: the characters of a variable name.
    Name,
    /// Name characters and `-`: the characters of a prefix identifier.
    PrefixName,
    /// Anything but whitespace and `{ } < > . ? "`: the characters of a prefixed name.
    PrefixedName,
    /// Anything but whitespace, `<` and `>`: the characters inside an IRI reference.
    Iri,
    /// Anything but `:`.
    NotColon,
}

pub open spec fn is_ws(c: char) -> bool {
    c == ' ' || c == '\t' || c == '\n' || c == '\r'
}

pub open spec fn is_name_char(c: char) -> bool {
    ('a' <= c && c <= 'z') || ('A' <= c && c <= 'Z') || ('0' <= c && c <= '9') || c == '_'
}

pub open spec fn in_class(cls: CharClass, c: char) -> bool {
    match cls {
        CharClass::Whitespace => is_ws(c),
        CharClass::Name => is_name_char(c),
        CharClass::PrefixName => is_name_char(c) || c == '-',
        CharClass::PrefixedName => !is_ws(c) && c != '{' && c != '}' && c != '<' && c != '>'
            && c != '.' && c != '?' && c != '"',
        CharClass::Iri => !is_ws(c) && c != '<' && c != '>',
        CharClass::NotColon => c != ':',
    }
}

/// Whether `c` belongs to `cls`.
pub fn char_in_class(cls: CharClass, c: char) -> (b: bool)
    ensures
        b == in_class(cls, c),
{
    match cls {
        CharClass::Whitespace => c == ' ' || c == '\t' || c == '\n' || c == '\r',
        CharClass::Name => ('a' <= c && c <= 'z') || ('A' <= c && c <= 'Z') || ('0' <= c && c
            <= '9') || c == '_',
        CharClass::PrefixName => ('a' <= c && c <= 'z') || ('A' <= c && c <= 'Z') || ('0' <= c
            && c <= '9') || c == '_' || c == '-',
        CharClass::PrefixedName => !(c == ' ' || c == '\t' || c == '\n' || c == '\r') && c != '{'
            && c != '}' && c != '<' && c != '>' && c != '.' && c != '?' && c != '"',
        CharClass::Iri => !(c == ' ' || c == '\t' || c == '\n' || c == '\r') && c != '<' && c
            != '>',
        CharClass::NotColon => c != ':',
    }
}

/// The end of the longest run of characters of class `cls` that starts at `i`.
pub open spec fn scan(s: Seq<char>, i: int, cls: CharClass) -> int
    decreases s.len() - i,
{
    if 0 <= i < s.len() && in_class(cls, s[i]) {
        scan(s, i + 1, cls)
    } else {
        i
    }
}

pub proof fn lemma_scan(s: Seq<char>, i: int, cls: CharClass)
    requires
        0 <= i <= s.len(),
    ensures
        i <= scan(s, i, cls) <= s.len(),
        forall|k: int| i <= k < scan(s, i, cls) ==> in_class(cls, #[trigger] s[k]),
        scan(s, i, cls) < s.len() ==> !in_class(cls, s[scan(s, i, cls)]),
    decreases s.len() - i,
{
    if i < s.len() && in_class(cls, s[i]) {
        lemma_scan(s, i + 1, cls);
    }
}

/// A run of class characters ends at the first character outside the class.
pub proof fn lemma_scan_characterized(s: Seq<char>, i: int, j: int, cls: CharClass)
    requires
        0 <= i <= j <= s.len(),
        forall|k: int| i <= k < j ==> in_class(cls, #[trigger] s[k]),
        j == s.len() || !in_class(cls, s[j]),
    ensures
        scan(s, i, cls) == j,
    decreases j - i,
{
    if i < j {
        lemma_scan_characterized(s, i + 1, j, cls);
    }
}

/// The end of the run of class characters starting at `i` in `s`.
pub fn scan_class(s: &Vec<char>, i: usize, cls: CharClass) -> (j: usize)
    requires
        i <= s.len(),
    ensures
        j == scan(s@, i as int, cls),
        i <= j <= s.len(),
{
    proof {
        lemma_scan(s@, i as int, cls);
    }
    let mut k = i;
    while k < s.len() && char_in_class(cls, s[k])
        invariant
            i <= k <= s.len(),
            scan(s@, k as int, cls) == scan(s@, i as int, cls),
        decreases s.len() - k,
    {
        k = k + 1;
    }
    k
}

/// The characters of `s`, in order.
pub fn chars_of(s: &str) -> (v: Vec<char>)
    ensures
        v@ == s@,
{
    let mut v: Vec<char> = Vec::new();
    for c in it: s.chars()
        invariant
            v@ == it.seq().take(it.index() as int),
    {
        v.push(c);
    }
    v
}

/// The string made of the characters `cs[lo..hi]`.
pub fn string_from_chars(cs: &Vec<char>, lo: usize, hi: usize) -> (r: String)
    requires
        lo <= hi <= cs.len(),
    ensures
        r@ == cs@.subrange(lo as int, hi as int),
{
    collect_string(vstd::slice::slice_subrange(cs.as_slice(), lo, hi))
}

/// `String::from_iter` over the characters of a slice: the string of those characters,
/// in order.
#[verifier::external_body]
fn collect_string(cs: &[char]) -> (r: String)
    ensures
        r@ == cs@,
{
    cs.iter().collect()
}

} // verus!
