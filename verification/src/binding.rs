//! The terms that the variables of a pattern were found bound to.

use vstd::prelude::*;

verus! {

pub type SpecBinding = Seq<(Seq<char>, Seq<Seq<char>>)>;

/// For each variable, in the order variables were first met, the N-Triples texts of the
/// terms it was bound to, in the order they were met.
#[derive(Debug, PartialEq)]
pub struct Binding {
    vars: Vec<String>,
    values: Vec<Vec<String>>,
}

pub open spec fn texts_view(v: Seq<String>) -> Seq<Seq<char>> {
    v.map_values(|s: String| s@)
}

/// Whether no two entries of `b` are for the same variable.
pub open spec fn distinct_vars(b: SpecBinding) -> bool {
    forall|i: int, j: int| 0 <= i < b.len() && 0 <= j < b.len() && i != j ==> b[i].0 != b[j].0
}

/// The position of the entry for `var`, or -1 where there is none.
pub open spec fn find_var(b: SpecBinding, var: Seq<char>) -> int {
    if exists|i: int| 0 <= i < b.len() && b[i].0 == var {
        choose|i: int| 0 <= i < b.len() && b[i].0 == var
    } else {
        -1
    }
}

/// `b` with `term` appended to the entry of `var`, which is added at the end if missing.
pub open spec fn binding_add(b: SpecBinding, var: Seq<char>, term: Seq<char>) -> SpecBinding {
    let i = find_var(b, var);
    if i >= 0 {
        b.update(i, (var, b[i].1.push(term)))
    } else {
        b.push((var, seq![term]))
    }
}

/// `b` with the pairs of one solution added in order.
pub open spec fn add_pairs(b: SpecBinding, pairs: Seq<(String, String)>) -> SpecBinding
    decreases pairs.len(),
{
    if pairs.len() == 0 {
        b
    } else {
        binding_add(add_pairs(b, pairs.drop_last()), pairs.last().0@, pairs.last().1@)
    }
}

/// The binding that collects the pairs of all solutions, in order.
pub open spec fn bindings_of(solutions: Seq<Vec<(String, String)>>) -> SpecBinding
    decreases solutions.len(),
{
    if solutions.len() == 0 {
        seq![]
    } else {
        add_pairs(bindings_of(solutions.drop_last()), solutions.last()@)
    }
}

pub open spec fn entries_view(vars: Seq<String>, values: Seq<Vec<String>>) -> SpecBinding {
    Seq::new(vars.len() as nat, |i: int| (vars[i]@, texts_view(values[i]@)))
}

impl View for Binding {
    type V = SpecBinding;

    closed spec fn view(&self) -> SpecBinding {
        entries_view(self.vars@, self.values@)
    }
}

proof fn lemma_binding_add_distinct(b: SpecBinding, var: Seq<char>, term: Seq<char>)
    requires
        distinct_vars(b),
    ensures
        distinct_vars(binding_add(b, var, term)),
{
}

proof fn lemma_add_pairs_distinct(b: SpecBinding, pairs: Seq<(String, String)>)
    requires
        distinct_vars(b),
    ensures
        distinct_vars(add_pairs(b, pairs)),
    decreases pairs.len(),
{
    if pairs.len() > 0 {
        lemma_add_pairs_distinct(b, pairs.drop_last());
        lemma_binding_add_distinct(add_pairs(b, pairs.drop_last()), pairs.last().0@, pairs.last().1@);
    }
}

/// The terms recorded for `var` in `b`, none where it has no entry.
pub open spec fn terms_of(b: SpecBinding, var: Seq<char>) -> Seq<Seq<char>> {
    if find_var(b, var) >= 0 {
        b[find_var(b, var)].1
    } else {
        seq![]
    }
}

/// Recording a term for a variable appends it to the terms of that variable and leaves
/// the terms of every other variable as they were.
pub proof fn law_add_then_terms(b: SpecBinding, var: Seq<char>, term: Seq<char>, other: Seq<char>)
    requires
        distinct_vars(b),
    ensures
        terms_of(binding_add(b, var, term), var) == terms_of(b, var).push(term),
        other != var ==> terms_of(binding_add(b, var, term), other) == terms_of(b, other),
{
    let b2 = binding_add(b, var, term);
    lemma_binding_add_distinct(b, var, term);
    let i = find_var(b, var);
    if i >= 0 {
        assert(b2[i].0 == var);
        assert(find_var(b2, var) == i);
    } else {
        assert(b2[b.len() as int].0 == var);
        assert(find_var(b2, var) == b.len());
    }
    if other != var {
        let j = find_var(b, other);
        if j >= 0 {
            assert(b2[j].0 == other);
            assert(find_var(b2, other) == j);
        } else {
            assert forall|k: int| 0 <= k < b2.len() implies b2[k].0 != other by {
                if k < b.len() {
                    assert(b[k].0 != other);
                }
            }
            assert(find_var(b2, other) == -1);
        }
    }
}

/// Whether a pair is for the variable `v`.
pub open spec fn pair_for(v: Seq<char>) -> spec_fn((String, String)) -> bool {
    |p: (String, String)| p.0@ == v
}

/// The term text of a pair.
pub open spec fn pair_term() -> spec_fn((String, String)) -> Seq<char> {
    |p: (String, String)| p.1@
}

/// The terms that the pairs of one solution give the variable `v`, in order.
pub open spec fn pair_terms(pairs: Seq<(String, String)>, v: Seq<char>) -> Seq<Seq<char>> {
    pairs.filter(pair_for(v)).map_values(pair_term())
}

/// The terms that all solutions give the variable `v`, solution after solution.
pub open spec fn solution_terms(sols: Seq<Vec<(String, String)>>, v: Seq<char>) -> Seq<Seq<char>> {
    sols.map_values(|sol: Vec<(String, String)>| pair_terms(sol@, v)).flatten()
}

proof fn lemma_add_pairs_terms(b: SpecBinding, pairs: Seq<(String, String)>, v: Seq<char>)
    requires
        distinct_vars(b),
    ensures
        terms_of(add_pairs(b, pairs), v) == terms_of(b, v) + pair_terms(pairs, v),
    decreases pairs.len(),
{
    let pred = pair_for(v);
    let f = pair_term();
    if pairs.len() == 0 {
        reveal(Seq::filter);
        assert(pair_terms(pairs, v) =~= seq![]);
        assert(terms_of(b, v) + seq![] =~= terms_of(b, v));
    } else {
        let rest = pairs.drop_last();
        let last = pairs.last();
        lemma_add_pairs_terms(b, rest, v);
        lemma_add_pairs_distinct(b, rest);
        law_add_then_terms(add_pairs(b, rest), last.0@, last.1@, v);
        rest.lemma_filter_push(last, pred);
        assert(rest.push(last) =~= pairs);
        if pred(last) {
            assert(pairs.filter(pred).map_values(f) =~= rest.filter(pred).map_values(f).push(
                last.1@,
            ));
            assert(terms_of(b, v) + pair_terms(rest, v).push(last.1@) =~= (terms_of(b, v)
                + pair_terms(rest, v)).push(last.1@));
        } else {
            assert(pairs.filter(pred) == rest.filter(pred));
        }
    }
}

proof fn lemma_bindings_of_distinct(sols: Seq<Vec<(String, String)>>)
    ensures
        distinct_vars(bindings_of(sols)),
    decreases sols.len(),
{
    if sols.len() > 0 {
        lemma_bindings_of_distinct(sols.drop_last());
        lemma_add_pairs_distinct(bindings_of(sols.drop_last()), sols.last()@);
    }
}

/// Every pair of every solution is recorded, and nothing else: the terms bound to a
/// variable `v` are, solution after solution and in the order of each solution's pairs,
/// the terms that the pairs for `v` give. So each term a solution binds `v` to is among
/// them, and their number is the number of pairs for `v` over all solutions.
pub proof fn law_every_pair_is_recorded(sols: Seq<Vec<(String, String)>>, v: Seq<char>)
    ensures
        terms_of(bindings_of(sols), v) == solution_terms(sols, v),
        forall|i: int, a: int|
            0 <= i < sols.len() && 0 <= a < sols[i]@.len() && #[trigger] sols[i]@[a].0@ == v
                ==> terms_of(bindings_of(sols), v).contains(sols[i]@[a].1@),
    decreases sols.len(),
{
    let g = |sol: Vec<(String, String)>| pair_terms(sol@, v);
    if sols.len() == 0 {
        assert(sols.map_values(g) =~= seq![]);
        assert(terms_of(bindings_of(sols), v) =~= seq![]);
    } else {
        let rest = sols.drop_last();
        law_every_pair_is_recorded(rest, v);
        lemma_bindings_of_distinct(rest);
        lemma_add_pairs_terms(bindings_of(rest), sols.last()@, v);
        assert(sols.map_values(g) =~= rest.map_values(g).push(g(sols.last())));
        rest.map_values(g).lemma_flatten_push(g(sols.last()));
    }
    assert forall|i: int, a: int|
        0 <= i < sols.len() && 0 <= a < sols[i]@.len() && #[trigger] sols[i]@[a].0@ == v
            implies terms_of(bindings_of(sols), v).contains(sols[i]@[a].1@) by {
        lemma_solution_term_recorded(sols, v, i, a);
    }
}

proof fn lemma_solution_term_recorded(sols: Seq<Vec<(String, String)>>, v: Seq<char>, i: int, a: int)
    requires
        0 <= i < sols.len(),
        0 <= a < sols[i]@.len(),
        sols[i]@[a].0@ == v,
    ensures
        terms_of(bindings_of(sols), v).contains(sols[i]@[a].1@),
    decreases sols.len(),
{
    let rest = sols.drop_last();
    lemma_bindings_of_distinct(rest);
    lemma_add_pairs_terms(bindings_of(rest), sols.last()@, v);
    let pred = pair_for(v);
    if i < sols.len() - 1 {
        lemma_solution_term_recorded(rest, v, i, a);
        assert(rest[i] == sols[i]);
        let k = choose|k: int|
            0 <= k < terms_of(bindings_of(rest), v).len() && terms_of(bindings_of(rest), v)[k]
                == sols[i]@[a].1@;
        assert((terms_of(bindings_of(rest), v) + pair_terms(sols.last()@, v))[k] == sols[i]@[a].1@);
    } else {
        let pairs = sols.last()@;
        pairs.lemma_filter_contains(pred, a);
        let filtered = pairs.filter(pred);
        let k = choose|k: int| 0 <= k < filtered.len() && filtered[k] == pairs[a];
        let before = terms_of(bindings_of(rest), v);
        assert(pair_terms(pairs, v)[k] == pairs[a].1@);
        assert((before + pair_terms(pairs, v))[before.len() + k] == sols[i]@[a].1@);
    }
}

impl Binding {
    #[verifier::type_invariant]
    closed spec fn well_formed(self) -> bool {
        &&& self.vars.len() == self.values.len()
        &&& distinct_vars(self@)
    }

    /// A binding of no variables.
    pub fn new() -> (b: Binding)
        ensures
            b@ == Seq::<(Seq<char>, Seq<Seq<char>>)>::empty(),
            distinct_vars(b@),
    {
        let b = Binding { vars: Vec::new(), values: Vec::new() };
        assert(b@ =~= Seq::<(Seq<char>, Seq<Seq<char>>)>::empty());
        b
    }

    /// Records that `var` was bound to the term with N-Triples text `term`.
    pub fn add(&mut self, var: &str, term: String)
        ensures
            final(self)@ == binding_add(old(self)@, var@, term@),
            distinct_vars(final(self)@),
    {
        let mut taken = Binding::new();
        std::mem::swap(self, &mut taken);
        proof {
            use_type_invariant(&taken);
        }
        let ghost b = taken@;
        let Binding { mut vars, mut values } = taken;
        let key = String::from_str(var);
        let mut idx: usize = 0;
        let mut found = false;
        while idx < vars.len() && !found
            invariant
                vars.len() == values.len(),
                b == entries_view(vars@, values@),
                idx <= vars.len(),
                key@ == var@,
                found ==> idx < vars.len() && b[idx as int].0 == var@,
                !found ==> forall|k: int| 0 <= k < idx ==> b[k].0 != var@,
            decreases vars.len() - idx + (if found { 0int } else { 1int }),
        {
            if vars[idx] == key {
                found = true;
            } else {
                idx = idx + 1;
            }
        }
        proof {
            lemma_binding_add_distinct(b, var@, term@);
        }
        if found {
            assert(find_var(b, var@) == idx) by {
                let c = choose|i: int| 0 <= i < b.len() && b[i].0 == var@;
            }
            let mut inner = values.remove(idx);
            inner.push(term);
            values.insert(idx, inner);
            assert(entries_view(vars@, values@) =~= binding_add(b, var@, term@)) by {
                assert(texts_view(values@[idx as int]@) =~= b[idx as int].1.push(term@));
            }
            *self = Binding { vars, values };
        } else {
            assert(find_var(b, var@) == -1);
            vars.push(key);
            values.push(vec![term]);
            assert(entries_view(vars@, values@) =~= binding_add(b, var@, term@)) by {
                assert(texts_view(values@[idx as int]@) =~= seq![term@]);
            }
            *self = Binding { vars, values };
        }
        proof {
            use_type_invariant(&*self);
        }
    }

    /// The binding that collects the pairs of all `solutions`, in order; see [`bindings_of`].
    pub fn from_solutions(solutions: &Vec<Vec<(String, String)>>) -> (b: Binding)
        ensures
            b@ == bindings_of(solutions@),
            distinct_vars(b@),
    {
        let mut b = Binding::new();
        for i in 0..solutions.len()
            invariant
                b@ == bindings_of(solutions@.take(i as int)),
                distinct_vars(b@),
        {
            let pairs = &solutions[i];
            let ghost start = b@;
            for j in 0..pairs.len()
                invariant
                    b@ == add_pairs(start, pairs@.take(j as int)),
                    distinct_vars(b@),
            {
                b.add(pairs[j].0.as_str(), pairs[j].1.clone());
                assert(pairs@.take(j + 1).drop_last() =~= pairs@.take(j as int));
            }
            assert(pairs@.take(pairs.len() as int) =~= pairs@);
            assert(solutions@.take(i + 1).drop_last() =~= solutions@.take(i as int));
        }
        assert(solutions@.take(solutions.len() as int) =~= solutions@);
        b
    }

    /// The N-Triples texts of the terms that `var` was bound to, if it was bound.
    pub fn get(&self, var: &str) -> (r: Option<Vec<String>>)
        ensures
            match r {
                Some(v) => find_var(self@, var@) >= 0 && texts_view(v@) == self@[find_var(
                    self@,
                    var@,
                )].1,
                None => find_var(self@, var@) == -1,
            },
    {
        proof {
            use_type_invariant(self);
        }
        let key = String::from_str(var);
        let mut idx: usize = 0;
        while idx < self.vars.len()
            invariant
                self.vars.len() == self.values.len(),
                idx <= self.vars.len(),
                key@ == var@,
                distinct_vars(self@),
                forall|k: int| 0 <= k < idx ==> self@[k].0 != var@,
            decreases self.vars.len() - idx,
        {
            if self.vars[idx] == key {
                assert(self@[idx as int].0 == var@);
                assert(find_var(self@, var@) == idx) by {
                    let c = choose|i: int| 0 <= i < self@.len() && self@[i].0 == var@;
                    assert(distinct_vars(self@));
                }
                return Some(self.values[idx].clone());
            }
            idx = idx + 1;
        }
        None
    }
}

} // verus!
