use vstd::prelude::*;

verus! {

/// A set of production rules for an L-system: it maps an atom to the list of
/// atoms that replaces it in the state.
pub trait LRules<T> {
    /// The production of `a`, or `None` where `a` is terminal.
    spec fn production(&self, a: T) -> Option<Seq<T>>;

    /// Maps one atom to its production: `Some` if the atom is a variable
    /// with a production rule, `None` if the atom is terminal.
    fn map(&self, input: &T) -> (r: Option<Vec<T>>)
        ensures
            opt_view(r) == self.production(*input),
    ;
}

/// The view of an optional vector.
pub open spec fn opt_view<T>(r: Option<Vec<T>>) -> Option<Seq<T>> {
    match r {
        Some(v) => Some(v@),
        None => None,
    }
}

/// What one atom becomes in the next generation: its production, or itself.
pub open spec fn image<T, P: LRules<T>>(p: P, a: T) -> Seq<T> {
    match p.production(a) {
        Some(w) => w,
        None => seq![a],
    }
}

/// The next generation of `s`: each atom replaced by its image, in order.
pub open spec fn rewrite<T, P: LRules<T>>(p: P, s: Seq<T>) -> Seq<T>
    decreases s.len(),
{
    if s.len() == 0 {
        Seq::empty()
    } else {
        rewrite(p, s.drop_last()) + image(p, s.last())
    }
}

/// The number of atoms of the next generation: for each atom the length of
/// its production, or one for a terminal atom.
pub open spec fn weight<T, P: LRules<T>>(p: P, s: Seq<T>) -> nat
    decreases s.len(),
{
    if s.len() == 0 {
        0
    } else {
        weight(p, s.drop_last()) + match p.production(s.last()) {
            Some(w) => w.len(),
            None => 1,
        }
    }
}

/// Some atom of `s` has a production.
pub open spec fn has_variable<T, P: LRules<T>>(p: P, s: Seq<T>) -> bool {
    exists|i: int| 0 <= i < s.len() && (#[trigger] p.production(s[i])) is Some
}

/// The result of one advance from state `s`: the next generation, or `None`
/// at a fixed point.
pub open spec fn step<T, P: LRules<T>>(p: P, s: Seq<T>) -> Option<Seq<T>> {
    if has_variable(p, s) {
        Some(rewrite(p, s))
    } else {
        None
    }
}

/// One advance from state `s` returned `r` and left the state `s2`.
pub open spec fn advanced<T, P: LRules<T>>(p: P, s: Seq<T>, r: Option<Seq<T>>, s2: Seq<T>) -> bool {
    &&& r == step(p, s)
    &&& s2 == match r {
        Some(t) => t,
        None => s,
    }
}

/// `t` lists the results of `t.len()` consecutive advances from state `s`.
pub open spec fn is_run<T, P: LRules<T>>(p: P, s: Seq<T>, t: Seq<Option<Seq<T>>>) -> bool {
    exists|states: Seq<Seq<T>>| #[trigger] run_states(p, s, t, states)
}

/// `states` are the states met along the run `t` from `s`.
pub open spec fn run_states<T, P: LRules<T>>(
    p: P,
    s: Seq<T>,
    t: Seq<Option<Seq<T>>>,
    states: Seq<Seq<T>>,
) -> bool {
    &&& states.len() == t.len() + 1
    &&& states[0] == s
    &&& forall|i: int|
        0 <= i < t.len() ==> advanced(p, #[trigger] states[i], t[i], states[i + 1])
}

/// A fully specified L-system: a rule set, the initial sequence, and the current state.
pub struct LSystem<T, P> where P: LRules<T> {
    rules: P,
    pub initial: Vec<T>,
    state: Vec<T>,
}

/// A copy of `v`, element by element.
pub(crate) fn copy_atoms<T: Copy>(v: &Vec<T>) -> (r: Vec<T>)
    ensures
        r@ == v@,
{
    let mut r: Vec<T> = Vec::new();
    for i in 0..v.len()
        invariant
            r@ == v@.take(i as int),
    {
        r.push(v[i]);
        assert(v@.take(i + 1) == v@.take(i as int).push(v@[i as int]));
    }
    assert(v@.take(v.len() as int) == v@);
    r
}

impl<T, P> LSystem<T, P> where P: LRules<T>, T: Copy {
    /// The current state.
    pub closed spec fn current(&self) -> Seq<T> {
        self.state@
    }

    /// The initial sequence.
    pub closed spec fn initial_seq(&self) -> Seq<T> {
        self.initial@
    }

    /// The rule set.
    pub closed spec fn rule_set(&self) -> P {
        self.rules
    }

    /// Creates a new L-system from rules and an initial sequence; its state
    /// starts as a copy of the initial sequence.
    pub fn new(rules: P, initial: Vec<T>) -> (r: LSystem<T, P>)
        ensures
            r.rule_set() == rules,
            r.initial_seq() == initial@,
            r.current() == initial@,
    {
        let state = copy_atoms(&initial);
        LSystem { rules: rules, initial: initial, state: state }
    }

    /// Sets the state back to the initial sequence.
    pub fn reset(&mut self)
        ensures
            final(self).rule_set() == old(self).rule_set(),
            final(self).initial_seq() == old(self).initial_seq(),
            final(self).current() == old(self).initial_seq(),
    {
        self.state = copy_atoms(&self.initial);
    }

    /// Advances the system by one generation: every atom of the state is
    /// replaced by its production, terminal atoms are kept. Returns a copy of
    /// the new state, or `None` (leaving the state as it was) where no atom
    /// has a production.
    pub fn next(&mut self) -> (r: Option<Vec<T>>)
        ensures
            final(self).rule_set() == old(self).rule_set(),
            final(self).initial_seq() == old(self).initial_seq(),
            advanced(old(self).rule_set(), old(self).current(), opt_view(r), final(self).current()),
    {
        let mut out: Vec<T> = Vec::new();
        let mut expanded = false;
        let n = self.state.len();
        for i in 0..n
            invariant
                n == self.state.len(),
                out@ == rewrite(self.rules, self.state@.take(i as int)),
                expanded == has_variable(self.rules, self.state@.take(i as int)),
        {
            let ghost s = self.state@;
            let atom = self.state[i];
            let production = self.rules.map(&atom);
            assert(s.take(i + 1).drop_last() == s.take(i as int));
            assert(s.take(i + 1).last() == atom);
            match production {
                Some(atoms) => {
                    let ghost before = out@;
                    for j in 0..atoms.len()
                        invariant
                            out@ == before + atoms@.take(j as int),
                    {
                        out.push(atoms[j]);
                        assert(atoms@.take(j + 1) == atoms@.take(j as int).push(atoms@[j as int]));
                    }
                    assert(atoms@.take(atoms.len() as int) == atoms@);
                    assert(s.take(i + 1)[i as int] == atom);
                    expanded = true;
                },
                None => {
                    out.push(atom);
                    assert(out@ == rewrite(self.rules, s.take(i as int)) + seq![atom]);
                    proof {
                        if expanded {
                            let k = choose|k: int| 0 <= k < s.take(i as int).len()
                                && (#[trigger] self.rules.production(s.take(i as int)[k])) is Some;
                            assert(s.take(i + 1)[k] == s.take(i as int)[k]);
                        }
                        if has_variable(self.rules, s.take(i + 1)) {
                            let k = choose|k: int| 0 <= k < s.take(i + 1).len()
                                && (#[trigger] self.rules.production(s.take(i + 1)[k])) is Some;
                            assert(k < i);
                            assert(s.take(i as int)[k] == s.take(i + 1)[k]);
                        }
                    }
                },
            }
        }
        assert(self.state@.take(n as int) == self.state@);
        if expanded {
            self.state = out;
            Some(copy_atoms(&self.state))
        } else {
            None
        }
    }
}

/// Rewriting distributes over concatenation.
proof fn lemma_rewrite_concat<T, P: LRules<T>>(p: P, a: Seq<T>, b: Seq<T>)
    ensures
        rewrite(p, a + b) == rewrite(p, a) + rewrite(p, b),
    decreases b.len(),
{
    if b.len() == 0 {
        assert(a + b == a);
        assert(rewrite(p, a) + rewrite(p, b) == rewrite(p, a));
    } else {
        assert((a + b).drop_last() == a + b.drop_last());
        assert((a + b).last() == b.last());
        lemma_rewrite_concat(p, a, b.drop_last());
        assert(rewrite(p, a + b) == rewrite(p, a) + rewrite(p, b.drop_last()) + image(p, b.last()));
    }
}

/// Length accounting: the next generation has, for each atom of the old
/// state, as many atoms as its production, or one for a terminal atom.
pub proof fn lemma_length_accounting<T, P: LRules<T>>(p: P, s: Seq<T>)
    ensures
        rewrite(p, s).len() == weight(p, s),
        step(p, s) matches Some(t) ==> t.len() == weight(p, s),
    decreases s.len(),
{
    if s.len() > 0 {
        lemma_length_accounting(p, s.drop_last());
    }
}

/// Terminal pass-through: an atom without a production stays in the next
/// generation, between the images of the atoms before it and those after it.
pub proof fn lemma_terminal_pass_through<T, P: LRules<T>>(p: P, s: Seq<T>, i: int)
    requires
        0 <= i < s.len(),
        p.production(s[i]) is None,
    ensures
        rewrite(p, s) == rewrite(p, s.take(i)) + seq![s[i]] + rewrite(p, s.skip(i + 1)),
        rewrite(p, s)[rewrite(p, s.take(i)).len() as int] == s[i],
{
    assert(s == s.take(i + 1) + s.skip(i + 1));
    lemma_rewrite_concat(p, s.take(i + 1), s.skip(i + 1));
    assert(s.take(i + 1).drop_last() == s.take(i));
    assert(rewrite(p, s.take(i + 1)) == rewrite(p, s.take(i)) + seq![s[i]]);
}

/// Fixed point: from a state whose atoms are all terminal, every advance
/// signals the end and leaves the state as it is.
pub proof fn lemma_fixed_point<T, P: LRules<T>>(p: P, s: Seq<T>, t: Seq<Option<Seq<T>>>)
    requires
        forall|i: int| 0 <= i < s.len() ==> (#[trigger] p.production(s[i])) is None,
        is_run(p, s, t),
    ensures
        forall|k: int| 0 <= k < t.len() ==> #[trigger] t[k] is None,
{
    let states = choose|states: Seq<Seq<T>>| #[trigger] run_states(p, s, t, states);
    assert forall|k: int| 0 <= k < t.len() implies #[trigger] t[k] is None && states[k] == s by {
        lemma_fixed_point_prefix(p, s, t, states, k);
    }
}

proof fn lemma_fixed_point_prefix<T, P: LRules<T>>(
    p: P,
    s: Seq<T>,
    t: Seq<Option<Seq<T>>>,
    states: Seq<Seq<T>>,
    k: int,
)
    requires
        forall|i: int| 0 <= i < s.len() ==> (#[trigger] p.production(s[i])) is None,
        run_states(p, s, t, states),
        0 <= k < t.len(),
    ensures
        t[k] is None,
        states[k] == s,
        states[k + 1] == s,
    decreases k,
{
    if k > 0 {
        lemma_fixed_point_prefix(p, s, t, states, k - 1);
    }
    assert(advanced(p, states[k], t[k], states[k + 1]));
    assert(!has_variable(p, s));
}

proof fn lemma_runs_agree_prefix<T, P: LRules<T>>(
    p: P,
    s: Seq<T>,
    t1: Seq<Option<Seq<T>>>,
    t2: Seq<Option<Seq<T>>>,
    st1: Seq<Seq<T>>,
    st2: Seq<Seq<T>>,
    k: int,
)
    requires
        run_states(p, s, t1, st1),
        run_states(p, s, t2, st2),
        t1.len() == t2.len(),
        0 <= k <= t1.len(),
    ensures
        st1[k] == st2[k],
        k < t1.len() ==> t1[k] == t2[k],
    decreases k,
{
    if k > 0 {
        lemma_runs_agree_prefix(p, s, t1, t2, st1, st2, k - 1);
        assert(advanced(p, st1[k - 1], t1[k - 1], st1[k]));
        assert(advanced(p, st2[k - 1], t2[k - 1], st2[k]));
    }
    if k < t1.len() {
        assert(advanced(p, st1[k], t1[k], st1[k + 1]));
        assert(advanced(p, st2[k], t2[k], st2[k + 1]));
    }
}

/// Determinism: two runs of the same length from the same state under the
/// same rules return the same results.
pub proof fn lemma_deterministic<T, P: LRules<T>>(
    p: P,
    s: Seq<T>,
    t1: Seq<Option<Seq<T>>>,
    t2: Seq<Option<Seq<T>>>,
)
    requires
        is_run(p, s, t1),
        is_run(p, s, t2),
        t1.len() == t2.len(),
    ensures
        t1 == t2,
{
    let st1 = choose|st: Seq<Seq<T>>| #[trigger] run_states(p, s, t1, st);
    let st2 = choose|st: Seq<Seq<T>>| #[trigger] run_states(p, s, t2, st);
    assert forall|k: int| 0 <= k < t1.len() implies t1[k] == t2[k] by {
        lemma_runs_agree_prefix(p, s, t1, t2, st1, st2, k);
    }
    assert(t1 =~= t2);
}

/// Reset: a system that was reset and a newly built one with the same rules
/// and initial sequence return the same results on the same number of
/// advances.
pub proof fn lemma_reset_like_new<T: Copy, P: LRules<T>>(
    reset: LSystem<T, P>,
    fresh: LSystem<T, P>,
    t1: Seq<Option<Seq<T>>>,
    t2: Seq<Option<Seq<T>>>,
)
    requires
        reset.rule_set() == fresh.rule_set(),
        reset.initial_seq() == fresh.initial_seq(),
        reset.current() == reset.initial_seq(),
        fresh.current() == fresh.initial_seq(),
        is_run(reset.rule_set(), reset.current(), t1),
        is_run(fresh.rule_set(), fresh.current(), t2),
        t1.len() == t2.len(),
    ensures
        t1 == t2,
{
    lemma_deterministic(reset.rule_set(), reset.current(), t1, t2);
}

} // verus!
