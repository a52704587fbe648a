use std::collections::HashMap;
use vstd::prelude::*;
use crate::lsystem::{copy_atoms, LRules};
use crate::maprules::{text_chars, Atom};

verus! {

broadcast use vstd::std_specs::hash::group_hash_axioms;

/// A rule set over characters, held in a lookup table.
pub struct LStringRule {
    productions: HashMap<i128, Vec<char>>,
}

impl LStringRule {
    /// The production stored for `a`, if any.
    pub closed spec fn rule(&self, a: char) -> Option<Seq<char>> {
        if i128::MIN <= char::code_of(a) <= i128::MAX && self.productions@.contains_key(
            char::code_of(a) as i128,
        ) {
            Some(self.productions@[char::code_of(a) as i128]@)
        } else {
            None
        }
    }

    /// Creates a new, empty rule set.
    pub fn new() -> (r: LStringRule)
        ensures
            forall|a: char| #[trigger] r.rule(a) is None,
    {
        LStringRule { productions: HashMap::new() }
    }

    /// Sets atom `k` to produce `v`.
    pub fn set(&mut self, k: char, v: Vec<char>)
        ensures
            final(self).rule(k) == Some(v@),
            forall|a: char| a != k ==> #[trigger] final(self).rule(a) == old(self).rule(a),
    {
        self.productions.insert(k.code(), v);
        assert forall|a: char| a != k implies #[trigger] self.rule(a) == old(self).rule(a) by {
            if char::code_of(a) == char::code_of(k) {
                char::lemma_code_injective(a, k);
            }
        }
    }

    /// Sets atom `k` to produce the characters of `v`.
    pub fn set_str(&mut self, k: char, v: &str)
        ensures
            final(self).rule(k) == Some(v@),
            forall|a: char| a != k ==> #[trigger] final(self).rule(a) == old(self).rule(a),
    {
        let rule = text_chars(v);
        self.set(k, rule);
    }
}

impl LRules<char> for LStringRule {
    open spec fn production(&self, a: char) -> Option<Seq<char>> {
        self.rule(a)
    }

    fn map(&self, k: &char) -> (r: Option<Vec<char>>) {
        match self.productions.get(&k.code()) {
            Some(v) => Some(copy_atoms(v)),
            None => None,
        }
    }
}

/// The text whose characters are those of `v`, in order.
pub fn show(v: &Vec<char>) -> (out: String)
    ensures
        out@ == v@,
{
    crate::show(v)
}

} // verus!
