use std::collections::HashMap;
use vstd::prelude::*;
use crate::lsystem::{copy_atoms, opt_view, LRules};

verus! {

broadcast use vstd::std_specs::hash::group_hash_axioms;

/// An atom that a lookup table can hold: it has an integer code, and two
/// atoms with the same code are equal.
pub trait Atom: Copy {
    /// The code of `a`.
    spec fn code_of(a: Self) -> int;

    /// Computes the code of this atom.
    fn code(&self) -> (r: i128)
        ensures
            r as int == Self::code_of(*self),
    ;

    /// Different atoms have different codes.
    proof fn lemma_code_injective(a: Self, b: Self)
        requires
            Self::code_of(a) == Self::code_of(b),
        ensures
            a == b,
    ;
}

/// Relies on `u32::from(char)`: the scalar value of the character.
#[verifier::external_body]
fn scalar_value(c: char) -> (r: u32)
    ensures
        r as int == c as int,
{
    u32::from(c)
}

impl Atom for char {
    open spec fn code_of(a: char) -> int {
        a as int
    }

    fn code(&self) -> (r: i128) {
        scalar_value(*self) as i128
    }

    proof fn lemma_code_injective(a: char, b: char) {
    }
}

impl Atom for i32 {
    open spec fn code_of(a: i32) -> int {
        a as int
    }

    fn code(&self) -> (r: i128) {
        *self as i128
    }

    proof fn lemma_code_injective(a: i32, b: i32) {
    }
}

impl Atom for i64 {
    open spec fn code_of(a: i64) -> int {
        a as int
    }

    fn code(&self) -> (r: i128) {
        *self as i128
    }

    proof fn lemma_code_injective(a: i64, b: i64) {
    }
}

impl Atom for u8 {
    open spec fn code_of(a: u8) -> int {
        a as int
    }

    fn code(&self) -> (r: i128) {
        *self as i128
    }

    proof fn lemma_code_injective(a: u8, b: u8) {
    }
}

impl Atom for u32 {
    open spec fn code_of(a: u32) -> int {
        a as int
    }

    fn code(&self) -> (r: i128) {
        *self as i128
    }

    proof fn lemma_code_injective(a: u32, b: u32) {
    }
}

impl Atom for u64 {
    open spec fn code_of(a: u64) -> int {
        a as int
    }

    fn code(&self) -> (r: i128) {
        *self as i128
    }

    proof fn lemma_code_injective(a: u64, b: u64) {
    }
}

impl Atom for usize {
    open spec fn code_of(a: usize) -> int {
        a as int
    }

    fn code(&self) -> (r: i128) {
        *self as i128
    }

    proof fn lemma_code_injective(a: usize, b: usize) {
    }
}

/// A simple rule set that maps an atom to a list of atoms with a lookup
/// table.
pub struct MapRules<T: Atom> {
    productions: HashMap<i128, Vec<T>>,
}

impl<T: Atom> MapRules<T> {
    /// The production stored for `a`, if any.
    pub closed spec fn rule(&self, a: T) -> Option<Seq<T>> {
        if i128::MIN <= T::code_of(a) <= i128::MAX && self.productions@.contains_key(
            T::code_of(a) as i128,
        ) {
            Some(self.productions@[T::code_of(a) as i128]@)
        } else {
            None
        }
    }

    /// Creates a new, empty rule set.
    pub fn new() -> (r: MapRules<T>)
        ensures
            forall|a: T| #[trigger] r.rule(a) is None,
    {
        MapRules { productions: HashMap::new() }
    }

    /// Sets atom `k` to produce `v`; returns the production it replaced, if
    /// any.
    pub fn set(&mut self, k: T, v: Vec<T>) -> (r: Option<Vec<T>>)
        ensures
            opt_view(r) == old(self).rule(k),
            final(self).rule(k) == Some(v@),
            forall|a: T| a != k ==> #[trigger] final(self).rule(a) == old(self).rule(a),
    {
        let ghost vv = v@;
        let r = self.productions.insert(k.code(), v);
        assert forall|a: T| a != k implies #[trigger] self.rule(a) == old(self).rule(a) by {
            if T::code_of(a) == T::code_of(k) {
                T::lemma_code_injective(a, k);
            }
        }
        r
    }
}

impl MapRules<char> {
    /// Sets atom `k` to produce the characters of `v`; returns the production
    /// it replaced, if any.
    pub fn set_str(&mut self, k: char, v: &str) -> (r: Option<Vec<char>>)
        ensures
            opt_view(r) == old(self).rule(k),
            final(self).rule(k) == Some(v@),
            forall|a: char| a != k ==> #[trigger] final(self).rule(a) == old(self).rule(a),
    {
        let rule = text_chars(v);
        self.set(k, rule)
    }
}

impl<T: Atom> LRules<T> for MapRules<T> {
    open spec fn production(&self, a: T) -> Option<Seq<T>> {
        self.rule(a)
    }

    fn map(&self, input: &T) -> (r: Option<Vec<T>>) {
        match self.productions.get(&input.code()) {
            Some(v) => Some(copy_atoms(v)),
            None => None,
        }
    }
}

/// The characters of `v`, in order.
pub(crate) fn text_chars(v: &str) -> (r: Vec<char>)
    ensures
        r@ == v@,
{
    let mut rule: Vec<char> = Vec::new();
    for c in it: v.chars()
        invariant
            rule@ == it.seq().take(it.index() as int),
    {
        rule.push(c);
    }
    rule
}

} // verus!
