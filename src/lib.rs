//! A library for specifying and running Lindenmayer systems (L-systems).
//!
//! An `LSystem<T, P>` holds an initial sequence over the alphabet `T` and a rule set `P`
//! (anything that implements `LRules<T>`), and rewrites its current state one
//! generation at a time. `MapRules` is a rule set backed by a lookup table.
use vstd::prelude::*;

pub mod lsystem;
pub mod maprules;
pub mod lstring;

pub use lsystem::{LRules, LSystem};
pub use maprules::{Atom, MapRules};
pub use lstring::LStringRule;

verus! {

/// Relies on `String::push`: appends one character at the end.
#[verifier::external_body]
pub(crate) fn push_char(s: &mut String, c: char)
    ensures
        final(s)@ == old(s)@.push(c),
{
    s.push(c)
}

/// The text whose characters are those of `v`, in order.
pub fn show(v: &Vec<char>) -> (out: String)
    ensures
        out@ == v@,
{
    let mut out = String::new();
    for i in 0..v.len()
        invariant
            out@ == v@.take(i as int),
    {
        push_char(&mut out, v[i]);
        assert(v@.take(i + 1) == v@.take(i as int).push(v@[i as int]));
    }
    assert(v@.take(v.len() as int) == v@);
    out
}

} // verus!
