//! The environment: a flat, session-scoped mapping from identifier names to
//! values.  Its model is a map from character sequences to model values.

use vstd::prelude::*;

use crate::value::{SVal, Value};

verus! {

/// The map denoted by an association list, later entries overwriting
/// earlier ones.
pub open spec fn assoc_map(s: Seq<(String, Value)>) -> Map<Seq<char>, SVal>
    decreases s.len(),
{
    if s.len() == 0 {
        Map::empty()
    } else {
        assoc_map(s.drop_last()).insert(s.last().0@, s.last().1@)
    }
}

/// A flat name-to-value mapping with insert-or-overwrite and lookup.
pub struct Environment {
    variables: Vec<(String, Value)>,
}

impl View for Environment {
    type V = Map<Seq<char>, SVal>;

    closed spec fn view(&self) -> Map<Seq<char>, SVal> {
        assoc_map(self.variables@)
    }
}

impl Environment {
    /// An environment with no bindings.
    pub fn new() -> (e: Self)
        ensures
            e@ == Map::<Seq<char>, SVal>::empty(),
    {
        Environment { variables: Vec::new() }
    }

    /// Binds `name` to `val`, overwriting any earlier binding.
    pub fn set_var(&mut self, name: &String, val: Value)
        ensures
            final(self)@ == old(self)@.insert(name@, val@),
    {
        let ghost old_vars = self.variables@;
        self.variables.push((name.clone(), val));
        proof {
            assert(self.variables@.drop_last() =~= old_vars);
        }
    }

    /// The value bound to `name`, if any.
    pub fn get_var(&self, name: &String) -> (r: Option<&Value>)
        ensures
            match r {
                Some(v) => self@.contains_key(name@) && v@ == self@[name@],
                None => !self@.contains_key(name@),
            },
    {
        let ghost s = self.variables@;
        let mut i: usize = self.variables.len();
        proof {
            assert(s.take(s.len() as int) =~= s);
        }
        while i > 0
            invariant
                0 <= i <= s.len(),
                s == self.variables@,
                assoc_map(s).contains_key(name@) == assoc_map(s.take(i as int)).contains_key(
                    name@,
                ),
                assoc_map(s).contains_key(name@) ==> assoc_map(s)[name@] == assoc_map(
                    s.take(i as int),
                )[name@],
            decreases i,
        {
            i = i - 1;
            proof {
                assert(s.take(i + 1).drop_last() =~= s.take(i as int));
                assert(s.take(i + 1).last() == s[i as int]);
            }
            let entry = &self.variables[i];
            if entry.0.eq(name) {
                return Some(&entry.1);
            }
        }
        proof {
            assert(s.take(0) =~= Seq::<(String, Value)>::empty());
        }
        None
    }
}

} // verus!
