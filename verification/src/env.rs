//! A snapshot of the process environment, so that configuration checks are
//! plain functions of the variables they read.

use vstd::prelude::*;

use crate::text::str_eq;

verus! {

broadcast use vstd::string::group_string_axioms;

/// Environment variables as name/value pairs (as `std::env::vars` yields them).
pub struct Environment {
    vars: Vec<(String, String)>,
}

/// The value of `name` in `vars`: the first pair with that name.
pub open spec fn lookup(vars: Seq<(Seq<char>, Seq<char>)>, name: Seq<char>) -> Option<Seq<char>>
    decreases vars.len(),
{
    if vars.len() == 0 {
        None
    } else if vars[0].0 == name {
        Some(vars[0].1)
    } else {
        lookup(vars.drop_first(), name)
    }
}

pub open spec fn pair_view(p: (String, String)) -> (Seq<char>, Seq<char>) {
    (p.0@, p.1@)
}

impl View for Environment {
    type V = Seq<(Seq<char>, Seq<char>)>;

    closed spec fn view(&self) -> Seq<(Seq<char>, Seq<char>)> {
        self.vars@.map_values(|p: (String, String)| pair_view(p))
    }
}

impl Environment {
    /// The snapshot holding `vars`, in order.
    pub fn from_pairs(vars: Vec<(String, String)>) -> (e: Self)
        ensures
            e@ == vars@.map_values(|p: (String, String)| pair_view(p)),
    {
        Environment { vars }
    }

    /// The value of `name`, like `std::env::var(name).ok()`.
    pub fn get(&self, name: &str) -> (r: Option<String>)
        ensures
            match r {
                Some(v) => lookup(self@, name@) == Some(v@),
                None => lookup(self@, name@) is None,
            },
    {
        let ghost all = self@;
        let mut i: usize = 0;
        assert(all.skip(0) =~= all);
        while i < self.vars.len()
            invariant
                i <= self.vars.len(),
                all == self@,
                all.len() == self.vars.len(),
                lookup(all, name@) == lookup(all.skip(i as int), name@),
            decreases self.vars.len() - i,
        {
            let ghost rest = all.skip(i as int);
            assert(rest[0] == pair_view(self.vars@[i as int]));
            if str_eq(self.vars[i].0.as_str(), name) {
                return Some(self.vars[i].1.clone());
            }
            assert(rest.drop_first() =~= all.skip(i + 1));
            i = i + 1;
        }
        None
    }
}

} // verus!
