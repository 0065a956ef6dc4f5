use vstd::prelude::*;
use crate::literal::{Literal, LitV};
use crate::token::{Token, TokenV, view_tokens};

verus! {

/// The value bound last to `name` among `s`.
pub open spec fn find_value(s: Seq<(String, Literal)>, name: Seq<char>) -> Option<LitV>
    decreases s.len(),
{
    if s.len() == 0 {
        None
    } else if s.last().0@ == name {
        Some(s.last().1@)
    } else {
        find_value(s.drop_last(), name)
    }
}

proof fn lemma_find_value_update(s: Seq<(String, Literal)>, k: int, e: (String, Literal), key: Seq<char>)
    requires
        0 <= k < s.len(),
        e.0@ == s[k].0@,
        forall|j: int| k < j < s.len() ==> (#[trigger] s[j]).0@ != s[k].0@,
    ensures
        find_value(s.update(k, e), key) == (if key == e.0@ { Some(e.1@) } else { find_value(s, key) }),
    decreases s.len(),
{
    if k == s.len() - 1 {
        assert(s.update(k, e).drop_last() =~= s.drop_last());
    } else {
        assert(s.update(k, e).drop_last() =~= s.drop_last().update(k, e));
        assert(s.last() == s[s.len() - 1]);
        lemma_find_value_update(s.drop_last(), k, e, key);
    }
}

/// Names bound to values; a later binding of a name hides the earlier ones.
pub struct Scope {
    entries: Vec<(String, Literal)>,
}

impl View for Scope {
    type V = Map<Seq<char>, LitV>;

    closed spec fn view(&self) -> Map<Seq<char>, LitV> {
        Map::new(
            |k: Seq<char>| find_value(self.entries@, k) is Some,
            |k: Seq<char>| find_value(self.entries@, k)->Some_0,
        )
    }
}

impl Scope {
    /// A scope with no bindings.
    pub fn new() -> (r: Scope)
        ensures
            r@ == Map::<Seq<char>, LitV>::empty(),
    {
        let r = Scope { entries: Vec::new() };
        assert(r@ =~= Map::<Seq<char>, LitV>::empty());
        r
    }

    /// The index of the last entry for `name`, if any.
    fn position(&self, name: &String) -> (r: Option<usize>)
        ensures
            match r {
                Some(k) => k < self.entries@.len() && self.entries@[k as int].0@ == name@
                    && forall|j: int|
                    k < j < self.entries@.len() ==> (#[trigger] self.entries@[j]).0@ != name@,
                None => forall|j: int|
                    0 <= j < self.entries@.len() ==> (#[trigger] self.entries@[j]).0@ != name@,
            },
    {
        let mut k = self.entries.len();
        while k > 0
            invariant
                k <= self.entries@.len(),
                forall|j: int| k <= j < self.entries@.len() ==> (#[trigger] self.entries@[j]).0@ != name@,
            decreases k,
        {
            if self.entries[k - 1].0 == *name {
                return Some(k - 1);
            }
            k = k - 1;
        }
        None
    }

    /// Binds `name` to `value`, in place of any earlier binding of `name`.
    pub fn insert(&mut self, name: String, value: Literal)
        ensures
            final(self)@ == old(self)@.insert(name@, value@),
    {
        let ghost k = name@;
        let ghost v = value@;
        match self.position(&name) {
            Some(p) => {
                let ghost s = self.entries@;
                self.entries.set(p, (name, value));
                assert forall|key: Seq<char>| true implies find_value(self.entries@, key) == (
                    if key == k { Some(v) } else { find_value(s, key) }) by {
                    lemma_find_value_update(s, p as int, (self.entries@[p as int]), key);
                }
            },
            None => {
                self.entries.push((name, value));
                assert(self.entries@.drop_last() =~= old(self).entries@);
            },
        }
        assert(self@ =~= old(self)@.insert(k, v));
    }

    /// The value bound to `name`, if any.
    pub fn get(&self, name: &String) -> (r: Option<&Literal>)
        ensures
            r is Some <==> self@.contains_key(name@),
            r is Some ==> r->Some_0@ == self@[name@],
    {
        let mut k = self.entries.len();
        assert(self.entries@.subrange(0, k as int) =~= self.entries@);
        while k > 0
            invariant
                k <= self.entries@.len(),
                find_value(self.entries@, name@) == find_value(self.entries@.subrange(0, k as int), name@),
            decreases k,
        {
            let ghost s = self.entries@.subrange(0, k as int);
            assert(s.drop_last() =~= self.entries@.subrange(0, k - 1));
            if self.entries[k - 1].0 == *name {
                return Some(&self.entries[k - 1].1);
            }
            k = k - 1;
        }
        None
    }
}

/// Mathematical model of a function: its parameter names and its body.
pub struct FnDef {
    pub params: Seq<Seq<char>>,
    pub body: Seq<TokenV>,
}

/// A user-defined function: parameter names and the tokens of its body.
pub struct Function {
    pub params: Vec<String>,
    pub body: Vec<Token>,
}

pub open spec fn view_names(s: Seq<String>) -> Seq<Seq<char>> {
    s.map_values(|n: String| n@)
}

impl View for Function {
    type V = FnDef;

    open spec fn view(&self) -> FnDef {
        FnDef { params: view_names(self.params@), body: view_tokens(self.body@) }
    }
}

/// The function defined last under `name` among `s`.
pub open spec fn find_function(s: Seq<(String, Function)>, name: Seq<char>) -> Option<FnDef>
    decreases s.len(),
{
    if s.len() == 0 {
        None
    } else if s.last().0@ == name {
        Some(s.last().1@)
    } else {
        find_function(s.drop_last(), name)
    }
}

proof fn lemma_find_function_update(s: Seq<(String, Function)>, k: int, e: (String, Function), key: Seq<char>)
    requires
        0 <= k < s.len(),
        e.0@ == s[k].0@,
        forall|j: int| k < j < s.len() ==> (#[trigger] s[j]).0@ != s[k].0@,
    ensures
        find_function(s.update(k, e), key) == (if key == e.0@ { Some(e.1@) } else { find_function(s, key) }),
    decreases s.len(),
{
    if k == s.len() - 1 {
        assert(s.update(k, e).drop_last() =~= s.drop_last());
    } else {
        assert(s.update(k, e).drop_last() =~= s.drop_last().update(k, e));
        assert(s.last() == s[s.len() - 1]);
        lemma_find_function_update(s.drop_last(), k, e, key);
    }
}

/// The registry of user-defined functions by name.
pub struct FunctionTable {
    entries: Vec<(String, Function)>,
}

impl View for FunctionTable {
    type V = Map<Seq<char>, FnDef>;

    closed spec fn view(&self) -> Map<Seq<char>, FnDef> {
        Map::new(
            |k: Seq<char>| find_function(self.entries@, k) is Some,
            |k: Seq<char>| find_function(self.entries@, k)->Some_0,
        )
    }
}

impl FunctionTable {
    /// A registry with no functions.
    pub fn new() -> (r: FunctionTable)
        ensures
            r@ == Map::<Seq<char>, FnDef>::empty(),
    {
        let r = FunctionTable { entries: Vec::new() };
        assert(r@ =~= Map::<Seq<char>, FnDef>::empty());
        r
    }

    /// The index of the last entry for `name`, if any.
    fn position(&self, name: &String) -> (r: Option<usize>)
        ensures
            match r {
                Some(k) => k < self.entries@.len() && self.entries@[k as int].0@ == name@
                    && forall|j: int|
                    k < j < self.entries@.len() ==> (#[trigger] self.entries@[j]).0@ != name@,
                None => forall|j: int|
                    0 <= j < self.entries@.len() ==> (#[trigger] self.entries@[j]).0@ != name@,
            },
    {
        let mut k = self.entries.len();
        while k > 0
            invariant
                k <= self.entries@.len(),
                forall|j: int| k <= j < self.entries@.len() ==> (#[trigger] self.entries@[j]).0@ != name@,
            decreases k,
        {
            if self.entries[k - 1].0 == *name {
                return Some(k - 1);
            }
            k = k - 1;
        }
        None
    }

    /// Defines `name`, in place of any earlier definition of `name`.
    pub fn insert(&mut self, name: String, f: Function)
        ensures
            final(self)@ == old(self)@.insert(name@, f@),
    {
        let ghost k = name@;
        let ghost v = f@;
        match self.position(&name) {
            Some(p) => {
                let ghost s = self.entries@;
                self.entries.set(p, (name, f));
                assert forall|key: Seq<char>| true implies find_function(self.entries@, key) == (
                    if key == k { Some(v) } else { find_function(s, key) }) by {
                    lemma_find_function_update(s, p as int, (self.entries@[p as int]), key);
                }
            },
            None => {
                self.entries.push((name, f));
                assert(self.entries@.drop_last() =~= old(self).entries@);
            },
        }
        assert(self@ =~= old(self)@.insert(k, v));
    }

    /// The function defined under `name`, if any.
    pub fn get(&self, name: &String) -> (r: Option<&Function>)
        ensures
            r is Some <==> self@.contains_key(name@),
            r is Some ==> r->Some_0@ == self@[name@],
    {
        let mut k = self.entries.len();
        assert(self.entries@.subrange(0, k as int) =~= self.entries@);
        while k > 0
            invariant
                k <= self.entries@.len(),
                find_function(self.entries@, name@) == find_function(
                    self.entries@.subrange(0, k as int),
                    name@,
                ),
            decreases k,
        {
            let ghost s = self.entries@.subrange(0, k as int);
            assert(s.drop_last() =~= self.entries@.subrange(0, k - 1));
            if self.entries[k - 1].0 == *name {
                return Some(&self.entries[k - 1].1);
            }
            k = k - 1;
        }
        None
    }
}

} // verus!
