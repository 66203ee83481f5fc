//! The table of global variables: a map from names to values.
//!
//! The table is a list of bindings in which no name occurs twice. Its
//! mathematical value is the map that the bindings spell out.

use vstd::prelude::*;
use crate::text::{copy_bytes, same_bytes};
use crate::value::{Value, ValueView};

verus! {

/// A global variable: its name and its value.
#[derive(Debug)]
pub struct Global {
    pub name: Vec<u8>,
    pub value: Value,
}

/// The global variables.
#[derive(Debug)]
pub struct Globals {
    pub entries: Vec<Global>,
}

/// The map that the first `n` bindings spell out.
pub open spec fn map_of(entries: Seq<Global>, n: int) -> Map<Seq<u8>, ValueView>
    decreases n,
{
    if n <= 0 {
        Map::empty()
    } else {
        map_of(entries, n - 1).insert(entries[n - 1].name@, entries[n - 1].value@)
    }
}

/// No name occurs twice among the bindings.
pub open spec fn distinct(entries: Seq<Global>) -> bool {
    forall|i: int, j: int|
        0 <= i < j < entries.len() ==> (#[trigger] entries[i]).name@ != (
        #[trigger] entries[j]).name@
}

/// The keys of the map are the names of the bindings.
pub proof fn lemma_map_of_keys(entries: Seq<Global>, n: int, name: Seq<u8>)
    requires
        0 <= n <= entries.len(),
    ensures
        map_of(entries, n).contains_key(name) <==> exists|i: int|
            0 <= i < n && (#[trigger] entries[i]).name@ == name,
    decreases n,
{
    if n > 0 {
        lemma_map_of_keys(entries, n - 1, name);
        if entries[n - 1].name@ == name {
            assert(0 <= n - 1 < n && entries[n - 1].name@ == name);
        }
    }
}

/// Where no name occurs twice, the map gives each name the value bound to it.
pub proof fn lemma_map_of_value(entries: Seq<Global>, n: int, i: int)
    requires
        distinct(entries),
        0 <= i < n <= entries.len(),
    ensures
        map_of(entries, n).contains_key(entries[i].name@),
        map_of(entries, n)[entries[i].name@] == entries[i].value@,
    decreases n,
{
    if i < n - 1 {
        lemma_map_of_value(entries, n - 1, i);
    }
}

/// The map of the first bindings does not depend on the later ones.
pub proof fn lemma_map_of_prefix(a: Seq<Global>, b: Seq<Global>, n: int)
    requires
        0 <= n <= a.len(),
        n <= b.len(),
        forall|i: int| 0 <= i < n ==> a[i] == b[i],
    ensures
        map_of(a, n) == map_of(b, n),
    decreases n,
{
    if n > 0 {
        lemma_map_of_prefix(a, b, n - 1);
    }
}

/// Where no name occurs twice, giving the binding at `i` a new value updates
/// the map at its name.
pub proof fn lemma_map_of_update(entries: Seq<Global>, later: Seq<Global>, n: int, i: int)
    requires
        distinct(entries),
        0 <= i < entries.len(),
        0 <= n <= entries.len(),
        later.len() == entries.len(),
        later[i].name@ == entries[i].name@,
        forall|j: int| 0 <= j < entries.len() && j != i ==> later[j] == entries[j],
    ensures
        distinct(later),
        map_of(later, n) == if i < n {
            map_of(entries, n).insert(entries[i].name@, later[i].value@)
        } else {
            map_of(entries, n)
        },
    decreases n,
{
    assert(distinct(later)) by {
        assert forall|a: int, b: int| 0 <= a < b < later.len() implies (#[trigger] later[a]).name@
            != (#[trigger] later[b]).name@ by {
            assert(entries[a].name@ != entries[b].name@);
        }
    }
    if n > 0 {
        lemma_map_of_update(entries, later, n - 1, i);
        if i < n - 1 {
            assert(entries[i].name@ != entries[n - 1].name@);
            assert(map_of(later, n) =~= map_of(entries, n).insert(
                entries[i].name@,
                later[i].value@,
            ));
        } else if i == n - 1 {
            assert(map_of(later, n) =~= map_of(entries, n).insert(
                entries[i].name@,
                later[i].value@,
            ));
        }
    }
}

impl View for Globals {
    type V = Map<Seq<u8>, ValueView>;

    open spec fn view(&self) -> Map<Seq<u8>, ValueView> {
        map_of(self.entries@, self.entries@.len() as int)
    }
}

impl Globals {
    /// No name is bound twice.
    pub open spec fn wf(&self) -> bool {
        distinct(self.entries@)
    }

    /// A table with no bindings.
    pub fn new() -> (globals: Globals)
        ensures
            globals.wf(),
            globals@ == Map::<Seq<u8>, ValueView>::empty(),
    {
        Globals { entries: Vec::new() }
    }

    /// The index of the binding of `name`, if there is one.
    fn find(&self, name: &[u8]) -> (found: Option<usize>)
        requires
            self.wf(),
        ensures
            found is Some <==> self@.contains_key(name@),
            found matches Some(i) ==> i < self.entries@.len() && self.entries@[i as int].name@
                == name@,
    {
        let mut i: usize = 0;
        while i < self.entries.len()
            invariant
                self.wf(),
                i <= self.entries@.len(),
                forall|j: int| 0 <= j < i ==> (#[trigger] self.entries@[j]).name@ != name@,
            decreases self.entries@.len() - i,
        {
            if same_bytes(self.entries[i].name.as_slice(), name) {
                proof {
                    lemma_map_of_value(self.entries@, self.entries@.len() as int, i as int);
                }
                return Some(i);
            }
            i += 1;
        }
        proof {
            lemma_map_of_keys(self.entries@, self.entries@.len() as int, name@);
        }
        None
    }

    /// Whether `name` is bound.
    pub fn contains(&self, name: &[u8]) -> (bound: bool)
        requires
            self.wf(),
        ensures
            bound == self@.contains_key(name@),
    {
        self.find(name).is_some()
    }

    /// A copy of the value bound to `name`, if it is bound.
    pub fn get(&self, name: &[u8]) -> (value: Option<Value>)
        requires
            self.wf(),
        ensures
            value is Some <==> self@.contains_key(name@),
            value matches Some(v) ==> v@ == self@[name@],
    {
        match self.find(name) {
            Some(i) => {
                proof {
                    lemma_map_of_value(self.entries@, self.entries@.len() as int, i as int);
                }
                Some(self.entries[i].value.clone())
            },
            None => None,
        }
    }

    /// Binds `name` to `value`, whether or not it was bound before.
    pub fn define(&mut self, name: &[u8], value: Value)
        requires
            old(self).wf(),
        ensures
            final(self).wf(),
            final(self)@ == old(self)@.insert(name@, value@),
    {
        match self.find(name) {
            Some(i) => {
                let name = copy_bytes(name);
                self.entries.set(i, Global { name, value });
                proof {
                    lemma_map_of_update(
                        old(self).entries@,
                        self.entries@,
                        self.entries@.len() as int,
                        i as int,
                    );
                }
            },
            None => {
                let name = copy_bytes(name);
                proof {
                    lemma_map_of_keys(self.entries@, self.entries@.len() as int, name@);
                }
                self.entries.push(Global { name, value });
                proof {
                    lemma_map_of_prefix(
                        old(self).entries@,
                        self.entries@,
                        old(self).entries@.len() as int,
                    );
                }
            },
        }
    }

    /// Gives `name` the value `value` if it is bound, and says whether it
    /// was. An unbound name stays unbound.
    pub fn assign(&mut self, name: &[u8], value: Value) -> (bound: bool)
        requires
            old(self).wf(),
        ensures
            final(self).wf(),
            bound == old(self)@.contains_key(name@),
            final(self)@ == if bound { old(self)@.insert(name@, value@) } else { old(self)@ },
    {
        if self.contains(name) {
            self.define(name, value);
            true
        } else {
            false
        }
    }
}

} // verus!
