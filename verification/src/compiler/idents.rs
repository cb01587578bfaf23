//! The identifier table: every name the reader meets is remembered once and
//! known from then on by a small integer.

use vstd::prelude::*;

verus! {

/// An interned name: its position in the table that interned it.
#[derive(Copy, Clone, Debug, PartialEq, Eq, Structural, Hash)]
pub struct Ident(pub usize);

/// The names interned so far, in the order of their first appearance. A
/// name is looked up by a search from the front: of a hash table keyed by
/// strings Verus would know too little to prove that a name is interned
/// once.
pub struct IdentTable {
    idents: Vec<String>,
}

/// The names held by a vector of strings.
pub open spec fn names_of(v: Seq<String>) -> Seq<Seq<char>> {
    Seq::new(v.len(), |i: int| v[i]@)
}

/// No name occurs twice.
pub open spec fn distinct_names(names: Seq<Seq<char>>) -> bool {
    forall|i: int, j: int| 0 <= i < j < names.len() ==> names[i] != names[j]
}

/// The names `after` begin with the names `before`: every name has kept
/// its place.
pub open spec fn names_kept(before: Seq<Seq<char>>, after: Seq<Seq<char>>) -> bool {
    &&& before.len() <= after.len()
    &&& forall|i: int| 0 <= i < before.len() ==> #[trigger] after[i] == before[i]
}

/// The table after interning `name`.
pub open spec fn intern_names(names: Seq<Seq<char>>, name: Seq<char>) -> Seq<Seq<char>> {
    if names.contains(name) {
        names
    } else {
        names.push(name)
    }
}

/// The position at which `name` stands once it is interned.
pub open spec fn intern_index(names: Seq<Seq<char>>, name: Seq<char>) -> int {
    if names.contains(name) {
        names.index_of(name)
    } else {
        names.len() as int
    }
}

/// The position of `name` among `names`, by linear search from the front.
pub fn find_name(names: &Vec<String>, name: &String) -> (r: Option<usize>)
    ensures
        match r {
            Some(i) => i < names.len() && names[i as int]@ == name@ && forall|j: int|
                0 <= j < i ==> names[j]@ != name@,
            None => !names_of(names@).contains(name@),
        },
{
    let mut i: usize = 0;
    while i < names.len()
        invariant
            i <= names.len(),
            forall|j: int| 0 <= j < i ==> names[j]@ != name@,
        decreases names.len() - i,
    {
        if names[i] == *name {
            return Some(i);
        }
        i += 1;
    }
    proof {
        let s = names_of(names@);
        if s.contains(name@) {
            let k = choose|k: int| 0 <= k < s.len() && s[k] == name@;
            assert(names[k]@ == name@);
        }
    }
    None
}

impl View for IdentTable {
    type V = Seq<Seq<char>>;

    closed spec fn view(&self) -> Seq<Seq<char>> {
        names_of(self.idents@)
    }
}

impl IdentTable {
    /// The invariant of the table: every name has one position.
    pub open spec fn wf(&self) -> bool {
        distinct_names(self@)
    }

    /// A table without names.
    pub fn new() -> (table: IdentTable)
        ensures
            table@ == Seq::<Seq<char>>::empty(),
            table.wf(),
    {
        let table = IdentTable { idents: Vec::new() };
        assert(table@ =~= Seq::<Seq<char>>::empty());
        table
    }

    /// The number of names interned.
    pub fn len(&self) -> (n: usize)
        ensures
            n == self@.len(),
    {
        self.idents.len()
    }

    /// The identifier of `name`: the one it got when it was first interned,
    /// or the next free one, under which the table then remembers it.
    pub fn intern(&mut self, name: &str) -> (id: Ident)
        requires
            old(self).wf(),
        ensures
            final(self).wf(),
            final(self)@ == intern_names(old(self)@, name@),
            id.0 == intern_index(old(self)@, name@),
            id.0 < final(self)@.len(),
            final(self)@[id.0 as int] == name@,
    {
        let owned = name.to_owned();
        let ghost names = self@;
        match find_name(&self.idents, &owned) {
            Some(i) => {
                proof {
                    assert(names[i as int] == name@);
                    assert(names.contains(name@));
                    let k = names.index_of(name@);
                    assert(names[k] == name@);
                    assert(k == i) by {
                        if k < i {
                            assert(names[k] != names[i as int]);
                        } else if i < k {
                            assert(names[i as int] != names[k]);
                        }
                    }
                }
                Ident(i)
            },
            None => {
                let n = self.idents.len();
                self.idents.push(owned);
                proof {
                    assert(self@ =~= names.push(name@));
                    assert forall|i: int, j: int| 0 <= i < j < self@.len() implies self@[i]
                        != self@[j] by {
                        if j == names.len() {
                            assert(names[i] == self@[i]);
                            assert(names.contains(names[i]));
                        } else {
                            assert(names[i] != names[j]);
                        }
                    }
                }
                Ident(n)
            },
        }
    }

    /// The name that `id` stands for.
    pub fn get_name(&self, id: Ident) -> (name: &str)
        requires
            id.0 < self@.len(),
        ensures
            name@ == self@[id.0 as int],
    {
        self.idents[id.0].as_str()
    }
}

/// Interning a name twice gives the same identifier, and the second time
/// leaves the table as it was.
pub proof fn lemma_intern_idempotent(names: Seq<Seq<char>>, name: Seq<char>)
    requires
        distinct_names(names),
    ensures
        intern_index(intern_names(names, name), name) == intern_index(names, name),
        intern_names(intern_names(names, name), name) == intern_names(names, name),
{
    let after = intern_names(names, name);
    if names.contains(name) {
    } else {
        assert(after[names.len() as int] == name);
        assert(after.contains(name));
        let k = after.index_of(name);
        assert(after[k] == name);
        if k < names.len() {
            assert(names[k] == name);
            assert(names.contains(name));
        }
    }
}

} // verus!
