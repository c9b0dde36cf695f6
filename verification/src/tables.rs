//! The assembler's two tables: label name to address, and the address of
//! each label reference (a byte, so taken modulo 256) to the label named.
use vstd::prelude::*;
use std::collections::HashMap;

verus! {

/// Whether two byte strings are equal.
pub fn bytes_eq(a: &[u8], b: &[u8]) -> (r: bool)
    ensures
        r == (a@ == b@),
{
    if a.len() != b.len() {
        return false;
    }
    let mut i: usize = 0;
    while i < a.len()
        invariant
            a@.len() == b@.len(),
            i <= a@.len(),
            forall|j: int| 0 <= j < i ==> a@[j] == b@[j],
        decreases a@.len() - i,
    {
        if a[i] != b[i] {
            return false;
        }
        i += 1;
    }
    assert(a@ =~= b@);
    true
}

/// A copy of a byte string.
pub fn copy_bytes(a: &[u8]) -> (r: Vec<u8>)
    ensures
        r@ == a@,
{
    let mut r: Vec<u8> = Vec::new();
    let mut i: usize = 0;
    while i < a.len()
        invariant
            i <= a@.len(),
            r@ == a@.take(i as int),
        decreases a@.len() - i,
    {
        r.push(a[i]);
        i += 1;
        assert(r@ =~= a@.take(i as int));
    }
    assert(a@.take(i as int) =~= a@);
    r
}

/// Label names and their values; a name defined again keeps its last value.
pub struct LabelTable {
    names: Vec<Vec<u8>>,
    values: Vec<u8>,
    map: Ghost<Map<Seq<u8>, u8>>,
}

impl View for LabelTable {
    type V = Map<Seq<u8>, u8>;

    closed spec fn view(&self) -> Map<Seq<u8>, u8> {
        self.map@
    }
}

impl LabelTable {
    /// The names and values are parallel lists of distinct names, and
    /// together they are the map.
    pub closed spec fn wf(&self) -> bool {
        &&& self.names@.len() == self.values@.len()
        &&& forall|i: int, j: int| 0 <= i < j < self.names@.len() ==> self.names@[i]@ != self.names@[j]@
        &&& forall|i: int| 0 <= i < self.names@.len()
            ==> #[trigger] self.map@.contains_key(self.names@[i]@) && self.map@[self.names@[i]@] == self.values@[i]
        &&& forall|k: Seq<u8>| #[trigger] self.map@.contains_key(k) ==> exists|i: int| 0 <= i < self.names@.len() && self.names@[i]@ == k
    }

    /// An empty table.
    pub fn new() -> (t: LabelTable)
        ensures
            t.wf(),
            t@ == Map::<Seq<u8>, u8>::empty(),
    {
        LabelTable { names: Vec::new(), values: Vec::new(), map: Ghost(Map::empty()) }
    }

    /// The position of `name` in the list, if it is there.
    fn find(&self, name: &[u8]) -> (r: Option<usize>)
        requires
            self.wf(),
        ensures
            match r {
                Some(i) => i < self.names@.len() && self.names@[i as int]@ == name@,
                None => !self@.contains_key(name@),
            },
    {
        let mut i: usize = 0;
        while i < self.names.len()
            invariant
                self.wf(),
                i <= self.names@.len(),
                forall|j: int| 0 <= j < i ==> self.names@[j]@ != name@,
            decreases self.names@.len() - i,
        {
            if bytes_eq(self.names[i].as_slice(), name) {
                return Some(i);
            }
            i += 1;
        }
        None
    }

    /// Sets the value of `name`, defining it if it is new.
    pub fn insert(&mut self, name: &[u8], value: u8)
        requires
            old(self).wf(),
        ensures
            final(self).wf(),
            final(self)@ == old(self)@.insert(name@, value),
    {
        match self.find(name) {
            Some(i) => {
                self.values.set(i, value);
                self.map = Ghost(self.map@.insert(name@, value));
                assert forall|k: Seq<u8>| #[trigger] self.map@.contains_key(k) implies
                    exists|i: int| 0 <= i < self.names@.len() && self.names@[i]@ == k by {
                    if k != name@ {
                        assert(old(self).map@.contains_key(k));
                        let j = choose|j: int| 0 <= j < old(self).names@.len() && old(self).names@[j]@ == k;
                        assert(self.names@[j]@ == k);
                    } else {
                        assert(self.names@[i as int]@ == k);
                    }
                }
            },
            None => {
                let copy = copy_bytes(name);
                self.names.push(copy);
                self.values.push(value);
                self.map = Ghost(self.map@.insert(name@, value));
                let ghost n = self.names@.len() - 1;
                assert(self.names@[n]@ == name@);
                assert forall|k: Seq<u8>| #[trigger] self.map@.contains_key(k) implies
                    exists|i: int| 0 <= i < self.names@.len() && self.names@[i]@ == k by {
                    if k != name@ {
                        assert(old(self).map@.contains_key(k));
                        let i = choose|i: int| 0 <= i < old(self).names@.len() && old(self).names@[i]@ == k;
                        assert(self.names@[i] == old(self).names@[i]);
                    }
                }
                assert forall|i: int| 0 <= i < self.names@.len() implies
                    #[trigger] self.map@.contains_key(self.names@[i]@) && self.map@[self.names@[i]@] == self.values@[i] by {
                    if i < n {
                        assert(self.names@[i] == old(self).names@[i]);
                        assert(old(self).map@.contains_key(old(self).names@[i]@));
                    }
                }
                assert forall|i: int, j: int| 0 <= i < j < self.names@.len() implies self.names@[i]@ != self.names@[j]@ by {
                    if j == n {
                        assert(old(self).map@.contains_key(old(self).names@[i]@));
                    }
                }
            },
        }
    }

    /// The value of `name`, if it is defined.
    pub fn get(&self, name: &[u8]) -> (r: Option<u8>)
        requires
            self.wf(),
        ensures
            r == (if self@.contains_key(name@) { Some(self@[name@]) } else { None::<u8> }),
    {
        match self.find(name) {
            Some(i) => Some(self.values[i]),
            None => None,
        }
    }
}

/// For each byte address, the label referenced there, if any.
pub struct MentionTable {
    map: HashMap<u8, Vec<u8>>,
}

impl View for MentionTable {
    type V = Map<u8, Seq<u8>>;

    closed spec fn view(&self) -> Map<u8, Seq<u8>> {
        Map::new(|k: u8| self.map@.contains_key(k), |k: u8| self.map@[k]@)
    }
}

impl MentionTable {
    /// An empty table.
    pub fn new() -> (t: MentionTable)
        ensures
            t@ == Map::<u8, Seq<u8>>::empty(),
    {
        let t = MentionTable { map: HashMap::new() };
        assert(t@ =~= Map::<u8, Seq<u8>>::empty());
        t
    }

    /// Records a reference to `label` at `address`, replacing any other.
    pub fn insert(&mut self, address: u8, label: &[u8])
        ensures
            final(self)@ == old(self)@.insert(address, label@),
    {
        broadcast use vstd::std_specs::hash::group_hash_axioms;
        let copy = copy_bytes(label);
        self.map.insert(address, copy);
        assert(self@ =~= old(self)@.insert(address, label@));
    }

    /// The label referenced at `address`, if any.
    pub fn get(&self, address: u8) -> (r: Option<&Vec<u8>>)
        ensures
            match r {
                Some(v) => self@.contains_key(address) && v@ == self@[address],
                None => !self@.contains_key(address),
            },
    {
        broadcast use vstd::std_specs::hash::group_hash_axioms;
        self.map.get(&address)
    }
}

} // verus!
