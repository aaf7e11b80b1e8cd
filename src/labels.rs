use vstd::prelude::*;

verus! {

/// The label table: each label name bound to the address of the instruction
/// that follows it. Names are unique.
pub struct LabelTable {
    entries: Vec<(String, usize)>,
    map: Ghost<Map<Seq<char>, usize>>,
}

impl View for LabelTable {
    type V = Map<Seq<char>, usize>;

    closed spec fn view(&self) -> Map<Seq<char>, usize> {
        self.map@
    }
}

impl LabelTable {
    /// The entries and the map agree, and no name is bound twice.
    pub closed spec fn wf(&self) -> bool {
        &&& forall|k: int|
            0 <= k < self.entries@.len() ==> {
                &&& self.map@.contains_key((#[trigger] self.entries@[k]).0@)
                &&& self.map@[self.entries@[k].0@] == self.entries@[k].1
            }
        &&& forall|name: Seq<char>|
            #[trigger] self.map@.contains_key(name) ==> exists|k: int|
                0 <= k < self.entries@.len() && (#[trigger] self.entries@[k]).0@ == name
        &&& forall|j: int, k: int|
            0 <= j < self.entries@.len() && 0 <= k < self.entries@.len() && (
            #[trigger] self.entries@[j]).0@ == (#[trigger] self.entries@[k]).0@ ==> j == k
    }

    pub fn new() -> (t: LabelTable)
        ensures
            t.wf(),
            t@ == Map::<Seq<char>, usize>::empty(),
    {
        LabelTable { entries: Vec::new(), map: Ghost(Map::empty()) }
    }

    /// The address bound to `name`, if any.
    pub fn get(&self, name: &str) -> (r: Option<usize>)
        requires
            self.wf(),
        ensures
            r == (if self@.contains_key(name@) {
                Some(self@[name@])
            } else {
                None::<usize>
            }),
    {
        let mut k: usize = 0;
        while k < self.entries.len()
            invariant
                self.wf(),
                k <= self.entries@.len(),
                forall|j: int| 0 <= j < k ==> (#[trigger] self.entries@[j]).0@ != name@,
            decreases self.entries@.len() - k,
        {
            if crate::lexer::same_text(self.entries[k].0.as_str(), name) {
                return Some(self.entries[k].1);
            }
            k += 1;
        }
        None
    }

    /// Binds `name` to `addr`; a name that is already bound is refused and the
    /// table is left as it was.
    pub fn insert(&mut self, name: String, addr: usize) -> (fresh: bool)
        requires
            old(self).wf(),
        ensures
            final(self).wf(),
            fresh == !old(self)@.contains_key(name@),
            fresh ==> final(self)@ == old(self)@.insert(name@, addr),
            !fresh ==> final(self)@ == old(self)@,
    {
        if self.get(name.as_str()).is_some() {
            return false;
        }
        let ghost old_entries = self.entries@;
        let ghost n = name@;
        self.entries.push((name, addr));
        self.map = Ghost(self.map@.insert(n, addr));
        assert forall|nm: Seq<char>| #[trigger] self.map@.contains_key(nm) implies exists|k: int|
            0 <= k < self.entries@.len() && (#[trigger] self.entries@[k]).0@ == nm by {
            if nm == n {
                assert(self.entries@[old_entries.len() as int].0@ == nm);
            } else {
                let k = choose|k: int|
                    0 <= k < old_entries.len() && (#[trigger] old_entries[k]).0@ == nm;
                assert(self.entries@[k] == old_entries[k]);
            }
        }
        true
    }
}

} // verus!
