//! The label table of one assembly run: names bound to resolved addresses,
//! built incrementally as defining lines are processed and discarded when
//! the run ends. A later binding of the same name shadows an earlier one.
use vstd::prelude::*;
use vstd::string::StrSliceExecFns;
use vstd::string::StringExecFns;
use crate::text::str_equal;

verus! {

/// The mapping an association list denotes: later entries win.
pub open spec fn alist_map(s: Seq<(String, u16)>) -> Map<Seq<char>, u16>
    decreases s.len(),
{
    if s.len() == 0 {
        Map::empty()
    } else {
        alist_map(s.drop_last()).insert(s.last().0@, s.last().1)
    }
}

/// Label names mapped to the addresses recorded for their defining lines.
pub struct LabelTable {
    entries: Vec<(String, u16)>,
}

impl View for LabelTable {
    type V = Map<Seq<char>, u16>;

    closed spec fn view(&self) -> Map<Seq<char>, u16> {
        alist_map(self.entries@)
    }
}

/// An entry whose key is not shadowed by any later entry gives the map's
/// value for that key.
proof fn lemma_alist_found(s: Seq<(String, u16)>, j: int)
    requires
        0 <= j < s.len(),
        forall|l: int| j < l < s.len() ==> s[l].0@ != s[j].0@,
    ensures
        alist_map(s).contains_key(s[j].0@),
        alist_map(s)[s[j].0@] == s[j].1,
    decreases s.len(),
{
    if j < s.len() - 1 {
        assert(s.drop_last()[j] == s[j]);
        lemma_alist_found(s.drop_last(), j);
    }
}

/// A key that no entry carries is absent from the map.
proof fn lemma_alist_absent(s: Seq<(String, u16)>, k: Seq<char>)
    requires
        forall|j: int| 0 <= j < s.len() ==> s[j].0@ != k,
    ensures
        !alist_map(s).contains_key(k),
    decreases s.len(),
{
    if s.len() > 0 {
        lemma_alist_absent(s.drop_last(), k);
    }
}

impl LabelTable {
    /// An empty table, for the start of an assembly run.
    pub fn new() -> (t: LabelTable)
        ensures
            t@ == Map::<Seq<char>, u16>::empty(),
    {
        LabelTable { entries: Vec::new() }
    }

    /// Bind `name` to `addr`, shadowing any earlier binding of `name`.
    pub fn insert(&mut self, name: String, addr: u16)
        ensures
            final(self)@ == old(self)@.insert(name@, addr),
    {
        let ghost prev = self.entries@;
        self.entries.push((name, addr));
        proof {
            assert(self.entries@.drop_last() =~= prev);
        }
    }

    /// The address bound to `name`, if any line has defined it yet.
    pub fn get(&self, name: &str) -> (r: Option<u16>)
        ensures
            match r {
                Some(v) => self@.contains_key(name@) && self@[name@] == v,
                None => !self@.contains_key(name@),
            },
    {
        let mut i: usize = self.entries.len();
        while i > 0
            invariant
                i <= self.entries@.len(),
                forall|j: int| i <= j < self.entries@.len() ==> self.entries@[j].0@ != name@,
            decreases i,
        {
            i -= 1;
            let hit = str_equal(self.entries[i].0.as_str(), name);
            if hit {
                proof {
                    lemma_alist_found(self.entries@, i as int);
                }
                return Some(self.entries[i].1);
            }
        }
        proof {
            lemma_alist_absent(self.entries@, name@);
        }
        None
    }
}

} // verus!
