//! Label table: the mapping from label name to 32-bit instruction address,
//! built during pass one of assembly and read-only during pass two.

use vstd::prelude::*;
use crate::strutil::str_eq;

verus! {

/// The map denoted by an entry sequence; a later entry for the same name
/// overrides an earlier one.
pub open spec fn entries_map(s: Seq<(String, u32)>) -> Map<Seq<char>, u32>
    decreases s.len(),
{
    if s.len() == 0 {
        Map::empty()
    } else {
        entries_map(s.drop_last()).insert(s.last().0@, s.last().1)
    }
}

/// When no entry from index `i` on carries key `k`, the first `i` entries
/// already decide `k`.
proof fn lemma_entries_map_suffix(s: Seq<(String, u32)>, i: int, k: Seq<char>)
    requires
        0 <= i <= s.len(),
        forall|j: int| i <= j < s.len() ==> (#[trigger] s[j]).0@ != k,
    ensures
        entries_map(s).contains_key(k) == entries_map(s.take(i)).contains_key(k),
        entries_map(s).contains_key(k) ==> entries_map(s)[k] == entries_map(s.take(i))[k],
    decreases s.len() - i,
{
    if i < s.len() {
        assert(s.drop_last() =~= s.take(s.len() - 1));
        lemma_entries_map_suffix(s.take(s.len() - 1), i, k);
        assert(s.take(s.len() - 1).take(i) =~= s.take(i));
    } else {
        assert(s.take(i) =~= s);
    }
}

/// The label table.
pub struct LabelTable {
    entries: Vec<(String, u32)>,
}

impl View for LabelTable {
    type V = Map<Seq<char>, u32>;

    closed spec fn view(&self) -> Map<Seq<char>, u32> {
        entries_map(self.entries@)
    }
}

impl LabelTable {
    /// An empty table.
    pub fn new() -> (t: LabelTable)
        ensures
            t@ == Map::<Seq<char>, u32>::empty(),
    {
        LabelTable { entries: Vec::new() }
    }

    /// Records `name -> addr`; recording the same name again overrides the
    /// earlier address.
    pub fn insert(&mut self, name: String, addr: u32)
        ensures
            final(self)@ == old(self)@.insert(name@, addr),
    {
        self.entries.push((name, addr));
        proof {
            assert(self.entries@.drop_last() =~= old(self).entries@);
        }
    }

    /// Looks a label up: its recorded address, or nothing when pass one
    /// never saw it.
    #[verifier::loop_isolation(false)]
    pub fn get(&self, name: &str) -> (r: Option<u32>)
        ensures
            r == if self@.contains_key(name@) {
                Some(self@[name@])
            } else {
                None::<u32>
            },
    {
        let mut i: usize = self.entries.len();
        while i > 0
            invariant
                i <= self.entries.len(),
                forall|j: int| i <= j < self.entries@.len() ==> (#[trigger] self.entries@[j]).0@
                    != name@,
            decreases i,
        {
            i = i - 1;
            if str_eq(self.entries[i].0.as_str(), name) {
                proof {
                    lemma_entries_map_suffix(self.entries@, i + 1, name@);
                    assert(self.entries@.take(i + 1).drop_last() =~= self.entries@.take(i as int));
                    assert(self.entries@.take(i + 1).last() == self.entries@[i as int]);
                }
                return Some(self.entries[i].1);
            }
        }
        proof {
            lemma_entries_map_suffix(self.entries@, 0, name@);
            assert(self.entries@.take(0) =~= Seq::<(String, u32)>::empty());
        }
        None
    }
}

} // verus!
