use crate::nut00::KeysetId;
use vstd::prelude::*;

verus! {

/// An economic denomination tag.
#[derive(Debug, Clone, Copy, PartialEq, Eq, Hash, Structural)]
pub struct Unit {
    pub code: u64,
}

/// What the store knows of a keyset.
#[derive(Debug, Clone, Copy, PartialEq, Eq, Structural)]
pub struct KeysetInfo {
    pub keyset_id: KeysetId,
    pub active: bool,
    pub unit: Unit,
}

impl KeysetInfo {
    pub fn active(&self) -> (r: bool)
        ensures
            r == self.active,
    {
        self.active
    }

    pub fn unit(&self) -> (r: Unit)
        ensures
            r == self.unit,
    {
        self.unit
    }
}

/// The entry that the first match of `id` in `s` gives.
pub open spec fn find_info(s: Seq<KeysetInfo>, id: KeysetId) -> Option<KeysetInfo>
    decreases s.len(),
{
    if s.len() == 0 {
        None
    } else if s[0].keyset_id == id {
        Some(s[0])
    } else {
        find_info(s.subrange(1, s.len() as int), id)
    }
}

/// A read-through cache of keyset facts. A miss is reported to the caller, who loads
/// the entry from the store and inserts it; the newest entry of a keyset wins.
pub struct KeysetCache {
    entries: Vec<KeysetInfo>,
}

impl KeysetCache {
    /// The entry that a lookup of `id` finds.
    pub closed spec fn spec_get(&self, id: KeysetId) -> Option<KeysetInfo> {
        find_info(self.entries@, id)
    }

    pub fn new() -> (r: KeysetCache)
        ensures
            forall|id: KeysetId| #[trigger] r.spec_get(id).is_none(),
    {
        KeysetCache { entries: Vec::new() }
    }

    /// The cached facts of `id`, or `None` on a miss.
    pub fn get_keyset_info(&self, id: KeysetId) -> (r: Option<KeysetInfo>)
        ensures
            r == self.spec_get(id),
            r.is_some() ==> r.unwrap().keyset_id == id,
    {
        let mut i: usize = 0;
        assert(self.entries@.subrange(0, self.entries@.len() as int) =~= self.entries@);
        while i < self.entries.len()
            invariant
                i <= self.entries@.len(),
                find_info(self.entries@, id) == find_info(
                    self.entries@.subrange(i as int, self.entries@.len() as int),
                    id,
                ),
            decreases self.entries@.len() - i,
        {
            let ghost rest = self.entries@.subrange(i as int, self.entries@.len() as int);
            if self.entries[i].keyset_id.value == id.value {
                return Some(self.entries[i]);
            }
            assert(rest.subrange(1, rest.len() as int) =~= self.entries@.subrange(
                i + 1,
                self.entries@.len() as int,
            ));
            i = i + 1;
        }
        None
    }

    /// Records what the store holds for a keyset, replacing an older entry.
    pub fn insert(&mut self, info: KeysetInfo)
        ensures
            final(self).spec_get(info.keyset_id) == Some(info),
            forall|id: KeysetId|
                id != info.keyset_id ==> #[trigger] final(self).spec_get(id) == old(self).spec_get(id),
    {
        let ghost before = self.entries@;
        self.entries.insert(0, info);
        assert forall|id: KeysetId| id != info.keyset_id implies #[trigger] find_info(
            self.entries@,
            id,
        ) == find_info(before, id) by {
            assert(self.entries@.subrange(1, self.entries@.len() as int) =~= before);
        }
    }
}

} // verus!
