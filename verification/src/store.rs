//! The replicated state: a map from keys to values.

use vstd::prelude::*;
use vstd::string::*;

verus! {

/// One key with its value.
struct Entry {
    key: String,
    value: String,
}

/// The key/value map that committed commands read and write.
pub struct ReplicatedState {
    entries: Vec<Entry>,
}

/// The map that a list of entries stands for. Where a key occurs twice the first
/// entry counts.
spec fn contents(entries: Seq<Entry>) -> Map<Seq<char>, Seq<char>>
    decreases entries.len(),
{
    if entries.len() == 0 {
        Map::empty()
    } else {
        let before = contents(entries.drop_last());
        let last = entries.last();
        if before.dom().contains(last.key@) {
            before
        } else {
            before.insert(last.key@, last.value@)
        }
    }
}

/// A key that no entry has is not in the map.
proof fn lemma_absent(entries: Seq<Entry>, key: Seq<char>)
    requires
        forall|j: int| 0 <= j < entries.len() ==> (#[trigger] entries[j]).key@ != key,
    ensures
        !contents(entries).dom().contains(key),
    decreases entries.len(),
{
    if entries.len() > 0 {
        let rest = entries.drop_last();
        lemma_absent(rest, key);
    }
}

/// The first entry with a key gives the key its value.
proof fn lemma_first_entry(entries: Seq<Entry>, i: int)
    requires
        0 <= i < entries.len(),
        forall|j: int| 0 <= j < i ==> (#[trigger] entries[j]).key@ != entries[i].key@,
    ensures
        contents(entries).dom().contains(entries[i].key@),
        contents(entries)[entries[i].key@] == entries[i].value@,
    decreases entries.len(),
{
    let rest = entries.drop_last();
    let key = entries[i].key@;
    if i == entries.len() - 1 {
        lemma_absent(rest, key);
    } else {
        lemma_first_entry(rest, i);
    }
}

/// Writing a new value into the first entry with a key changes the map at that key
/// and nowhere else.
proof fn lemma_replace_first(entries: Seq<Entry>, i: int, entry: Entry)
    requires
        0 <= i < entries.len(),
        entry.key@ == entries[i].key@,
        forall|j: int| 0 <= j < i ==> (#[trigger] entries[j]).key@ != entry.key@,
    ensures
        contents(entries.update(i, entry)) == contents(entries).insert(entry.key@, entry.value@),
    decreases entries.len(),
{
    let changed = entries.update(i, entry);
    let rest = entries.drop_last();
    let key = entry.key@;
    if i == entries.len() - 1 {
        assert(changed.drop_last() =~= rest);
        lemma_absent(rest, key);
    } else {
        assert(changed.drop_last() =~= rest.update(i, entry));
        lemma_replace_first(rest, i, entry);
        lemma_first_entry(rest, i);
    }
}

impl View for ReplicatedState {
    type V = Map<Seq<char>, Seq<char>>;

    closed spec fn view(&self) -> Map<Seq<char>, Seq<char>> {
        contents(self.entries@)
    }
}

impl ReplicatedState {
    /// The empty map.
    pub fn new() -> (state: ReplicatedState)
        ensures
            state@ == Map::<Seq<char>, Seq<char>>::empty(),
    {
        ReplicatedState { entries: Vec::new() }
    }

    /// Where the first entry with `key` stands, or the number of entries if there is
    /// none.
    fn find(&self, key: &String) -> (i: usize)
        ensures
            i <= self.entries.len(),
            i < self.entries.len() ==> self.entries[i as int].key@ == key@,
            forall|j: int| 0 <= j < i ==> (#[trigger] self.entries[j]).key@ != key@,
    {
        let mut i: usize = 0;
        while i < self.entries.len()
            invariant
                i <= self.entries.len(),
                forall|j: int| 0 <= j < i ==> (#[trigger] self.entries[j]).key@ != key@,
            decreases self.entries.len() - i,
        {
            if self.entries[i].key == *key {
                return i;
            }
            i += 1;
        }
        i
    }

    /// The value stored under `key`, if there is one.
    pub fn get(&self, key: &str) -> (value: Option<String>)
        ensures
            match value {
                Some(v) => self@.contains_key(key@) && self@[key@] == v@,
                None => !self@.contains_key(key@),
            },
    {
        let key = String::from_str(key);
        let i = self.find(&key);
        if i < self.entries.len() {
            proof {
                lemma_first_entry(self.entries@, i as int);
            }
            Some(self.entries[i].value.clone())
        } else {
            proof {
                lemma_absent(self.entries@, key@);
            }
            None
        }
    }

    /// Stores `value` under `key`, in place of what was stored there before.
    pub fn put(&mut self, key: &str, value: &str)
        ensures
            final(self)@ == old(self)@.insert(key@, value@),
    {
        let entry = Entry { key: String::from_str(key), value: String::from_str(value) };
        let i = self.find(&entry.key);
        if i < self.entries.len() {
            proof {
                lemma_replace_first(self.entries@, i as int, entry);
            }
            self.entries.set(i, entry);
        } else {
            proof {
                lemma_absent(self.entries@, key@);
                assert(self.entries@.push(entry).drop_last() =~= self.entries@);
            }
            self.entries.push(entry);
        }
    }
}

} // verus!
