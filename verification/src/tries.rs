//! Bookkeeping of the tries that are still to be downloaded or stored.
//!
//! A trie may be stored only once all of its children are. A trie whose children are missing
//! waits in [`TriesAwaitingChildren`], together with the set of children that it waits for, while
//! those children are put on the process queue of [`SyncStateInner`].
use crate::types::{Digest, TrieRaw};
use vstd::prelude::*;

verus! {

/// What is known of a trie that waits for its children.
pub struct AwaitingTrie {
    /// The serialized trie.
    pub trie_bytes: Seq<u8>,
    /// The children that have not been written yet.
    pub dependencies: Set<Digest>,
}

impl AwaitingTrie {
    /// The same trie once `dependency` has been written.
    pub open spec fn without(self, dependency: Digest) -> AwaitingTrie {
        AwaitingTrie { dependencies: self.dependencies.remove(dependency), ..self }
    }
}

/// The waiting tries once `dependency` has been written.
pub open spec fn dependency_removed(
    awaiting: Map<Digest, AwaitingTrie>,
    dependency: Digest,
) -> Map<Digest, AwaitingTrie> {
    awaiting.map_values(|trie: AwaitingTrie| trie.without(dependency))
}

/// The waiting tries once `written_trie` has been written: it waits no more, and nothing waits
/// for it.
pub open spec fn trie_written(
    awaiting: Map<Digest, AwaitingTrie>,
    written_trie: Digest,
) -> Map<Digest, AwaitingTrie> {
    dependency_removed(awaiting.remove(written_trie), written_trie)
}

/// Whether the trie under `key` waits, but for no child.
pub open spec fn is_ready(awaiting: Map<Digest, AwaitingTrie>, key: Digest) -> bool {
    awaiting.contains_key(key) && awaiting[key].dependencies =~= Set::empty()
}

/// Whether `keys` lists each waiting trie that waits for no child exactly once. The order is left
/// open.
pub open spec fn lists_ready(awaiting: Map<Digest, AwaitingTrie>, keys: Seq<Digest>) -> bool {
    &&& keys.no_duplicates()
    &&& forall|key: Digest| #[trigger] keys.contains(key) <==> is_ready(awaiting, key)
}

struct Entry {
    key: Digest,
    trie_bytes: Vec<u8>,
    dependencies: Vec<Digest>,
}

impl Entry {
    spec fn awaiting(self) -> AwaitingTrie {
        AwaitingTrie { trie_bytes: self.trie_bytes@, dependencies: self.dependencies@.to_set() }
    }
}

/// Whether an entry of `entries` has the key.
spec fn has_key(entries: Seq<Entry>, key: Digest) -> bool {
    exists|i: int| 0 <= i < entries.len() && (#[trigger] entries[i]).key == key
}

spec fn entry_of(entries: Seq<Entry>, key: Digest) -> Entry {
    entries[choose|i: int| 0 <= i < entries.len() && (#[trigger] entries[i]).key == key]
}

spec fn distinct_keys(entries: Seq<Entry>) -> bool {
    forall|i: int, j: int|
        0 <= i < j < entries.len() ==> (#[trigger] entries[i]).key != (#[trigger] entries[j]).key
}

spec fn entries_as_map(entries: Seq<Entry>) -> Map<Digest, AwaitingTrie> {
    Map::new(|key: Digest| has_key(entries, key), |key: Digest| entry_of(entries, key).awaiting())
}

proof fn lemma_entry_in_map(entries: Seq<Entry>, i: int)
    requires
        distinct_keys(entries),
        0 <= i < entries.len(),
    ensures
        entries_as_map(entries).contains_key(entries[i].key),
        entries_as_map(entries)[entries[i].key] == entries[i].awaiting(),
{
    assert(has_key(entries, entries[i].key));
    let j = choose|j: int|
        0 <= j < entries.len() && (#[trigger] entries[j]).key == entries[i].key;
    assert(j == i);
}

/// The index of an entry with the key.
proof fn lemma_index_of_key(entries: Seq<Entry>, key: Digest) -> (i: int)
    requires
        has_key(entries, key),
    ensures
        0 <= i < entries.len(),
        entries[i].key == key,
{
    choose|i: int| 0 <= i < entries.len() && (#[trigger] entries[i]).key == key
}

proof fn lemma_entry_removed(before: Seq<Entry>, i: int)
    requires
        distinct_keys(before),
        0 <= i < before.len(),
    ensures
        distinct_keys(before.remove(i)),
        entries_as_map(before.remove(i)) == entries_as_map(before).remove(before[i].key),
{
    let after = before.remove(i);
    let key = before[i].key;
    assert forall|j: int| 0 <= j < after.len() implies (#[trigger] after[j]) == before[if j < i {
        j
    } else {
        j + 1
    }] by {}
    assert(distinct_keys(after));
    assert forall|k: Digest| #[trigger]
        has_key(after, k) == (has_key(before, k) && k != key) by {
        if has_key(after, k) {
            let j = lemma_index_of_key(after, k);
            assert(after[j].key == k);
        }
        if has_key(before, k) && k != key {
            let j = lemma_index_of_key(before, k);
            assert(after[if j < i { j } else { j - 1 }].key == k);
        }
    }
    assert forall|k: Digest| has_key(after, k) implies (#[trigger] entries_as_map(after)[k])
        == entries_as_map(before)[k] by {
        let j = lemma_index_of_key(after, k);
        lemma_entry_in_map(after, j);
        lemma_entry_in_map(before, if j < i { j } else { j + 1 });
    }
    assert(entries_as_map(after) =~= entries_as_map(before).remove(key));
}

proof fn lemma_entry_added(before: Seq<Entry>, entry: Entry)
    requires
        distinct_keys(before),
        !has_key(before, entry.key),
    ensures
        distinct_keys(before.push(entry)),
        entries_as_map(before.push(entry)) == entries_as_map(before).insert(
            entry.key,
            entry.awaiting(),
        ),
{
    let after = before.push(entry);
    assert(distinct_keys(after));
    assert forall|k: Digest| #[trigger]
        has_key(after, k) == (has_key(before, k) || k == entry.key) by {
        if has_key(before, k) {
            let j = lemma_index_of_key(before, k);
            assert(after[j].key == k);
        }
        assert(after[before.len() as int].key == entry.key);
    }
    assert forall|k: Digest| has_key(before, k) implies (#[trigger] entries_as_map(after)[k])
        == entries_as_map(before)[k] by {
        let j = lemma_index_of_key(before, k);
        lemma_entry_in_map(after, j);
        lemma_entry_in_map(before, j);
    }
    lemma_entry_in_map(after, before.len() as int);
    assert(entries_as_map(after) =~= entries_as_map(before).insert(entry.key, entry.awaiting()));
}

proof fn lemma_dependency_removed(before: Seq<Entry>, after: Seq<Entry>, dependency: Digest)
    requires
        distinct_keys(before),
        after.len() == before.len(),
        forall|i: int|
            0 <= i < before.len() ==> {
                &&& (#[trigger] after[i]).key == before[i].key
                &&& after[i].awaiting() == before[i].awaiting().without(dependency)
            },
    ensures
        distinct_keys(after),
        entries_as_map(after) == dependency_removed(entries_as_map(before), dependency),
{
    assert forall|k: Digest| has_key(before, k) == #[trigger] has_key(after, k) by {
        if has_key(before, k) {
            let i = lemma_index_of_key(before, k);
            assert(after[i].key == k);
        }
    }
    assert forall|k: Digest| has_key(before, k) implies (#[trigger] entries_as_map(after)[k])
        == entries_as_map(before)[k].without(dependency) by {
        let i = lemma_index_of_key(before, k);
        assert(after[i].key == k);
        lemma_entry_in_map(before, i);
        lemma_entry_in_map(after, i);
    }
    assert(entries_as_map(after) =~= dependency_removed(entries_as_map(before), dependency));
}

/// The tries that cannot be stored yet because some of their children are missing, by key.
pub struct TriesAwaitingChildren {
    entries: Vec<Entry>,
}

impl View for TriesAwaitingChildren {
    type V = Map<Digest, AwaitingTrie>;

    closed spec fn view(&self) -> Map<Digest, AwaitingTrie> {
        entries_as_map(self.entries@)
    }
}

/// Whether the digest is in the list.
fn list_contains(list: &Vec<Digest>, digest: &Digest) -> (found: bool)
    ensures
        found == list@.contains(*digest),
{
    for i in 0..list.len()
        invariant
            forall|j: int| 0 <= j < i ==> list@[j] != *digest,
    {
        if list[i] == *digest {
            return true;
        }
    }
    false
}

/// The digests of `list`, each once.
fn distinct_digests(list: &Vec<Digest>) -> (distinct: Vec<Digest>)
    ensures
        distinct@.to_set() == list@.to_set(),
{
    let mut distinct: Vec<Digest> = Vec::new();
    for i in 0..list.len()
        invariant
            forall|d: Digest| #[trigger]
                distinct@.contains(d) <==> list@.take(i as int).contains(d),
    {
        if !list_contains(&distinct, &list[i]) {
            distinct.push(list[i]);
        }
        proof {
            broadcast use vstd::seq_lib::group_seq_properties;
            assert(list@.take(i + 1) =~= list@.take(i as int).push(list@[i as int]));
        }
    }
    assert(list@.take(list@.len() as int) =~= list@);
    assert(distinct@.to_set() =~= list@.to_set());
    distinct
}

/// The digests of `list` but for `digest`.
fn digests_without(list: &Vec<Digest>, digest: &Digest) -> (rest: Vec<Digest>)
    ensures
        rest@.to_set() == list@.to_set().remove(*digest),
{
    let mut rest: Vec<Digest> = Vec::new();
    for i in 0..list.len()
        invariant
            forall|d: Digest| #[trigger]
                rest@.contains(d) <==> list@.take(i as int).contains(d) && d != *digest,
    {
        if list[i] != *digest {
            rest.push(list[i]);
        }
        proof {
            broadcast use vstd::seq_lib::group_seq_properties;
            assert(list@.take(i + 1) =~= list@.take(i as int).push(list@[i as int]));
        }
    }
    assert(list@.take(list@.len() as int) =~= list@);
    assert(rest@.to_set() =~= list@.to_set().remove(*digest));
    rest
}

impl TriesAwaitingChildren {
    /// Whether no key occurs twice.
    pub closed spec fn well_formed(self) -> bool {
        distinct_keys(self.entries@)
    }

    /// No trie waits.
    pub fn new() -> (tries: Self)
        ensures
            tries.well_formed(),
            tries@ == Map::<Digest, AwaitingTrie>::empty(),
    {
        let tries = TriesAwaitingChildren { entries: Vec::new() };
        assert(tries@ =~= Map::<Digest, AwaitingTrie>::empty());
        tries
    }

    /// The index of the entry with the key.
    fn find(&self, key: &Digest) -> (index: Option<usize>)
        ensures
            match index {
                Some(i) => i < self.entries@.len() && self.entries@[i as int].key == *key,
                None => !has_key(self.entries@, *key),
            },
    {
        for i in 0..self.entries.len()
            invariant
                forall|j: int| 0 <= j < i ==> (#[trigger] self.entries@[j]).key != *key,
        {
            if self.entries[i].key == *key {
                return Some(i);
            }
        }
        None
    }

    /// The serialized trie that waits under the key, if one does.
    pub fn get(&self, digest: &Digest) -> (trie_bytes: Option<&Vec<u8>>)
        requires
            self.well_formed(),
        ensures
            match trie_bytes {
                Some(bytes) => self@.contains_key(*digest) && bytes@ == self@[*digest].trie_bytes,
                None => !self@.contains_key(*digest),
            },
    {
        match self.find(digest) {
            Some(i) => {
                proof {
                    lemma_entry_in_map(self.entries@, i as int);
                }
                Some(&self.entries[i].trie_bytes)
            },
            None => None,
        }
    }

    /// Strikes the dependency off every waiting trie.
    pub fn remove_dependency(&mut self, dependency: &Digest)
        requires
            old(self).well_formed(),
        ensures
            final(self).well_formed(),
            final(self)@ == dependency_removed(old(self)@, *dependency),
    {
        let ghost before = self.entries@;
        let len: usize = self.entries.len();
        for i in 0..len
            invariant
                self.entries@.len() == before.len() == len,
                forall|j: int| i <= j < len ==> #[trigger] self.entries@[j] == before[j],
                forall|j: int|
                    0 <= j < i ==> {
                        &&& (#[trigger] self.entries@[j]).key == before[j].key
                        &&& self.entries@[j].awaiting() == before[j].awaiting().without(*dependency)
                    },
        {
            let rest = digests_without(&self.entries[i].dependencies, dependency);
            self.entries[i].dependencies = rest;
        }
        proof {
            lemma_dependency_removed(before, self.entries@, *dependency);
        }
    }

    /// The keys of the tries that wait for no child.
    pub fn tries_with_no_dependencies(&self) -> (keys: Vec<Digest>)
        requires
            self.well_formed(),
        ensures
            lists_ready(self@, keys@),
    {
        let mut keys: Vec<Digest> = Vec::new();
        let mut picked: Ghost<Seq<int>> = Ghost(Seq::empty());
        for i in 0..self.entries.len()
            invariant
                self.well_formed(),
                picked@.len() == keys@.len(),
                forall|j: int| 0 <= j < picked@.len() ==> 0 <= #[trigger] picked@[j] < i
                    && self.entries@[picked@[j]].key == keys@[j]
                    && self.entries@[picked@[j]].dependencies@.len() == 0,
                forall|j: int, k: int| 0 <= j < k < picked@.len() ==> picked@[j] < picked@[k],
                forall|n: int| 0 <= n < i && (#[trigger] self.entries@[n]).dependencies@.len() == 0
                    ==> keys@.contains(self.entries@[n].key),
        {
            let ghost before = keys@;
            if self.entries[i].dependencies.len() == 0 {
                keys.push(self.entries[i].key);
                proof {
                    picked@ = picked@.push(i as int);
                    assert(keys@[before.len() as int] == self.entries@[i as int].key);
                    assert forall|d: Digest| before.contains(d) implies keys@.contains(d) by {
                        let j = choose|j: int| 0 <= j < before.len() && before[j] == d;
                        assert(keys@[j] == d);
                    }
                }
            }
        }
        proof {
            assert forall|j: int, k: int| 0 <= j < keys@.len() && 0 <= k < keys@.len() && j != k
                implies keys@[j] != keys@[k] by {
                let (a, b) = (picked@[j], picked@[k]);
                assert(self.entries@[a].key == keys@[j] && self.entries@[b].key == keys@[k]);
                assert(a != b);
            }
            assert forall|key: Digest| #[trigger] keys@.contains(key) <==> is_ready(self@, key) by {
                if keys@.contains(key) {
                    let j = choose|j: int| 0 <= j < keys@.len() && keys@[j] == key;
                    let i = picked@[j];
                    lemma_entry_in_map(self.entries@, i);
                }
                if is_ready(self@, key) {
                    let i = choose|i: int|
                        0 <= i < self.entries@.len() && (#[trigger] self.entries@[i]).key == key;
                    lemma_entry_in_map(self.entries@, i);
                    let dependencies = self.entries@[i].dependencies@;
                    if dependencies.len() > 0 {
                        assert(dependencies.to_set().contains(dependencies[0]));
                    }
                }
            }
        }
        keys
    }

    /// Takes note that a trie has been written, and returns the keys of the tries that now wait
    /// for no child.
    pub fn handle_written(&mut self, written_trie: Digest) -> (ready: Vec<Digest>)
        requires
            old(self).well_formed(),
        ensures
            final(self).well_formed(),
            final(self)@ == trie_written(old(self)@, written_trie),
            lists_ready(final(self)@, ready@),
    {
        self.remove(&written_trie);
        self.remove_dependency(&written_trie);
        self.tries_with_no_dependencies()
    }

    /// Forgets the trie under the key, if one waits there.
    fn remove(&mut self, key: &Digest)
        requires
            old(self).well_formed(),
        ensures
            final(self).well_formed(),
            final(self)@ == old(self)@.remove(*key),
    {
        match self.find(key) {
            Some(i) => {
                proof {
                    lemma_entry_removed(self.entries@, i as int);
                }
                self.entries.remove(i);
            },
            None => {
                assert(self@ =~= old(self)@.remove(*key));
            },
        }
    }

    /// Lets a trie wait for its missing children, in place of what waited under the key, and
    /// returns those children.
    pub fn handle_missing_children(
        &mut self,
        trie_key: Digest,
        trie_raw: TrieRaw,
        missing_children: Vec<Digest>,
    ) -> (children: Vec<Digest>)
        requires
            old(self).well_formed(),
        ensures
            final(self).well_formed(),
            final(self)@ == old(self)@.insert(
                trie_key,
                AwaitingTrie {
                    trie_bytes: trie_raw@,
                    dependencies: missing_children@.to_set(),
                },
            ),
            children@ == missing_children@,
    {
        self.remove(&trie_key);
        let ghost before = self.entries@;
        let entry = Entry {
            key: trie_key,
            trie_bytes: trie_raw.into_inner(),
            dependencies: distinct_digests(&missing_children),
        };
        proof {
            assert(!entries_as_map(before).contains_key(trie_key));
            lemma_entry_added(before, entry);
        }
        self.entries.push(entry);
        assert(self@ =~= old(self)@.insert(trie_key, entry.awaiting()));
        missing_children
    }
}

} // verus!
