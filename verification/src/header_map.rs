//! A map from block hashes to block headers.

use std::collections::HashMap;

use vstd::prelude::*;

use crate::header::{BlockHash, BlockHeader, BlockHeaderView};

verus! {

broadcast use vstd::std_specs::hash::group_hash_axioms;

/// Whether two hashes are the same bytes.
fn same_hash(a: &BlockHash, b: &BlockHash) -> (same: bool)
    ensures
        same == (a@ == b@),
{
    for i in 0..32usize
        invariant
            forall|j: int| 0 <= j < i ==> a@[j] == b@[j],
    {
        if a[i] != b[i] {
            assert(a@[i as int] != b@[i as int]);
            return false;
        }
    }
    assert(a@ =~= b@);
    true
}

/// The bucket of a hash: its first eight bytes as a number.
spec fn bucket_of(hash: Seq<u8>) -> u64 {
    (hash[0] + 0x100 * hash[1] + 0x1_0000 * hash[2] + 0x100_0000 * hash[3] + 0x1_0000_0000 * hash[4]
        + 0x100_0000_0000 * hash[5] + 0x1_0000_0000_0000 * hash[6] + 0x100_0000_0000_0000
        * hash[7]) as u64
}

fn bucket(hash: &BlockHash) -> (number: u64)
    ensures
        number == bucket_of(hash@),
{
    hash[0] as u64 + 0x100 * hash[1] as u64 + 0x1_0000 * hash[2] as u64 + 0x100_0000
        * hash[3] as u64 + 0x1_0000_0000 * hash[4] as u64 + 0x100_0000_0000 * hash[5] as u64
        + 0x1_0000_0000_0000 * hash[6] as u64 + 0x100_0000_0000_0000 * hash[7] as u64
}

/// What a list of records holds.
pub open spec fn records_view(records: Seq<(BlockHash, BlockHeader)>) -> Seq<
    (Seq<u8>, BlockHeaderView),
> {
    records.map_values(|record: (BlockHash, BlockHeader)| (record.0@, record.1@))
}

/// A table after `records` were written to it, the first of them first.
pub open spec fn written(
    table: Map<Seq<u8>, BlockHeaderView>,
    records: Seq<(Seq<u8>, BlockHeaderView)>,
) -> Map<Seq<u8>, BlockHeaderView>
    decreases records.len(),
{
    if records.len() == 0 {
        table
    } else {
        written(table, records.drop_last()).insert(records.last().0, records.last().1)
    }
}

/// Whether `records` lists each entry of `map` once.
pub open spec fn lists(
    records: Seq<(Seq<u8>, BlockHeaderView)>,
    map: Map<Seq<u8>, BlockHeaderView>,
) -> bool {
    &&& forall|i: int, j: int|
        0 <= i < j < records.len() ==> (#[trigger] records[i]).0 != (#[trigger] records[j]).0
    &&& forall|i: int|
        0 <= i < records.len() ==> map.contains_key((#[trigger] records[i]).0)
            && map[records[i].0] == records[i].1
    &&& forall|hash: Seq<u8>| #[trigger]
        map.contains_key(hash) ==> exists|i: int|
            0 <= i < records.len() && (#[trigger] records[i]).0 == hash
}

/// Writing a list of a map's entries to a table puts the map over the table.
pub proof fn lemma_written_lists(
    table: Map<Seq<u8>, BlockHeaderView>,
    records: Seq<(Seq<u8>, BlockHeaderView)>,
    map: Map<Seq<u8>, BlockHeaderView>,
)
    requires
        lists(records, map),
    ensures
        written(table, records) == table.union_prefer_right(map),
{
    lemma_written_domain(table, records);
    assert forall|hash: Seq<u8>|
        #[trigger] written(table, records).contains_key(hash) == table.union_prefer_right(
            map,
        ).contains_key(hash) by {
        if map.contains_key(hash) {
            let i = choose|i: int| 0 <= i < records.len() && (#[trigger] records[i]).0 == hash;
            assert(records[i].0 == hash);
        }
    }
    assert forall|hash: Seq<u8>| #[trigger]
        written(table, records).contains_key(hash) implies written(table, records)[hash]
        == table.union_prefer_right(map)[hash] by {
        if map.contains_key(hash) {
            let i = choose|i: int| 0 <= i < records.len() && (#[trigger] records[i]).0 == hash;
            lemma_written_at(table, records, i);
        } else {
            assert(forall|i: int| 0 <= i < records.len() ==> (#[trigger] records[i]).0 != hash);
        }
    }
    assert(written(table, records) =~= table.union_prefer_right(map));
}

/// A written table holds the keys of the old table and those of the records, and keeps what the
/// records do not name.
proof fn lemma_written_domain(
    table: Map<Seq<u8>, BlockHeaderView>,
    records: Seq<(Seq<u8>, BlockHeaderView)>,
)
    ensures
        forall|hash: Seq<u8>| #[trigger]
            written(table, records).contains_key(hash) <==> (table.contains_key(hash)
                || exists|i: int| 0 <= i < records.len() && (#[trigger] records[i]).0 == hash),
        forall|hash: Seq<u8>|
            table.contains_key(hash) && (forall|i: int|
                0 <= i < records.len() ==> (#[trigger] records[i]).0 != hash)
                ==> #[trigger] written(table, records)[hash] == table[hash],
    decreases records.len(),
{
    if records.len() > 0 {
        let init = records.drop_last();
        lemma_written_domain(table, init);
        assert forall|hash: Seq<u8>| #[trigger]
            written(table, records).contains_key(hash) <==> (table.contains_key(hash)
                || exists|i: int| 0 <= i < records.len() && (#[trigger] records[i]).0 == hash) by {
            assert(written(table, records).contains_key(hash) == (written(table, init).contains_key(
                hash,
            ) || records.last().0 == hash));
            if written(table, records).contains_key(hash) && !table.contains_key(hash) {
                if records.last().0 == hash {
                    assert(records[records.len() - 1].0 == hash);
                } else {
                    let i = choose|i: int| 0 <= i < init.len() && (#[trigger] init[i]).0 == hash;
                    assert(records[i].0 == hash);
                }
            }
            if exists|i: int| 0 <= i < records.len() && (#[trigger] records[i]).0 == hash {
                let i = choose|i: int| 0 <= i < records.len() && (#[trigger] records[i]).0 == hash;
                if i < init.len() {
                    assert(init[i].0 == hash);
                }
            }
        }
        assert forall|hash: Seq<u8>|
            table.contains_key(hash) && (forall|i: int|
                0 <= i < records.len() ==> (#[trigger] records[i]).0
                    != hash) implies #[trigger] written(table, records)[hash] == table[hash] by {
            assert(records[records.len() - 1].0 != hash);
            assert(forall|i: int| 0 <= i < init.len() ==> (#[trigger] init[i]) == records[i]);
            assert(written(table, init).contains_key(hash));
            assert(written(table, init)[hash] == table[hash]);
        }
    }
}

/// Where no key is listed twice, each record is found in the written table.
proof fn lemma_written_at(
    table: Map<Seq<u8>, BlockHeaderView>,
    records: Seq<(Seq<u8>, BlockHeaderView)>,
    at: int,
)
    requires
        0 <= at < records.len(),
        forall|i: int, j: int|
            0 <= i < j < records.len() ==> (#[trigger] records[i]).0 != (#[trigger] records[j]).0,
    ensures
        written(table, records)[records[at].0] == records[at].1,
    decreases records.len(),
{
    if at < records.len() - 1 {
        lemma_written_at(table, records.drop_last(), at);
    }
}

/// The headers of a chain by block hash.
pub struct HeaderMap {
    entries: Vec<(BlockHash, BlockHeader)>,
    buckets: HashMap<u64, Vec<usize>>,
}

impl View for HeaderMap {
    type V = Map<Seq<u8>, BlockHeaderView>;

    closed spec fn view(&self) -> Map<Seq<u8>, BlockHeaderView> {
        Map::new(
            |hash: Seq<u8>| exists|i: int| self.holds_at(hash, i),
            |hash: Seq<u8>| self.entries@[choose|i: int| self.holds_at(hash, i)].1@,
        )
    }
}

impl HeaderMap {
    spec fn holds_at(&self, hash: Seq<u8>, i: int) -> bool {
        0 <= i < self.entries@.len() && self.entries@[i].0@ == hash
    }

    /// No hash is held twice, and each is found through its bucket.
    pub closed spec fn wf(&self) -> bool {
        &&& forall|i: int, j: int|
            0 <= i < j < self.entries@.len() ==> (#[trigger] self.entries@[i]).0@ != (
            #[trigger] self.entries@[j]).0@
        &&& forall|i: int|
            0 <= i < self.entries@.len() ==> self.bucket_lists(
                bucket_of((#[trigger] self.entries@[i]).0@),
                i,
            )
        &&& forall|b: u64, j: int|
            self.buckets@.contains_key(b) && 0 <= j < self.buckets@[b]@.len()
                ==> #[trigger] self.buckets@[b]@[j] < self.entries@.len()
    }

    spec fn bucket_lists(&self, b: u64, i: int) -> bool {
        self.buckets@.contains_key(b) && exists|j: int|
            0 <= j < self.buckets@[b]@.len() && #[trigger] self.buckets@[b]@[j] == i
    }

    /// An empty map.
    pub fn new() -> (map: HeaderMap)
        ensures
            map.wf(),
            map@ == Map::<Seq<u8>, BlockHeaderView>::empty(),
    {
        let map = HeaderMap { entries: Vec::new(), buckets: HashMap::new() };
        assert(map@ =~= Map::<Seq<u8>, BlockHeaderView>::empty());
        map
    }

    /// The place of a hash in the list of entries.
    fn position(&self, hash: &BlockHash) -> (place: Option<usize>)
        requires
            self.wf(),
        ensures
            match place {
                Some(i) => self.holds_at(hash@, i as int),
                None => forall|i: int| !self.holds_at(hash@, i),
            },
    {
        let b = bucket(hash);
        match self.buckets.get(&b) {
            Some(places) => {
                for k in 0..places.len()
                    invariant
                        self.wf(),
                        self.buckets@.contains_key(b),
                        self.buckets@[b] == *places,
                        b == bucket_of(hash@),
                        forall|j: int|
                            0 <= j < k ==> !self.holds_at(hash@, #[trigger] places@[j] as int),
                {
                    let i = places[k];
                    assert(self.buckets@[b]@[k as int] == i);
                    if same_hash(&self.entries[i].0, hash) {
                        return Some(i);
                    }
                }
                assert forall|i: int| !self.holds_at(hash@, i) by {
                    if self.holds_at(hash@, i) {
                        assert(self.bucket_lists(bucket_of(self.entries@[i].0@), i));
                    }
                }
                None
            },
            None => {
                assert forall|i: int| !self.holds_at(hash@, i) by {
                    if self.holds_at(hash@, i) {
                        assert(self.bucket_lists(bucket_of(self.entries@[i].0@), i));
                    }
                }
                None
            },
        }
    }

    /// The header held under a hash.
    pub fn get(&self, hash: &BlockHash) -> (header: Option<&BlockHeader>)
        requires
            self.wf(),
        ensures
            match header {
                Some(header) => self@.contains_key(hash@) && self@[hash@] == header@,
                None => !self@.contains_key(hash@),
            },
    {
        match self.position(hash) {
            Some(i) => {
                let ghost k = choose|k: int| self.holds_at(hash@, k);
                assert(self.holds_at(hash@, k) && k == i);
                Some(&self.entries[i].1)
            },
            None => None,
        }
    }

    /// Whether a header is held under a hash.
    pub fn contains_key(&self, hash: &BlockHash) -> (held: bool)
        requires
            self.wf(),
        ensures
            held == self@.contains_key(hash@),
    {
        match self.position(hash) {
            Some(_) => true,
            None => false,
        }
    }

    /// The view at an entry is that entry.
    proof fn lemma_view_at(&self, i: int)
        requires
            self.wf(),
            0 <= i < self.entries@.len(),
        ensures
            self@.contains_key(self.entries@[i].0@),
            self@[self.entries@[i].0@] == self.entries@[i].1@,
    {
        let hash = self.entries@[i].0@;
        assert(self.holds_at(hash, i));
        let k = choose|k: int| self.holds_at(hash, k);
        assert(self.holds_at(hash, k) && k == i);
    }

    /// A list of entries that agrees with `before` but for one hash spells `before` with that
    /// hash inserted.
    proof fn lemma_view_inserted(&self, before: &HeaderMap, place: int)
        requires
            self.wf(),
            before.wf(),
            0 <= place < self.entries@.len(),
            self.entries@.len() >= before.entries@.len(),
            self.entries@.len() <= before.entries@.len() + 1,
            place < before.entries@.len() ==> before.entries@[place].0@
                == self.entries@[place].0@ && self.entries@.len() == before.entries@.len(),
            forall|i: int|
                0 <= i < self.entries@.len() && i != place ==> i < before.entries@.len()
                    && #[trigger] self.entries@[i] == before.entries@[i],
        ensures
            self@ == before@.insert(self.entries@[place].0@, self.entries@[place].1@),
    {
        let (hash, header) = (self.entries@[place].0@, self.entries@[place].1@);
        let after = before@.insert(hash, header);
        assert forall|h: Seq<u8>| self@.contains_key(h) == #[trigger] after.contains_key(h) by {
            if self@.contains_key(h) {
                let i = choose|i: int| self.holds_at(h, i);
                if i != place {
                    assert(before.holds_at(h, i));
                }
            }
            if h == hash {
                self.lemma_view_at(place);
            } else if before@.contains_key(h) {
                let i = choose|i: int| before.holds_at(h, i);
                assert(self.entries@[i] == before.entries@[i]);
                assert(self.holds_at(h, i));
            }
        }
        assert forall|h: Seq<u8>| #[trigger] self@.contains_key(h) implies self@[h] == after[h] by {
            let i = choose|i: int| self.holds_at(h, i);
            self.lemma_view_at(i);
            if i != place {
                assert(self.entries@[i] == before.entries@[i]);
                before.lemma_view_at(i);
                assert(h != hash);
            }
        }
        assert(self@ =~= after);
    }

    /// Holds `header` under `hash`, in place of what was held there before.
    pub fn insert(&mut self, hash: BlockHash, header: BlockHeader)
        requires
            old(self).wf(),
        ensures
            final(self).wf(),
            final(self)@ == old(self)@.insert(hash@, header@),
    {
        let ghost before = *self;
        match self.position(&hash) {
            Some(i) => {
                self.entries.set(i, (hash, header));
                proof {
                    assert forall|k: int| 0 <= k < self.entries@.len() implies self.bucket_lists(
                        bucket_of((#[trigger] self.entries@[k]).0@),
                        k,
                    ) by {
                        let c = bucket_of(before.entries@[k].0@);
                        assert(before.holds_at(hash@, i as int));
                        assert(self.entries@[k].0@ == before.entries@[k].0@);
                        assert(before.bucket_lists(c, k));
                        let j = choose|j: int|
                            0 <= j < before.buckets@[c]@.len()
                                && #[trigger] before.buckets@[c]@[j] == k;
                        assert(self.buckets@[c]@[j] == k);
                    }
                    assert(self.wf());
                    self.lemma_view_inserted(&before, i as int);
                }
            },
            None => {
                let b = bucket(&hash);
                let mut places: Vec<usize> = match self.buckets.remove(&b) {
                    Some(places) => places,
                    None => Vec::new(),
                };
                let ghost earlier = places@;
                places.push(self.entries.len());
                self.buckets.insert(b, places);
                self.entries.push((hash, header));
                proof {
                    let last = before.entries@.len() as int;
                    assert forall|k: int| 0 <= k < self.entries@.len() implies self.bucket_lists(
                        bucket_of((#[trigger] self.entries@[k]).0@),
                        k,
                    ) by {
                        if k == last {
                            assert(self.buckets@[b]@[earlier.len() as int] == k);
                        } else {
                            let c = bucket_of(before.entries@[k].0@);
                            assert(before.bucket_lists(c, k));
                            let j = choose|j: int|
                                0 <= j < before.buckets@[c]@.len()
                                    && #[trigger] before.buckets@[c]@[j] == k;
                            assert(self.buckets@[c]@[j] == k);
                        }
                    }
                    assert forall|i: int, j: int| 0 <= i < j < self.entries@.len() implies (
                    #[trigger] self.entries@[i]).0@ != (#[trigger] self.entries@[j]).0@ by {
                        if j == last {
                            assert(!before.holds_at(hash@, i));
                        }
                    }
                    assert forall|c: u64, j: int|
                        self.buckets@.contains_key(c) && 0 <= j
                            < self.buckets@[c]@.len() implies #[trigger] self.buckets@[c]@[j]
                        < self.entries@.len() by {
                        if c == b {
                            if j < earlier.len() {
                                assert(before.buckets@[b]@[j] < last);
                            }
                        } else {
                            assert(before.buckets@[c]@[j] < last);
                        }
                    }
                    assert(self.wf());
                    self.lemma_view_inserted(&before, last);
                }
            },
        }
    }

    /// The map that writing `records` to an empty table gives.
    pub fn from_records(records: Vec<(BlockHash, BlockHeader)>) -> (map: HeaderMap)
        ensures
            map.wf(),
            map@ == written(Map::empty(), records_view(records@)),
    {
        let mut map = HeaderMap::new();
        let ghost all = records_view(records@);
        assert(all.take(0) == Seq::<(Seq<u8>, BlockHeaderView)>::empty());
        for i in 0..records.len()
            invariant
                all == records_view(records@),
                map.wf(),
                map@ == written(Map::empty(), all.take(i as int)),
        {
            let (hash, header) = &records[i];
            map.insert(*hash, header.clone());
            assert(all.take(i + 1).drop_last() == all.take(i as int));
        }
        assert(all.take(all.len() as int) == all);
        map
    }

    /// All entries, each once.
    pub fn records(&self) -> (records: Vec<(BlockHash, BlockHeader)>)
        requires
            self.wf(),
        ensures
            lists(records_view(records@), self@),
    {
        let mut records: Vec<(BlockHash, BlockHeader)> = Vec::with_capacity(self.entries.len());
        for i in 0..self.entries.len()
            invariant
                records_view(records@) == records_view(self.entries@).take(i as int),
        {
            let (hash, header) = &self.entries[i];
            let ghost earlier = records@;
            records.push((*hash, header.clone()));
            assert(records_view(records@) =~= records_view(earlier).push((hash@, header@)));
            assert(records_view(records@) =~= records_view(self.entries@).take(i + 1));
        }
        proof {
            let all = records_view(records@);
            assert(all == records_view(self.entries@));
            assert forall|i: int, j: int| 0 <= i < j < all.len() implies (#[trigger] all[i]).0 != (
            #[trigger] all[j]).0 by {
                assert(self.entries@[i].0@ != self.entries@[j].0@);
            }
            assert forall|i: int| 0 <= i < all.len() implies self@.contains_key(
                (#[trigger] all[i]).0,
            ) && self@[all[i].0] == all[i].1 by {
                self.lemma_view_at(i);
            }
            assert forall|hash: Seq<u8>| #[trigger] self@.contains_key(hash) implies exists|i: int|
                0 <= i < all.len() && (#[trigger] all[i]).0 == hash by {
                let i = choose|i: int| self.holds_at(hash, i);
                assert(all[i].0 == hash);
            }
        }
        records
    }
}

} // verus!
