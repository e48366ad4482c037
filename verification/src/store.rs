//! The metadata store: one record for each path, found by path and narrowed
//! by score filters.
//!
//! The store is modelled as a map from paths to records. Loading a list of
//! records inserts them one after the other, so that of two records for one
//! path the later one stays. Narrowing by a filter keeps the records that
//! pass it; narrowing by a list of filters applies them in turn, which
//! keeps the records that pass all of them.

use crate::metadata::{
    distinct_paths, eval, find_meta, has_path, is_first_with_path, is_last_with_path, passes,
    passes_all, ImageMeta, ImageMetaView,
};
use crate::score::{ScoreFilter, ScoreFilterView};
use vstd::prelude::*;

verus! {

/// The metadata records of one run, keyed by path.
///
/// The store holds at most one record for a path. Where the source names a
/// path more than once, the record that was loaded last is the one kept.
pub struct MetadataStore {
    records: Vec<ImageMeta>,
}

/// The records of a list keyed by path, as loading them one after the other
/// leaves them: a record replaces an earlier one with the same path.
pub open spec fn load(metas: Seq<ImageMetaView>) -> Map<Seq<char>, ImageMetaView>
    decreases metas.len(),
{
    if metas.len() == 0 {
        Map::empty()
    } else {
        load(metas.drop_last()).insert(metas.last().path, metas.last())
    }
}

/// The records of a store that pass a filter.
pub open spec fn narrow(
    store: Map<Seq<char>, ImageMetaView>,
    filter: ScoreFilterView,
) -> Map<Seq<char>, ImageMetaView> {
    Map::new(
        |path: Seq<char>| store.contains_key(path) && passes(store[path], filter),
        |path: Seq<char>| store[path],
    )
}

/// The records of a store that are left when the filters of a list have been
/// applied one after the other, each to what the one before left.
pub open spec fn narrow_all(
    store: Map<Seq<char>, ImageMetaView>,
    filters: Seq<ScoreFilterView>,
) -> Map<Seq<char>, ImageMetaView>
    decreases filters.len(),
{
    if filters.len() == 0 {
        store
    } else {
        narrow(narrow_all(store, filters.drop_last()), filters.last())
    }
}

/// The keys of a loaded list are the paths of its records, and each record
/// found under a key has that key as its path.
pub proof fn lemma_load_keys(metas: Seq<ImageMetaView>)
    ensures
        forall|path: Seq<char>| #[trigger] load(metas).contains_key(path) <==> has_path(metas, path),
        forall|path: Seq<char>| #[trigger]
            load(metas).contains_key(path) ==> load(metas)[path].path == path,
    decreases metas.len(),
{
    if metas.len() > 0 {
        let front = metas.drop_last();
        lemma_load_keys(front);
        assert forall|path: Seq<char>| #[trigger]
            load(metas).contains_key(path) implies has_path(metas, path) by {
            if path == metas.last().path {
                assert(metas[metas.len() - 1].path == path);
            } else {
                let i = choose|i: int| 0 <= i < front.len() && (#[trigger] front[i]).path == path;
                assert(metas[i].path == path);
            }
        }
        assert forall|path: Seq<char>| has_path(metas, path) implies #[trigger] load(
            metas,
        ).contains_key(path) by {
            let i = choose|i: int| 0 <= i < metas.len() && (#[trigger] metas[i]).path == path;
            if i < metas.len() - 1 {
                assert(front[i].path == path);
            }
        }
    }
}

/// Of the records that share a path, the one loaded last is the one that the
/// loaded store holds.
pub proof fn lemma_last_loaded_wins(metas: Seq<ImageMetaView>, i: int)
    requires
        is_last_with_path(metas, metas[i].path, i),
    ensures
        load(metas).contains_key(metas[i].path),
        load(metas)[metas[i].path] == metas[i],
    decreases metas.len(),
{
    if i < metas.len() - 1 {
        let front = metas.drop_last();
        assert(front[i] == metas[i]);
        assert forall|j: int| i < j < front.len() implies (#[trigger] front[j]).path
            != front[i].path by {
            assert(metas[j].path != metas[i].path);
        }
        lemma_last_loaded_wins(front, i);
        assert(metas[metas.len() - 1].path != metas[i].path);
    }
}

/// Applying a filter to what the same filter left changes nothing.
pub proof fn lemma_narrow_is_idempotent(
    store: Map<Seq<char>, ImageMetaView>,
    filter: ScoreFilterView,
)
    ensures
        narrow(narrow(store, filter), filter) == narrow(store, filter),
{
    assert(narrow(narrow(store, filter), filter) =~= narrow(store, filter));
}

/// Two filters leave the same records in whichever order they are applied.
pub proof fn lemma_narrow_commutes(
    store: Map<Seq<char>, ImageMetaView>,
    first: ScoreFilterView,
    second: ScoreFilterView,
)
    ensures
        narrow(narrow(store, first), second) == narrow(narrow(store, second), first),
{
    assert(narrow(narrow(store, first), second) =~= narrow(narrow(store, second), first));
}

/// Applying the filters of a list one after the other leaves the records
/// that pass all of them, each as the store held it.
pub proof fn lemma_narrow_all_is_conjunction(
    store: Map<Seq<char>, ImageMetaView>,
    filters: Seq<ScoreFilterView>,
)
    ensures
        narrow_all(store, filters) == Map::new(
            |path: Seq<char>| store.contains_key(path) && passes_all(store[path], filters),
            |path: Seq<char>| store[path],
        ),
    decreases filters.len(),
{
    let all = Map::new(
        |path: Seq<char>| store.contains_key(path) && passes_all(store[path], filters),
        |path: Seq<char>| store[path],
    );
    if filters.len() == 0 {
        assert(narrow_all(store, filters) =~= all);
    } else {
        let front = filters.drop_last();
        lemma_narrow_all_is_conjunction(store, front);
        assert forall|path: Seq<char>| store.contains_key(path) implies (passes_all(
            store[path],
            filters,
        ) <==> passes_all(store[path], front) && passes(store[path], filters.last())) by {
            if passes_all(store[path], filters) {
                assert forall|k: int| 0 <= k < front.len() implies passes(
                    store[path],
                    #[trigger] front[k],
                ) by {
                    assert(front[k] == filters[k]);
                }
                assert(filters[filters.len() - 1] == filters.last());
            }
            if passes_all(store[path], front) && passes(store[path], filters.last()) {
                assert forall|k: int| 0 <= k < filters.len() implies passes(
                    store[path],
                    #[trigger] filters[k],
                ) by {
                    if k < front.len() {
                        assert(front[k] == filters[k]);
                    }
                }
            }
        }
        assert(narrow_all(store, filters) =~= all);
    }
}

/// Two lists that hold the same filters leave the same records, in whatever
/// order and however often each list names a filter.
pub proof fn lemma_narrow_all_ignores_order_and_repetition(
    store: Map<Seq<char>, ImageMetaView>,
    one: Seq<ScoreFilterView>,
    other: Seq<ScoreFilterView>,
)
    requires
        forall|filter: ScoreFilterView| one.contains(filter) <==> other.contains(filter),
    ensures
        narrow_all(store, one) == narrow_all(store, other),
{
    lemma_narrow_all_is_conjunction(store, one);
    lemma_narrow_all_is_conjunction(store, other);
    assert forall|meta: ImageMetaView| passes_all(meta, one) == passes_all(meta, other) by {
        if passes_all(meta, one) {
            assert forall|k: int| 0 <= k < other.len() implies passes(
                meta,
                #[trigger] other[k],
            ) by {
                assert(other.contains(other[k]));
                let j = choose|j: int| 0 <= j < one.len() && one[j] == other[k];
                assert(passes(meta, one[j]));
            }
        }
        if passes_all(meta, other) {
            assert forall|k: int| 0 <= k < one.len() implies passes(meta, #[trigger] one[k]) by {
                assert(one.contains(one[k]));
                let j = choose|j: int| 0 <= j < other.len() && other[j] == one[k];
                assert(passes(meta, other[j]));
            }
        }
    }
    assert(narrow_all(store, one) =~= narrow_all(store, other));
}

/// Narrowing adds no record: what is left was in the store, unchanged.
pub proof fn lemma_narrow_all_keeps_only_stored(
    store: Map<Seq<char>, ImageMetaView>,
    filters: Seq<ScoreFilterView>,
    path: Seq<char>,
)
    requires
        narrow_all(store, filters).contains_key(path),
    ensures
        store.contains_key(path),
        narrow_all(store, filters)[path] == store[path],
{
    lemma_narrow_all_is_conjunction(store, filters);
}

/// Putting a record in the place of one with the same path, in a list
/// without repeated paths, is an insertion into the loaded store.
proof fn lemma_load_replace(metas: Seq<ImageMetaView>, i: int, record: ImageMetaView)
    requires
        distinct_paths(metas),
        0 <= i < metas.len(),
        metas[i].path == record.path,
    ensures
        distinct_paths(metas.update(i, record)),
        load(metas.update(i, record)) == load(metas).insert(record.path, record),
    decreases metas.len(),
{
    let changed = metas.update(i, record);
    assert forall|a: int, b: int| 0 <= a < b < changed.len() implies (#[trigger] changed[a]).path
        != (#[trigger] changed[b]).path by {
        assert(metas[a].path != metas[b].path);
    }
    let front = metas.drop_last();
    if i == metas.len() - 1 {
        assert(changed.drop_last() =~= front);
        assert(load(changed) =~= load(metas).insert(record.path, record));
    } else {
        assert(changed.drop_last() =~= front.update(i, record));
        assert(changed.last() == metas.last());
        assert forall|a: int, b: int| 0 <= a < b < front.len() implies (#[trigger] front[a]).path
            != (#[trigger] front[b]).path by {
            assert(metas[a].path != metas[b].path);
        }
        assert(front[i] == metas[i]);
        lemma_load_replace(front, i, record);
        assert(metas[i].path != metas[metas.len() - 1].path);
        assert(load(changed) =~= load(metas).insert(record.path, record));
    }
}

/// Appending a record is an insertion into the loaded store.
proof fn lemma_load_push(metas: Seq<ImageMetaView>, record: ImageMetaView)
    ensures
        load(metas.push(record)) == load(metas).insert(record.path, record),
{
    assert(metas.push(record).drop_last() =~= metas);
}

/// In a list without repeated paths, each record is the one that the loaded
/// store holds for its path.
proof fn lemma_load_distinct(metas: Seq<ImageMetaView>, i: int)
    requires
        distinct_paths(metas),
        0 <= i < metas.len(),
    ensures
        load(metas).contains_key(metas[i].path),
        load(metas)[metas[i].path] == metas[i],
{
    assert forall|j: int| i < j < metas.len() implies (#[trigger] metas[j]).path
        != metas[i].path by {
        assert(metas[i].path != metas[j].path);
    }
    lemma_last_loaded_wins(metas, i);
}

impl View for MetadataStore {
    type V = Map<Seq<char>, ImageMetaView>;

    /// The records of the store, keyed by path.
    closed spec fn view(&self) -> Map<Seq<char>, ImageMetaView> {
        load(self.records.deep_view())
    }
}

impl MetadataStore {
    #[verifier::type_invariant]
    spec fn no_path_twice(self) -> bool {
        distinct_paths(self.records.deep_view())
    }

    /// Every record of a store is kept under its own path.
    pub proof fn lemma_keyed_by_path(self)
        ensures
            forall|path: Seq<char>| #[trigger]
                self@.contains_key(path) ==> self@[path].path == path,
    {
        lemma_load_keys(self.records.deep_view());
    }

    /// A store without records.
    pub fn new() -> (store: MetadataStore)
        ensures
            store@ == Map::<Seq<char>, ImageMetaView>::empty(),
    {
        let records: Vec<ImageMeta> = Vec::new();
        assert(records.deep_view() =~= Seq::<ImageMetaView>::empty());
        MetadataStore { records }
    }

    /// The store with a record put in, in the place of the record that the
    /// store held for the same path, if it held one.
    pub fn insert(self, record: ImageMeta) -> (store: MetadataStore)
        ensures
            store@ == self@.insert(record@.path, record@),
    {
        proof {
            use_type_invariant(&self);
        }
        let ghost before = self.records.deep_view();
        let ghost added = record@;
        let mut records = self.records;
        let mut i: usize = 0;
        while i < records.len()
            invariant
                i <= records.len(),
                records.deep_view() == before,
                self@ == load(before),
                distinct_paths(before),
                added == record@,
                forall|j: int| 0 <= j < i ==> (#[trigger] before[j]).path != added.path,
            decreases records.len() - i,
        {
            if records[i].path == record.path {
                proof {
                    lemma_load_replace(before, i as int, added);
                }
                records.set(i, record);
                assert(records.deep_view() =~= before.update(i as int, added));
                return MetadataStore { records };
            }
            i += 1;
        }
        proof {
            lemma_load_push(before, added);
            assert forall|a: int, b: int| 0 <= a < b < before.push(added).len() implies (
            #[trigger] before.push(added)[a]).path != (#[trigger] before.push(added)[b]).path by {
                if b < before.len() {
                    assert(before[a].path != before[b].path);
                } else {
                    assert(before[a].path != added.path);
                }
            }
        }
        records.push(record);
        assert(records.deep_view() =~= before.push(added));
        MetadataStore { records }
    }

    /// The store that loading the records of a list in their order gives.
    pub fn from_records(records: Vec<ImageMeta>) -> (store: MetadataStore)
        ensures
            store@ == load(records.deep_view()),
    {
        let mut store = MetadataStore::new();
        let ghost all = records.deep_view();
        let mut i: usize = 0;
        while i < records.len()
            invariant
                i <= records.len(),
                all == records.deep_view(),
                store@ == load(all.take(i as int)),
            decreases records.len() - i,
        {
            proof {
                assert(all.take(i + 1).drop_last() =~= all.take(i as int));
            }
            store = store.insert(records[i].clone());
            i += 1;
        }
        assert(all.take(records.len() as int) =~= all);
        store
    }

    /// The number of records in the store.
    pub fn len(&self) -> (count: usize)
        ensures
            count == self@.dom().len(),
            self@.dom().finite(),
    {
        proof {
            use_type_invariant(self);
            lemma_distinct_count(self.records.deep_view());
        }
        self.records.len()
    }

    /// The record that the store holds for a path.
    pub fn find(&self, path: &String) -> (found: Option<&ImageMeta>)
        ensures
            (match found {
                Some(meta) => self@.contains_key(path@) && self@[path@] == meta@,
                None => !self@.contains_key(path@),
            }),
    {
        proof {
            use_type_invariant(self);
            lemma_load_keys(self.records.deep_view());
        }
        let found = find_meta(&self.records, path);
        proof {
            if let Some(meta) = found {
                let i = choose|i: int|
                    is_first_with_path(self.records.deep_view(), path@, i) && *meta
                        == #[trigger] self.records[i];
                lemma_load_distinct(self.records.deep_view(), i);
            }
        }
        found
    }

    /// Whether the store holds a record for a path.
    pub fn contains(&self, path: &String) -> (held: bool)
        ensures
            held == self@.contains_key(path@),
    {
        self.find(path).is_some()
    }

    /// The store of the records that pass a filter.
    pub fn narrow(&self, filter: &ScoreFilter) -> (narrowed: MetadataStore)
        ensures
            narrowed@ == narrow(self@, filter@),
    {
        proof {
            use_type_invariant(self);
        }
        let ghost all = self.records.deep_view();
        let mut kept: Vec<ImageMeta> = Vec::new();
        assert(kept.deep_view() =~= Seq::<ImageMetaView>::empty());
        assert(load(all.take(0)) =~= narrow(load(all.take(0)), filter@));
        let mut i: usize = 0;
        while i < self.records.len()
            invariant
                i <= self.records.len(),
                all == self.records.deep_view(),
                distinct_paths(all),
                distinct_paths(kept.deep_view()),
                forall|j: int|
                    0 <= j < kept.len() ==> exists|k: int|
                        0 <= k < i && #[trigger] kept.deep_view()[j] == all[k],
                load(kept.deep_view()) == narrow(load(all.take(i as int)), filter@),
            decreases self.records.len() - i,
        {
            let ghost seen = all.take(i as int);
            let ghost held = kept.deep_view();
            let ghost record = all[i as int];
            proof {
                assert(all.take(i + 1).drop_last() =~= seen);
                lemma_load_keys(seen);
                assert(!has_path(seen, record.path)) by {
                    if has_path(seen, record.path) {
                        let k = choose|k: int|
                            0 <= k < seen.len() && (#[trigger] seen[k]).path == record.path;
                        assert(all[k].path != all[i as int].path);
                    }
                }
            }
            if eval(&self.records[i], filter) {
                kept.push(self.records[i].clone());
                proof {
                    assert(kept.deep_view() =~= held.push(record));
                    lemma_load_push(held, record);
                    assert(load(held).insert(record.path, record) =~= narrow(
                        load(seen).insert(record.path, record),
                        filter@,
                    ));
                    assert forall|a: int, b: int|
                        0 <= a < b < held.push(record).len() implies (#[trigger] held.push(
                        record,
                    )[a]).path != (#[trigger] held.push(record)[b]).path by {
                        if b < held.len() {
                            assert(held[a].path != held[b].path);
                        } else {
                            let k = choose|k: int| 0 <= k < i && held[a] == all[k];
                            assert(all[k].path != all[i as int].path);
                        }
                    }
                    assert forall|j: int| 0 <= j < kept.len() implies exists|k: int|
                        0 <= k < i + 1 && #[trigger] kept.deep_view()[j] == all[k] by {
                        if j < held.len() {
                            let k = choose|k: int| 0 <= k < i && held[j] == all[k];
                            assert(kept.deep_view()[j] == all[k]);
                        } else {
                            assert(kept.deep_view()[j] == all[i as int]);
                        }
                    }
                }
            } else {
                proof {
                    assert(load(held) =~= narrow(load(seen).insert(record.path, record), filter@));
                    assert forall|j: int| 0 <= j < kept.len() implies exists|k: int|
                        0 <= k < i + 1 && #[trigger] kept.deep_view()[j] == all[k] by {
                        let k = choose|k: int| 0 <= k < i && held[j] == all[k];
                        assert(kept.deep_view()[j] == all[k]);
                    }
                }
            }
            i += 1;
        }
        assert(all.take(self.records.len() as int) =~= all);
        MetadataStore { records: kept }
    }

    /// The store of the records that pass every filter of a list, reached
    /// by applying the filters one after the other in their order.
    pub fn narrow_all(self, filters: &Vec<ScoreFilter>) -> (narrowed: MetadataStore)
        ensures
            narrowed@ == narrow_all(self@, filters.deep_view()),
    {
        let ghost start = self@;
        let ghost all = filters.deep_view();
        let mut current = self;
        let mut i: usize = 0;
        while i < filters.len()
            invariant
                i <= filters.len(),
                all == filters.deep_view(),
                current@ == narrow_all(start, all.take(i as int)),
            decreases filters.len() - i,
        {
            proof {
                assert(all.take(i + 1).drop_last() =~= all.take(i as int));
            }
            current = current.narrow(&filters[i]);
            i += 1;
        }
        assert(all.take(filters.len() as int) =~= all);
        current
    }
}

/// A list without repeated paths loads into a store with as many records.
proof fn lemma_distinct_count(metas: Seq<ImageMetaView>)
    requires
        distinct_paths(metas),
    ensures
        load(metas).dom().finite(),
        load(metas).dom().len() == metas.len(),
    decreases metas.len(),
{
    if metas.len() > 0 {
        let front = metas.drop_last();
        assert forall|a: int, b: int| 0 <= a < b < front.len() implies (#[trigger] front[a]).path
            != (#[trigger] front[b]).path by {
            assert(metas[a].path != metas[b].path);
        }
        lemma_distinct_count(front);
        lemma_load_keys(front);
        assert(!has_path(front, metas.last().path)) by {
            if has_path(front, metas.last().path) {
                let k = choose|k: int|
                    0 <= k < front.len() && (#[trigger] front[k]).path == metas.last().path;
                assert(metas[k].path != metas[metas.len() - 1].path);
            }
        }
    }
}

} // verus!
