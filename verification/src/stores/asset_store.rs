use crate::stores::file_store::FileId;
use crate::stores::ledger::{lemma_with, Ledger};
use crate::stores::traits::{IndexedStore, StoreId};
use std::collections::HashMap;
use vstd::prelude::*;
use vstd::std_specs::iter::IteratorSpec;
use vstd::string::StringExecFns;

verus! {

/// Handed out by an `AssetStore` when a new asset is added.
#[derive(Eq, PartialEq, Hash, Debug, Copy, Clone, Structural)]
pub struct AssetId(pub u32);

impl StoreId for AssetId {
    open spec fn number(&self) -> u32 {
        self.0
    }
}

/// What an `Asset` holds.
pub struct AssetView {
    pub title: Seq<char>,
    pub file: FileId,
}

pub struct Asset {
    title: String,
    file: FileId,
}

impl View for Asset {
    type V = AssetView;

    closed spec fn view(&self) -> AssetView {
        AssetView { title: self.title@, file: self.file }
    }
}

impl Asset {
    pub fn title(&self) -> (r: &String)
        ensures
            r@ == self@.title,
    {
        &self.title
    }

    pub fn file(&self) -> (r: &FileId)
        ensures
            *r == self@.file,
    {
        &self.file
    }
}

pub struct AssetStore {
    assets: HashMap<u32, Asset>,
    next_id: AssetId,
}

impl View for AssetStore {
    type V = Ledger<AssetView>;

    closed spec fn view(&self) -> Ledger<AssetView> {
        Ledger { records: self.assets@.map_values(|a: Asset| a@), next: self.next_id.0 as nat }
    }
}

impl AssetStore {
    pub fn new() -> (s: AssetStore)
        ensures
            s@ == Ledger::<AssetView>::empty(),
    {
        let s = AssetStore { assets: HashMap::new(), next_id: AssetId(0) };
        assert(s@.records =~= Map::empty());
        s
    }

    /// Whether an identifier is left for a new asset.
    pub fn has_free_id(&self) -> (b: bool)
        ensures
            b == self@.has_free_id(),
    {
        self.next_id.0 < u32::MAX
    }

    /// Creates a new asset and returns the id. Whether a file is kept under
    /// `file` anywhere is not looked at.
    pub fn new_asset(&mut self, title: &str, file: FileId) -> (id: AssetId)
        requires
            old(self)@.has_free_id(),
        ensures
            id == AssetId(old(self)@.next_number()),
            final(self)@ == old(self)@.with(AssetView { title: title@, file }),
    {
        broadcast use vstd::std_specs::hash::group_hash_axioms;

        let id = self.next_id;
        let new_asset = Asset { title: String::from_str(title), file };

        // Store the new asset.
        self.assets.insert(id.0, new_asset);

        // Update where we are at with the id's.
        self.next_id = AssetId(id.0 + 1);

        assert(self@.records =~= old(self)@.with(AssetView { title: title@, file }).records);
        id
    }
}

impl IndexedStore for AssetStore {
    type Id = AssetId;

    type Item = Asset;

    open spec fn ledger(&self) -> Ledger<AssetView> {
        self@
    }

    fn get(&self, id: AssetId) -> (r: Option<&Asset>) {
        broadcast use vstd::std_specs::hash::group_hash_axioms;

        self.assets.get(&id.0)
    }

    fn count(&self) -> (n: usize) {
        broadcast use vstd::std_specs::hash::group_hash_axioms;

        assert(self@.records.dom() =~= self.assets@.dom());
        self.assets.len()
    }

    fn remove(&mut self, id: &AssetId) -> (r: Option<Asset>) {
        broadcast use vstd::std_specs::hash::group_hash_axioms;

        let r = self.assets.remove(&id.0);
        assert(self@.records =~= old(self)@.records.remove(id.0));
        r
    }

    fn iter(&self) -> (r: Vec<(AssetId, &Asset)>) {
        broadcast use vstd::std_specs::hash::group_hash_axioms;

        assert(self@.records.dom() =~= self.assets@.dom());
        let mut pairs: Vec<(AssetId, &Asset)> = Vec::new();
        let ghost entries = self.assets.iter().remaining();
        for entry in it: self.assets.iter()
            invariant
                it.seq() == entries,
                it.seq().len() == self.assets@.len(),
                it.seq().no_duplicates(),
                forall|i: int|
                    0 <= i < it.seq().len() ==> self.assets@.contains_key(
                        *(#[trigger] it.seq()[i]).0,
                    ) && self.assets@[*it.seq()[i].0] == *it.seq()[i].1,
                forall|k: u32| #[trigger]
                    self.assets@.contains_key(k) ==> it.seq().contains((&k, &self.assets@[k])),
                pairs.len() == it.index(),
                forall|i: int|
                    0 <= i < pairs.len() ==> (#[trigger] pairs[i]).0.0 == *it.seq()[i].0
                        && *pairs[i].1 == *it.seq()[i].1,
        {
            pairs.push((AssetId(*entry.0), entry.1));
        }
        assert forall|k: u32| #[trigger] self@.records.contains_key(k) implies exists|i: int|
            0 <= i < pairs.len() && (#[trigger] pairs[i]).0.number() == k by {
            let found = (&k, &self.assets@[k]);
            assert(entries.contains(found));
            let i = choose|i: int| 0 <= i < entries.len() && entries[i] == found;
            assert(pairs[i].0.number() == k);
        }
        pairs
    }
}

/// A new asset is found again under the identifier that it got, with the
/// title and the file reference that it was made with; the records that were
/// there stay as they were.
pub proof fn lemma_new_asset_round_trip(store: Ledger<AssetView>, title: Seq<char>, file: FileId)
    requires
        store.wf(),
        store.has_free_id(),
    ensures
        ({
            let id = AssetId(store.next_number());
            let after = store.with(AssetView { title, file });
            &&& after.wf()
            &&& !store.records.contains_key(id.0)
            &&& after.records.contains_key(id.0)
            &&& after.records[id.0].title == title
            &&& after.records[id.0].file == file
            &&& after.records.len() == store.records.len() + 1
            &&& forall|k: u32| #[trigger]
                store.records.contains_key(k) ==> after.records.contains_key(k)
                    && after.records[k] == store.records[k]
        }),
{
    lemma_with(store, AssetView { title, file });
}

} // verus!
