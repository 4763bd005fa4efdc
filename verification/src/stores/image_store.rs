use crate::stores::file_store::KnownExtension;
use crate::stores::ledger::{lemma_with, Ledger};
use crate::stores::traits::{IndexedStore, StoreId};
use std::collections::HashMap;
use vstd::prelude::*;
use vstd::std_specs::iter::IteratorSpec;
use vstd::string::StringExecFns;

verus! {

/// Handed out by a `ImageStore` when a new asset is added.
#[derive(Copy, Clone, Debug, Eq, PartialEq, Hash, Structural)]
pub struct ImageId(pub u32);

impl StoreId for ImageId {
    open spec fn number(&self) -> u32 {
        self.0
    }
}

/// What an `Image` holds.
pub struct ImageView {
    pub path: Seq<char>,
}

pub struct Image {
    path: String,
}

impl View for Image {
    type V = ImageView;

    closed spec fn view(&self) -> ImageView {
        ImageView { path: self.path@ }
    }
}

impl Image {
    pub fn path(&self) -> (r: &str)
        ensures
            r@ == self@.path,
    {
        self.path.as_str()
    }
}

pub struct ImageStore {
    files: HashMap<u32, Image>,
    next_id: ImageId,
}

impl View for ImageStore {
    type V = Ledger<ImageView>;

    closed spec fn view(&self) -> Ledger<ImageView> {
        Ledger { records: self.files@.map_values(|i: Image| i@), next: self.next_id.0 as nat }
    }
}

/// Whether `path` ends in an extension of a kind of image that we know.
pub open spec fn is_image_path(path: Seq<char>) -> bool {
    KnownExtension::of_path(path) is Some
}

impl ImageStore {
    pub fn new() -> (s: ImageStore)
        ensures
            s@ == Ledger::<ImageView>::empty(),
    {
        let s = ImageStore { files: HashMap::new(), next_id: ImageId(0) };
        assert(s@.records =~= Map::empty());
        s
    }

    /// Whether an identifier is left for a new image.
    pub fn has_free_id(&self) -> (b: bool)
        ensures
            b == self@.has_free_id(),
    {
        self.next_id.0 < u32::MAX
    }

    /// Creates a new reference to an image, and returns the id.
    /// Will return `None`, and leave the store as it is, if the path's
    /// extension is not one of an image.
    pub fn new_image(&mut self, path: &str) -> (r: Option<ImageId>)
        requires
            is_image_path(path@) ==> old(self)@.has_free_id(),
        ensures
            is_image_path(path@) ==> r == Some(ImageId(old(self)@.next_number())) && final(self)@
                == old(self)@.with(ImageView { path: path@ }),
            !is_image_path(path@) ==> r is None && final(self)@ == old(self)@,
    {
        broadcast use vstd::std_specs::hash::group_hash_axioms;

        if !ImageStore::path_has_image_extension(path) {
            // This is not an image path we recognize.
            return None;
        }
        let id = self.next_id;
        let new_image = Image { path: String::from_str(path) };

        // Store the new image.
        self.files.insert(id.0, new_image);

        // Update where we are at with the ids.
        self.next_id = ImageId(id.0 + 1);

        assert(self@.records =~= old(self)@.with(ImageView { path: path@ }).records);
        Some(id)
    }

    /// Does the path have an extension that we recognize as being an image?
    /// Does not care about capitalization.
    pub fn path_has_image_extension(path: &str) -> (b: bool)
        ensures
            b == is_image_path(path@),
    {
        KnownExtension::from_path(path).is_some()
    }
}

impl IndexedStore for ImageStore {
    type Id = ImageId;

    type Item = Image;

    open spec fn ledger(&self) -> Ledger<ImageView> {
        self@
    }

    fn get(&self, id: ImageId) -> (r: Option<&Image>) {
        broadcast use vstd::std_specs::hash::group_hash_axioms;

        self.files.get(&id.0)
    }

    fn count(&self) -> (n: usize) {
        broadcast use vstd::std_specs::hash::group_hash_axioms;

        assert(self@.records.dom() =~= self.files@.dom());
        self.files.len()
    }

    fn remove(&mut self, id: &ImageId) -> (r: Option<Image>) {
        broadcast use vstd::std_specs::hash::group_hash_axioms;

        let r = self.files.remove(&id.0);
        assert(self@.records =~= old(self)@.records.remove(id.0));
        r
    }

    fn iter(&self) -> (r: Vec<(ImageId, &Image)>) {
        broadcast use vstd::std_specs::hash::group_hash_axioms;

        assert(self@.records.dom() =~= self.files@.dom());
        let mut pairs: Vec<(ImageId, &Image)> = Vec::new();
        let ghost entries = self.files.iter().remaining();
        for entry in it: self.files.iter()
            invariant
                it.seq() == entries,
                it.seq().len() == self.files@.len(),
                it.seq().no_duplicates(),
                forall|i: int|
                    0 <= i < it.seq().len() ==> self.files@.contains_key(
                        *(#[trigger] it.seq()[i]).0,
                    ) && self.files@[*it.seq()[i].0] == *it.seq()[i].1,
                forall|k: u32| #[trigger]
                    self.files@.contains_key(k) ==> it.seq().contains((&k, &self.files@[k])),
                pairs.len() == it.index(),
                forall|i: int|
                    0 <= i < pairs.len() ==> (#[trigger] pairs[i]).0.0 == *it.seq()[i].0
                        && *pairs[i].1 == *it.seq()[i].1,
        {
            pairs.push((ImageId(*entry.0), entry.1));
        }
        assert forall|k: u32| #[trigger] self@.records.contains_key(k) implies exists|i: int|
            0 <= i < pairs.len() && (#[trigger] pairs[i]).0.number() == k by {
            let found = (&k, &self.files@[k]);
            assert(entries.contains(found));
            let i = choose|i: int| 0 <= i < entries.len() && entries[i] == found;
            assert(pairs[i].0.number() == k);
        }
        pairs
    }
}

/// A new image is found again under the identifier that it got, with the
/// path that it was made with; the records that were there stay as they
/// were.
pub proof fn lemma_new_image_round_trip(store: Ledger<ImageView>, path: Seq<char>)
    requires
        store.wf(),
        store.has_free_id(),
    ensures
        ({
            let id = ImageId(store.next_number());
            let after = store.with(ImageView { path });
            &&& after.wf()
            &&& !store.records.contains_key(id.0)
            &&& after.records.contains_key(id.0)
            &&& after.records[id.0].path == path
            &&& after.records.len() == store.records.len() + 1
            &&& forall|k: u32| #[trigger]
                store.records.contains_key(k) ==> after.records.contains_key(k)
                    && after.records[k] == store.records[k]
        }),
{
    lemma_with(store, ImageView { path });
}

} // verus!
