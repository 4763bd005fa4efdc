use crate::stores::ledger::Ledger;
use crate::stores::traits::{IndexedStore, StoreId};
use crate::stores::ledger::{lemma_with, lemma_without};
use crate::text::{
    decimal, decimal_string, extension_of, file_name_of, is_digit,
    lemma_decimal_digits, lemma_decimal_injective, lemma_last_index_of_unique, lowercase,
    lowercase_equals, path_extension,
};
use std::collections::{HashMap, HashSet};
use vstd::prelude::*;
use vstd::std_specs::iter::IteratorSpec;
use vstd::string::StringExecFns;

verus! {

/// Handed out by a `FileStore` when a new file is added.
#[derive(Eq, PartialEq, Hash, Debug, Copy, Clone, Structural)]
pub struct FileId(pub u32);

impl FileId {
    /// The identifier as a decimal number.
    pub fn to_string(&self) -> (s: String)
        ensures
            s@ == decimal(self.0 as nat),
    {
        decimal_string(self.0)
    }
}

impl StoreId for FileId {
    open spec fn number(&self) -> u32 {
        self.0
    }
}

/// File extensions that we know how to deal with.
#[derive(Eq, PartialEq, Debug, Structural)]
pub enum KnownExtension {
    Png,
}

impl KnownExtension {
    /// The extension as it is written in a file name, without the dot.
    pub open spec fn text(self) -> Seq<char> {
        match self {
            KnownExtension::Png => seq!['p', 'n', 'g'],
        }
    }

    /// The known extension that `s` names, whatever the case of its letters.
    pub open spec fn parse(s: Seq<char>) -> Option<KnownExtension> {
        if lowercase(s) == KnownExtension::Png.text() {
            Some(KnownExtension::Png)
        } else {
            None
        }
    }

    /// The known extension that the path `path` ends in.
    pub open spec fn of_path(path: Seq<char>) -> Option<KnownExtension> {
        match extension_of(path) {
            Some(e) => KnownExtension::parse(e),
            None => None,
        }
    }

    /// Creates a KnownExtension from a given extension string (without the ".").
    /// Returns None when we don't know how to deal with a given type of file.
    pub fn from_str(string: &str) -> (r: Option<KnownExtension>)
        ensures
            r == KnownExtension::parse(string@),
    {
        if lowercase_equals(string, KnownExtension::Png.to_str()) {
            Some(KnownExtension::Png)
        } else {
            None
        }
    }

    /// Creates a KnownExtension from a given path.
    /// Returns None when we don't know how to deal with a given type of file.
    pub fn from_path(path: &str) -> (r: Option<KnownExtension>)
        ensures
            r == KnownExtension::of_path(path@),
    {
        match path_extension(path) {
            Some(e) => KnownExtension::from_str(e),
            None => None,
        }
    }

    pub fn to_str(&self) -> (s: &'static str)
        ensures
            s@ == self.text(),
    {
        match self {
            KnownExtension::Png => {
                proof {
                    reveal_strlit("png");
                }
                assert("png"@ =~= seq!['p', 'n', 'g']);
                "png"
            },
        }
    }
}

#[derive(Eq, PartialEq, Hash, Copy, Clone)]
pub enum SystemTag {
    /// Indicates an image that has some kind of transparency to it.
    Transparent,
}

/// The name under which a file is stored: its identifier as a decimal
/// number, a dot, and its extension.
pub open spec fn stored_name(id: FileId, extension: KnownExtension) -> Seq<char> {
    decimal(id.0 as nat) + seq!['.'] + extension.text()
}

/// What a `File` holds.
pub struct FileView {
    pub id: FileId,
    pub title: Seq<char>,
    pub extension: KnownExtension,
    pub system_tags: Set<SystemTag>,
}

pub struct File {
    id: FileId,
    title: String,
    extension: KnownExtension,
    system_tags: HashSet<SystemTag>,
}

impl View for File {
    type V = FileView;

    closed spec fn view(&self) -> FileView {
        FileView {
            id: self.id,
            title: self.title@,
            extension: self.extension,
            system_tags: self.system_tags@,
        }
    }
}

impl File {
    pub fn title(&self) -> (r: &str)
        ensures
            r@ == self@.title,
    {
        self.title.as_str()
    }

    pub fn extension(&self) -> (r: &KnownExtension)
        ensures
            *r == self@.extension,
    {
        &self.extension
    }

    /// The file name is not dependant on the file's title.
    pub fn file_name(&self) -> (r: String)
        ensures
            r@ == stored_name(self@.id, self@.extension),
    {
        let mut name = self.id.to_string();
        proof {
            reveal_strlit(".");
        }
        name.append(".");
        name.append(self.extension.to_str());
        assert(name@ =~= stored_name(self@.id, self@.extension));
        name
    }

    pub fn system_tags(&self) -> (r: &HashSet<SystemTag>)
        ensures
            r@ == self@.system_tags,
    {
        &self.system_tags
    }
}

/// The record of a new file: under `id`, with this title and extension and
/// without tags.
pub open spec fn new_file_record(id: FileId, title: Seq<char>, extension: KnownExtension) -> FileView {
    FileView { id, title, extension, system_tags: Set::empty() }
}

/// Every record of the store carries the identifier under which it is kept.
pub open spec fn ids_match(store: Ledger<FileView>) -> bool {
    forall|k: u32| #[trigger] store.records.contains_key(k) ==> store.records[k].id == FileId(k)
}

pub struct FileStore {
    files: HashMap<u32, File>,
    next_id: FileId,
}

impl View for FileStore {
    type V = Ledger<FileView>;

    closed spec fn view(&self) -> Ledger<FileView> {
        Ledger { records: self.files@.map_values(|f: File| f@), next: self.next_id.0 as nat }
    }
}

impl FileStore {
    pub fn new() -> (s: FileStore)
        ensures
            s@ == Ledger::<FileView>::empty(),
    {
        let s = FileStore { files: HashMap::new(), next_id: FileId(0) };
        assert(s@.records =~= Map::empty());
        s
    }

    /// Whether an identifier is left for a new file.
    pub fn has_free_id(&self) -> (b: bool)
        ensures
            b == self@.has_free_id(),
    {
        self.next_id.0 < u32::MAX
    }

    /// Creates a new reference to a file, and returns the FileId as well as the filename that
    /// the file should be saved as.
    /// The filename is not dependant on the file's title.
    pub fn new_file(&mut self, title: &str, extension: KnownExtension) -> (r: (FileId, String))
        requires
            old(self)@.has_free_id(),
        ensures
            r.0 == FileId(old(self)@.next_number()),
            r.1@ == stored_name(r.0, extension),
            final(self)@ == old(self)@.with(new_file_record(r.0, title@, extension)),
    {
        broadcast use vstd::std_specs::hash::group_hash_axioms;

        let id = self.next_id;
        let new_file = File {
            id,
            title: String::from_str(title),
            extension,
            system_tags: HashSet::new(),
        };
        let file_name = new_file.file_name();

        // Store the new file.
        self.files.insert(id.0, new_file);

        // Update where we are at with the ids.
        self.next_id = FileId(id.0 + 1);

        assert(self@.records =~= old(self)@.with(
            new_file_record(id, title@, extension),
        ).records);
        (id, file_name)
    }
}

impl IndexedStore for FileStore {
    type Id = FileId;

    type Item = File;

    open spec fn ledger(&self) -> Ledger<FileView> {
        self@
    }

    fn get(&self, id: FileId) -> (r: Option<&File>) {
        broadcast use vstd::std_specs::hash::group_hash_axioms;

        self.files.get(&id.0)
    }

    fn count(&self) -> (n: usize) {
        broadcast use vstd::std_specs::hash::group_hash_axioms;

        assert(self@.records.dom() =~= self.files@.dom());
        self.files.len()
    }

    fn remove(&mut self, id: &FileId) -> (r: Option<File>) {
        broadcast use vstd::std_specs::hash::group_hash_axioms;

        let r = self.files.remove(&id.0);
        assert(self@.records =~= old(self)@.records.remove(id.0));
        r
    }

    fn iter(&self) -> (r: Vec<(FileId, &File)>) {
        broadcast use vstd::std_specs::hash::group_hash_axioms;

        assert(self@.records.dom() =~= self.files@.dom());
        let mut pairs: Vec<(FileId, &File)> = Vec::new();
        let ghost entries = self.files.iter().remaining();
        for entry in it: self.files.iter()
            invariant
                it.seq() == entries,
                it.seq().len() == self.files@.len(),
                it.seq().no_duplicates(),
                forall|i: int|
                    0 <= i < it.seq().len() ==> self.files@.contains_key(*(#[trigger] it.seq()[i]).0)
                        && self.files@[*it.seq()[i].0] == *it.seq()[i].1,
                forall|k: u32| #[trigger]
                    self.files@.contains_key(k) ==> it.seq().contains((&k, &self.files@[k])),
                pairs.len() == it.index(),
                forall|i: int|
                    0 <= i < pairs.len() ==> (#[trigger] pairs[i]).0.0 == *it.seq()[i].0
                        && *pairs[i].1 == *it.seq()[i].1,
        {
            pairs.push((FileId(*entry.0), entry.1));
        }
        assert forall|k: u32| #[trigger] self@.records.contains_key(k) implies exists|i: int|
            0 <= i < pairs.len() && (#[trigger] pairs[i]).0.number() == k by {
            let found = (&k, &self.files@[k]);
            assert(entries.contains(found));
            let i = choose|i: int| 0 <= i < entries.len() && entries[i] == found;
            assert(pairs[i].0.number() == k);
        }
        pairs
    }
}

/// A new file is found again under the identifier that it got, with the
/// title and the extension that it was made with and under no other
/// identifier than its own; the records that were there stay as they were.
pub proof fn lemma_new_file_round_trip(
    store: Ledger<FileView>,
    title: Seq<char>,
    extension: KnownExtension,
)
    requires
        store.wf(),
        ids_match(store),
        store.has_free_id(),
    ensures
        ({
            let id = FileId(store.next_number());
            let after = store.with(new_file_record(id, title, extension));
            &&& after.wf()
            &&& ids_match(after)
            &&& !store.records.contains_key(id.0)
            &&& after.records.contains_key(id.0)
            &&& after.records[id.0].id == id
            &&& after.records[id.0].title == title
            &&& after.records[id.0].extension == extension
            &&& after.records.len() == store.records.len() + 1
            &&& forall|k: u32| #[trigger]
                store.records.contains_key(k) ==> after.records.contains_key(k)
                    && after.records[k] == store.records[k]
        }),
{
    let id = FileId(store.next_number());
    lemma_with(store, new_file_record(id, title, extension));
}

/// Once a file is removed nothing is found under its identifier, and the
/// store holds one record less; the other records stay as they were. Where
/// no file was kept under the identifier, the store is unchanged.
pub proof fn lemma_file_removed(store: Ledger<FileView>, id: FileId)
    requires
        store.wf(),
        ids_match(store),
    ensures
        ({
            let after = store.without(id.0);
            &&& after.wf()
            &&& ids_match(after)
            &&& !after.records.contains_key(id.0)
            &&& store.records.contains_key(id.0) ==> after.records.len() == store.records.len()
                - 1
            &&& !store.records.contains_key(id.0) ==> after == store
            &&& forall|k: u32| #[trigger]
                store.records.contains_key(k) && k != id.0 ==> after.records.contains_key(k)
                    && after.records[k] == store.records[k]
        }),
{
    lemma_without(store, id.0);
}

/// Two texts that differ only in the case of their ASCII letters name the
/// same extension, or both name none.
pub proof fn lemma_parse_ignores_case(a: Seq<char>, b: Seq<char>)
    requires
        lowercase(a) == lowercase(b),
    ensures
        KnownExtension::parse(a) == KnownExtension::parse(b),
{
}

/// A known extension is recognised from its own text, and a text is
/// recognised only as the extension whose text it is once lowered.
pub proof fn lemma_parse_text(extension: KnownExtension, s: Seq<char>)
    ensures
        KnownExtension::parse(extension.text()) == Some(extension),
        KnownExtension::parse(s) == Some(extension) <==> lowercase(s) == extension.text(),
{
    assert(lowercase(extension.text()) =~= extension.text());
}

/// Two files with different identifiers are stored under different names,
/// whatever their titles are.
pub proof fn lemma_stored_names_distinct(a: FileId, b: FileId, extension: KnownExtension)
    requires
        a != b,
    ensures
        stored_name(a, extension) != stored_name(b, extension),
{
    let da = decimal(a.0 as nat);
    let db = decimal(b.0 as nat);
    if stored_name(a, extension) == stored_name(b, extension) {
        assert(da.len() == db.len()) by {
            assert(stored_name(a, extension).len() == da.len() + 1 + extension.text().len());
            assert(stored_name(b, extension).len() == db.len() + 1 + extension.text().len());
        }
        assert(da =~= stored_name(a, extension).subrange(0, da.len() as int));
        assert(db =~= stored_name(b, extension).subrange(0, db.len() as int));
        lemma_decimal_injective(a.0 as nat, b.0 as nat);
    }
}

/// The name under which a file is stored ends in the file's extension: read
/// as a path, it is recognised as a file of that kind.
pub proof fn lemma_stored_name_extension(id: FileId, extension: KnownExtension)
    ensures
        extension_of(stored_name(id, extension)) == Some(extension.text()),
        KnownExtension::of_path(stored_name(id, extension)) == Some(extension),
{
    let stem = decimal(id.0 as nat);
    let name = stored_name(id, extension);
    lemma_decimal_digits(id.0 as nat);
    assert forall|i: int| 0 <= i < name.len() implies name[i] != '/' by {
        if i < stem.len() {
            assert(is_digit(stem[i]));
        }
    }
    lemma_last_index_of_unique(name, '/', -1);
    assert(file_name_of(name) =~= name);
    assert forall|i: int| stem.len() < i < name.len() implies name[i] != '.' by {}
    lemma_last_index_of_unique(name, '.', stem.len() as int);
    assert(name.skip(stem.len() as int + 1) =~= extension.text());
    assert(lowercase(extension.text()) =~= extension.text());
}

} // verus!
