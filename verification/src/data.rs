use crate::stores::asset_store::{Asset, AssetId, AssetStore, AssetView};
use crate::stores::file_store::{
    ids_match, new_file_record, stored_name, File, FileId, FileStore, FileView, KnownExtension,
};
use crate::stores::ledger::{lemma_with, lemma_with_without, Ledger};
use crate::stores::traits::IndexedStore;
use crate::text::join_path;
use crate::text::joined;
use vstd::prelude::*;
use vstd::string::StringExecFns;

verus! {

/// Why a file could not be imported.
#[derive(Debug, PartialEq, Eq)]
pub enum ImportError {
    /// The source path has no extension, or one that we do not know.
    UnsupportedExtension,
    /// The file could not be copied into the files directory.
    CopyFailed { cause: String },
}

/// An import that has its file record and waits for the copy to be made.
#[derive(Debug)]
pub struct PendingImport {
    file_id: FileId,
    title: String,
    destination: String,
}

/// What a `PendingImport` holds.
pub struct PendingImportView {
    pub file_id: FileId,
    pub title: Seq<char>,
    pub destination: Seq<char>,
}

impl View for PendingImport {
    type V = PendingImportView;

    closed spec fn view(&self) -> PendingImportView {
        PendingImportView {
            file_id: self.file_id,
            title: self.title@,
            destination: self.destination@,
        }
    }
}

impl PendingImport {
    /// The identifier of the file record that was made for the import.
    pub fn file_id(&self) -> (r: FileId)
        ensures
            r == self@.file_id,
    {
        self.file_id
    }

    /// The title that the imported file will carry.
    pub fn title(&self) -> (r: &str)
        ensures
            r@ == self@.title,
    {
        self.title.as_str()
    }

    /// The path that the source file is to be copied to.
    pub fn destination(&self) -> (r: &str)
        ensures
            r@ == self@.destination,
    {
        self.destination.as_str()
    }
}

/// What a `Data` holds.
pub struct DataView {
    pub save_dir: Seq<char>,
    pub files_dir: Seq<char>,
    pub files: Ledger<FileView>,
    pub assets: Ledger<AssetView>,
}

impl DataView {
    /// Both stores are well-formed, and every file record carries the
    /// identifier under which it is kept.
    pub open spec fn wf(self) -> bool {
        &&& self.files.wf()
        &&& ids_match(self.files)
        &&& self.assets.wf()
    }

    /// The identifier that the next imported file will get.
    pub open spec fn next_file_id(self) -> FileId {
        FileId(self.files.next_number())
    }

    /// The catalogue once a file record was made for an import.
    pub open spec fn with_file(self, title: Seq<char>, extension: KnownExtension) -> DataView {
        DataView {
            files: self.files.with(new_file_record(self.next_file_id(), title, extension)),
            ..self
        }
    }

    /// The catalogue once the file record `id` was taken back.
    pub open spec fn without_file(self, id: FileId) -> DataView {
        DataView { files: self.files.without(id.0), ..self }
    }

    /// The catalogue once an asset was made that refers to the file `file`.
    pub open spec fn with_asset(self, title: Seq<char>, file: FileId) -> DataView {
        DataView { assets: self.assets.with(AssetView { title, file }), ..self }
    }

    /// The import that waits for its copy once `with_file` has made the
    /// record.
    pub open spec fn pending(self, title: Seq<char>, extension: KnownExtension) -> PendingImportView {
        PendingImportView {
            file_id: self.next_file_id(),
            title,
            destination: joined(self.files_dir, stored_name(self.next_file_id(), extension)),
        }
    }
}

pub struct Data {
    save_dir: String,
    files_dir: String,
    files: FileStore,
    assets: AssetStore,
}

impl View for Data {
    type V = DataView;

    closed spec fn view(&self) -> DataView {
        DataView {
            save_dir: self.save_dir@,
            files_dir: self.files_dir@,
            files: self.files@,
            assets: self.assets@,
        }
    }
}

impl Data {
    /// - `save_dir`: The directory to save the data files.
    /// - `files_dir`: The directory where the actual files will be stored.
    /// Both are taken to exist.
    pub fn new(save_dir: &str, files_dir: &str) -> (data: Data)
        ensures
            data@ == (DataView {
                save_dir: save_dir@,
                files_dir: files_dir@,
                files: Ledger::empty(),
                assets: Ledger::empty(),
            }),
            data@.wf(),
    {
        Data {
            save_dir: String::from_str(save_dir),
            files_dir: String::from_str(files_dir),
            files: FileStore::new(),
            assets: AssetStore::new(),
        }
    }

    /// Whether an identifier is left for one more file.
    pub fn has_free_file_id(&self) -> (b: bool)
        ensures
            b == self@.files.has_free_id(),
    {
        self.files.has_free_id()
    }

    /// Whether an identifier is left for one more asset.
    pub fn has_free_asset_id(&self) -> (b: bool)
        ensures
            b == self@.assets.has_free_id(),
    {
        self.assets.has_free_id()
    }

    /// The first step of adding a file from disk. A source path whose
    /// extension is not one we can deal with is refused, and nothing changes.
    /// Otherwise a file record is made, and the import is handed back with
    /// the path that the source file is to be copied to.
    pub fn begin_import(&mut self, title: &str, source: &str) -> (r: Result<
        PendingImport,
        ImportError,
    >)
        requires
            KnownExtension::of_path(source@) is Some ==> old(self)@.files.has_free_id(),
        ensures
            match KnownExtension::of_path(source@) {
                Some(extension) => {
                    &&& r matches Ok(pending)
                    &&& pending@ == old(self)@.pending(title@, extension)
                    &&& final(self)@ == old(self)@.with_file(title@, extension)
                },
                None => r == Err::<PendingImport, ImportError>(ImportError::UnsupportedExtension)
                    && final(self)@ == old(self)@,
            },
    {
        let extension = match KnownExtension::from_path(source) {
            Some(extension) => extension,
            None => {
                return Err(ImportError::UnsupportedExtension);
            },
        };
        let (file_id, dest) = self.files.new_file(title, extension);
        let destination = join_path(self.files_dir.as_str(), dest.as_str());
        Ok(PendingImport { file_id, title: String::from_str(title), destination })
    }

    /// The last step of adding a file from disk, once the copy was tried.
    /// After a copy that failed, the file record of the import is taken back
    /// and the cause is handed on. After one that was made, the file's
    /// identifier is returned.
    pub fn finish_import(&mut self, pending: PendingImport, copied: Result<(), String>) -> (r:
        Result<FileId, ImportError>)
        ensures
            match copied {
                Ok(_) => r == Ok::<FileId, ImportError>(pending@.file_id) && final(self)@ == old(
                    self,
                )@,
                Err(cause) => r == Err::<FileId, ImportError>(ImportError::CopyFailed { cause })
                    && final(self)@ == old(self)@.without_file(pending@.file_id),
            },
    {
        match copied {
            Ok(_) => Ok(pending.file_id),
            Err(cause) => {
                // The file is not actually in the files directory.
                // Make sure we don't leave an orphaned reference in the storage.
                self.files.remove(&pending.file_id);
                Err(ImportError::CopyFailed { cause })
            },
        }
    }

    /// The last step of adding an asset from disk, once the copy was tried.
    /// After a copy that failed, the file record of the import is taken back,
    /// no asset is made, and the cause is handed on. After one that was made,
    /// an asset with the import's title is made that refers to the file, and
    /// its identifier is returned.
    pub fn finish_asset_import(
        &mut self,
        pending: PendingImport,
        copied: Result<(), String>,
    ) -> (r: Result<AssetId, ImportError>)
        requires
            copied is Ok ==> old(self)@.assets.has_free_id(),
        ensures
            match copied {
                Ok(_) => r == Ok::<AssetId, ImportError>(AssetId(old(self)@.assets.next_number()))
                    && final(self)@ == old(self)@.with_asset(pending@.title, pending@.file_id),
                Err(cause) => r == Err::<AssetId, ImportError>(ImportError::CopyFailed { cause })
                    && final(self)@ == old(self)@.without_file(pending@.file_id),
            },
    {
        match copied {
            Ok(_) => Ok(self.assets.new_asset(pending.title.as_str(), pending.file_id)),
            Err(cause) => {
                self.files.remove(&pending.file_id);
                Err(ImportError::CopyFailed { cause })
            },
        }
    }

    pub fn file_count(&self) -> (n: usize)
        ensures
            self@.files.records.dom().finite(),
            n == self@.files.records.len(),
    {
        self.files.count()
    }

    /// Every file record with its identifier, once each, in no particular
    /// order.
    pub fn file_iter(&self) -> (r: Vec<(FileId, &File)>)
        ensures
            r.len() == self@.files.records.len(),
            forall|i: int|
                0 <= i < r.len() ==> self@.files.records.contains_key((#[trigger] r[i]).0.0)
                    && r[i].1@ == self@.files.records[r[i].0.0],
            forall|i: int, j: int|
                0 <= i < j < r.len() ==> (#[trigger] r[i]).0 != (#[trigger] r[j]).0,
            forall|k: u32| #[trigger]
                self@.files.records.contains_key(k) ==> exists|i: int|
                    0 <= i < r.len() && (#[trigger] r[i]).0 == FileId(k),
    {
        let r = self.files.iter();
        assert forall|k: u32| #[trigger] self@.files.records.contains_key(k) implies exists|i: int|
            0 <= i < r.len() && (#[trigger] r[i]).0 == FileId(k) by {
            let i = choose|i: int| 0 <= i < r.len() && (#[trigger] r[i]).0.0 == k;
            assert(r[i].0 == FileId(k));
        }
        r
    }

    pub fn get_file_info(&self, id: FileId) -> (r: Option<&File>)
        ensures
            match r {
                Some(file) => self@.files.records.contains_key(id.0) && file@
                    == self@.files.records[id.0],
                None => !self@.files.records.contains_key(id.0),
            },
    {
        self.files.get(id)
    }

    pub fn asset_count(&self) -> (n: usize)
        ensures
            self@.assets.records.dom().finite(),
            n == self@.assets.records.len(),
    {
        self.assets.count()
    }

    pub fn get_asset_info(&self, id: AssetId) -> (r: Option<&Asset>)
        ensures
            match r {
                Some(asset) => self@.assets.records.contains_key(id.0) && asset@
                    == self@.assets.records[id.0],
                None => !self@.assets.records.contains_key(id.0),
            },
    {
        self.assets.get(id)
    }
}

/// An import whose copy fails leaves the catalogue as it found it: the same
/// file records, and so the same number of them, and the same assets. Only
/// the identifier that the attempt got is used up.
pub proof fn lemma_failed_import_rolls_back(
    data: DataView,
    title: Seq<char>,
    extension: KnownExtension,
)
    requires
        data.wf(),
        data.files.has_free_id(),
    ensures
        ({
            let after = data.with_file(title, extension).without_file(data.next_file_id());
            &&& after.wf()
            &&& after.files.records == data.files.records
            &&& after.files.records.len() == data.files.records.len()
            &&& after.files.next == data.files.next + 1
            &&& after.assets == data.assets
            &&& after.save_dir == data.save_dir
            &&& after.files_dir == data.files_dir
        }),
{
    let record = new_file_record(data.next_file_id(), title, extension);
    lemma_with(data.files, record);
    lemma_with_without(data.files, record);
}

/// An import of a file whose copy is made adds exactly one file record,
/// which is found under the identifier that the import returns and carries
/// the title and the extension of the import. The assets stay as they were.
pub proof fn lemma_file_import_adds_record(
    data: DataView,
    title: Seq<char>,
    extension: KnownExtension,
)
    requires
        data.wf(),
        data.files.has_free_id(),
    ensures
        ({
            let id = data.next_file_id();
            let after = data.with_file(title, extension);
            &&& after.wf()
            &&& after.files.records.len() == data.files.records.len() + 1
            &&& !data.files.records.contains_key(id.0)
            &&& after.files.records.contains_key(id.0)
            &&& after.files.records[id.0].title == title
            &&& after.files.records[id.0].extension == extension
            &&& after.assets == data.assets
        }),
{
    lemma_with(data.files, new_file_record(data.next_file_id(), title, extension));
}

/// An import of an asset whose copy is made adds exactly one file record and
/// exactly one asset. The asset is found under the identifier that the
/// import returns, carries the title of the import, and refers to the file
/// record that the import made.
pub proof fn lemma_asset_import_adds_asset(
    data: DataView,
    title: Seq<char>,
    extension: KnownExtension,
)
    requires
        data.wf(),
        data.files.has_free_id(),
        data.assets.has_free_id(),
    ensures
        ({
            let file = data.next_file_id();
            let asset = data.assets.next_number();
            let after = data.with_file(title, extension).with_asset(title, file);
            &&& after.wf()
            &&& after.files.records.len() == data.files.records.len() + 1
            &&& after.assets.records.len() == data.assets.records.len() + 1
            &&& after.assets.records.contains_key(asset)
            &&& after.assets.records[asset].title == title
            &&& after.assets.records[asset].file == file
            &&& after.files.records.contains_key(file.0)
            &&& after.files.records[file.0].title == title
        }),
{
    lemma_with(data.files, new_file_record(data.next_file_id(), title, extension));
    lemma_with(data.assets, AssetView { title, file: data.next_file_id() });
}

} // verus!
