use asset_keeper::data::{Data, ImportError};
use asset_keeper::stores::asset_store::AssetId;
use asset_keeper::stores::file_store::{FileId, KnownExtension};

#[test]
fn adding_a_file_records_it_under_its_title() {
    let mut data = Data::new("asset_keeper", "asset_keeper/files");
    let title = "Testing title";

    let pending = data.begin_import(title, "tests/files/swords/tall.png").unwrap();
    assert_eq!(pending.file_id(), FileId(0));
    assert_eq!(pending.title(), title);
    assert_eq!(pending.destination(), "asset_keeper/files/0.png");

    let id = data.finish_import(pending, Ok(())).unwrap();

    // Check if it has been created properly.
    assert_eq!(id, FileId(0));
    assert_eq!(data.file_count(), 1);
    let file = data.get_file_info(id).unwrap();
    assert_eq!(file.title(), title);
    assert_eq!(*file.extension(), KnownExtension::Png);
    assert_eq!(file.file_name(), "0.png");
    assert_eq!(data.asset_count(), 0);
}

#[test]
fn a_failed_copy_takes_the_file_record_back() {
    let mut data = Data::new("save", "save/files");
    let before = data.file_count();

    let pending = data.begin_import("My Title", "missing.png").unwrap();
    assert_eq!(data.file_count(), before + 1);
    let id = pending.file_id();
    let result = data.finish_import(pending, Err("No such file or directory".to_string()));

    assert_eq!(
        result,
        Err(ImportError::CopyFailed {
            cause: "No such file or directory".to_string()
        })
    );
    assert_eq!(data.file_count(), before);
    assert!(data.get_file_info(id).is_none());
    assert_eq!(data.asset_count(), 0);
}

#[test]
fn a_failed_copy_leaves_a_hole_in_the_identifiers() {
    let mut data = Data::new("save", "files");

    let failed = data.begin_import("a", "a.png").unwrap();
    assert!(data.finish_import(failed, Err("disk full".to_string())).is_err());
    let next = data.begin_import("b", "b.png").unwrap();

    assert_eq!(next.file_id(), FileId(1));
    assert_eq!(next.destination(), "files/1.png");
    assert_eq!(data.finish_import(next, Ok(())), Ok(FileId(1)));
    assert_eq!(data.file_count(), 1);
}

#[test]
fn an_unknown_extension_changes_nothing() {
    let mut data = Data::new("save", "files");

    let png = data.begin_import("picture", "picture.png").unwrap();
    assert_eq!(data.finish_import(png, Ok(())), Ok(FileId(0)));
    assert_eq!(data.file_count(), 1);

    let pdf = data.begin_import("paper", "paper.pdf");
    assert_eq!(pdf.unwrap_err(), ImportError::UnsupportedExtension);
    assert_eq!(data.file_count(), 1);
    assert_eq!(data.asset_count(), 0);

    // No identifier was used up.
    let again = data.begin_import("other", "other.PNG").unwrap();
    assert_eq!(again.file_id(), FileId(1));
}

#[test]
fn a_path_without_extension_is_refused() {
    let mut data = Data::new("save", "files");

    assert_eq!(
        data.begin_import("t", "no_extension").unwrap_err(),
        ImportError::UnsupportedExtension
    );
    assert_eq!(
        data.begin_import("t", "").unwrap_err(),
        ImportError::UnsupportedExtension
    );
    assert_eq!(data.file_count(), 0);
}

#[test]
fn adding_an_asset_records_file_and_asset() {
    let mut data = Data::new("save", "files/");

    let pending = data.begin_import("My Title", "source.png").unwrap();
    assert_eq!(pending.destination(), "files/0.png");
    let asset_id = data.finish_asset_import(pending, Ok(())).unwrap();

    assert_eq!(asset_id, AssetId(0));
    assert_eq!(data.asset_count(), 1);
    assert_eq!(data.file_count(), 1);
    let asset = data.get_asset_info(asset_id).unwrap();
    assert_eq!(asset.title(), "My Title");
    assert_eq!(asset.file(), &FileId(0));
    assert_eq!(data.get_file_info(*asset.file()).unwrap().title(), "My Title");
    assert!(data.get_asset_info(AssetId(1)).is_none());
}

#[test]
fn a_failed_copy_makes_no_asset() {
    let mut data = Data::new("save", "files");

    let pending = data.begin_import("My Title", "gone.png").unwrap();
    let result = data.finish_asset_import(pending, Err("permission denied".to_string()));

    assert_eq!(
        result,
        Err(ImportError::CopyFailed {
            cause: "permission denied".to_string()
        })
    );
    assert_eq!(data.file_count(), 0);
    assert_eq!(data.asset_count(), 0);
    assert!(data.get_file_info(FileId(0)).is_none());
}

#[test]
fn file_iteration_of_the_catalogue_yields_every_file() {
    let mut data = Data::new("save", "files");
    assert!(data.file_iter().is_empty());
    for name in ["a.png", "b.png", "c.png"] {
        let pending = data.begin_import(name, name).unwrap();
        data.finish_import(pending, Ok(())).unwrap();
    }

    let mut seen: Vec<(u32, String)> = data
        .file_iter()
        .into_iter()
        .map(|(id, file)| (id.0, file.title().to_string()))
        .collect();
    seen.sort();

    assert_eq!(
        seen,
        vec![
            (0, "a.png".to_string()),
            (1, "b.png".to_string()),
            (2, "c.png".to_string())
        ]
    );
}

#[test]
fn a_new_catalogue_is_empty_and_has_room() {
    let data = Data::new("save", "files");

    assert_eq!(data.file_count(), 0);
    assert_eq!(data.asset_count(), 0);
    assert!(data.has_free_file_id());
    assert!(data.has_free_asset_id());
    assert!(data.get_file_info(FileId(0)).is_none());
}

#[test]
fn the_destination_lies_in_the_files_directory() {
    let mut bare = Data::new("save", "");
    let mut nested = Data::new("save", "/var/lib/keeper/files");

    assert_eq!(bare.begin_import("t", "x.png").unwrap().destination(), "0.png");
    assert_eq!(
        nested.begin_import("t", "x.png").unwrap().destination(),
        "/var/lib/keeper/files/0.png"
    );
}
