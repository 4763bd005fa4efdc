use asset_keeper::stores::file_store::{FileId, FileStore, KnownExtension};
use asset_keeper::stores::traits::IndexedStore;
use naughty_strings::BLNS;
use std::path::Path;

/// When inserting new files, the generated ids must be different.
#[test]
fn new_files_should_have_different_ids_and_paths() {
    let mut store = FileStore::new();

    let (id_1, path_1) = store.new_file("test file", KnownExtension::Png);
    let (id_2, path_2) = store.new_file("SDKDKK@K@@", KnownExtension::Png);
    let (id_3, path_3) = store.new_file("test {}", KnownExtension::Png);

    assert_ne!(id_1, id_2, "Assigned ids must be unique.");
    assert_ne!(id_2, id_3, "Assigned ids must be unique.");
    assert_ne!(id_3, id_1, "Assigned ids must be unique.");

    assert_ne!(path_1, path_2, "Assigned paths must be unique.");
    assert_ne!(path_2, path_3, "Assigned paths must be unique.");
    assert_ne!(path_3, path_1, "Assigned paths must be unique.");
}

/// When adding files, the file count should go up.
#[test]
fn adding_files_increases_count() {
    let mut store = FileStore::new();

    store.new_file("!!!", KnownExtension::Png);
    assert_eq!(store.count(), 1);
    store.new_file("BLAA!", KnownExtension::Png);
    assert_eq!(store.count(), 2);
    store.new_file("meep!", KnownExtension::Png);
    assert_eq!(store.count(), 3);
}

#[test]
fn getting_files_returns_correct_values() {
    let mut store = FileStore::new();

    let (new_id, new_name) = store.new_file("!@@#$@#@", KnownExtension::Png);
    let file = store.get(new_id).unwrap();

    // Retrieved file name must be the same as the one returned on creation.
    assert_eq!(file.file_name(), new_name);
    // The extension should match with what the KnownExtension returns as string.
    assert_eq!(
        Path::new(&file.file_name()).extension().unwrap(),
        KnownExtension::Png.to_str()
    );

    assert_eq!(*file.extension(), KnownExtension::Png);

    // Getting a non-existing file must return None.
    assert!(store.get(FileId(10)).is_none());
}

#[test]
fn unknown_file_extensions_should_return_none() {
    assert!(KnownExtension::from_str("pdf").is_none());
    assert!(KnownExtension::from_str("xcf").is_none());
    assert!(KnownExtension::from_str("jpg").is_none());
}

#[test]
fn file_extensions_should_work_when_capitalized() {
    assert_eq!(
        KnownExtension::from_str("PNG").unwrap(),
        KnownExtension::Png
    );
    assert_eq!(
        KnownExtension::from_str("pnG").unwrap(),
        KnownExtension::Png
    );
    assert_eq!(
        KnownExtension::from_str("PnG").unwrap(),
        KnownExtension::Png
    );
}

#[test]
fn use_naughty_strings_as_extensions() {
    for string in BLNS {
        assert!(
            KnownExtension::from_str(string).is_none(),
            "This string managed to pose as a known file extension: {}",
            string
        );
    }
}

#[test]
fn first_file_names_count_up_from_zero() {
    let mut store = FileStore::new();

    let (id_0, name_0) = store.new_file("first", KnownExtension::Png);
    let (id_1, name_1) = store.new_file("second", KnownExtension::Png);

    assert_eq!(id_0, FileId(0));
    assert_eq!(id_1, FileId(1));
    assert_eq!(name_0, "0.png");
    assert_eq!(name_1, "1.png");
}

#[test]
fn file_name_does_not_depend_on_title() {
    let mut plain = FileStore::new();
    let mut odd = FileStore::new();

    let (_, plain_name) = plain.new_file("title", KnownExtension::Png);
    let (_, odd_name) = odd.new_file("../../etc/passwd\0<>|", KnownExtension::Png);

    assert_eq!(plain_name, odd_name);
}

#[test]
fn file_id_is_written_in_decimal() {
    assert_eq!(FileId(0).to_string(), "0");
    assert_eq!(FileId(42).to_string(), "42");
    assert_eq!(FileId(1000).to_string(), "1000");
    assert_eq!(FileId(u32::MAX).to_string(), "4294967295");
}

#[test]
fn new_file_is_found_with_its_title_and_extension() {
    let mut store = FileStore::new();

    let (id, _) = store.new_file("Round trip", KnownExtension::Png);
    let file = store.get(id).unwrap();

    assert_eq!(file.title(), "Round trip");
    assert_eq!(*file.extension(), KnownExtension::Png);
    assert!(file.system_tags().is_empty());
}

#[test]
fn removing_a_file_lowers_the_count_by_one() {
    let mut store = FileStore::new();
    let (id_0, _) = store.new_file("a", KnownExtension::Png);
    let (id_1, _) = store.new_file("b", KnownExtension::Png);
    assert_eq!(store.count(), 2);

    let removed = store.remove(&id_0).unwrap();
    assert_eq!(removed.title(), "a");
    assert_eq!(store.count(), 1);
    assert!(store.get(id_0).is_none());
    assert_eq!(store.get(id_1).unwrap().title(), "b");

    // Removing it once more changes nothing.
    assert!(store.remove(&id_0).is_none());
    assert_eq!(store.count(), 1);
}

#[test]
fn removed_file_ids_are_not_handed_out_again() {
    let mut store = FileStore::new();
    let (id_0, _) = store.new_file("a", KnownExtension::Png);
    store.remove(&id_0);

    let (id_1, name_1) = store.new_file("b", KnownExtension::Png);

    assert_eq!(id_1, FileId(1));
    assert_eq!(name_1, "1.png");
    assert_eq!(store.count(), 1);
}

#[test]
fn file_iteration_yields_every_record_once() {
    let mut store = FileStore::new();
    assert!(store.iter().is_empty());

    store.new_file("a", KnownExtension::Png);
    store.new_file("b", KnownExtension::Png);
    let (id_2, _) = store.new_file("c", KnownExtension::Png);
    store.remove(&FileId(1));

    let mut seen: Vec<(u32, String)> = store
        .iter()
        .into_iter()
        .map(|(id, file)| (id.0, file.title().to_string()))
        .collect();
    seen.sort();

    assert_eq!(id_2, FileId(2));
    assert_eq!(seen, vec![(0, "a".to_string()), (2, "c".to_string())]);
}

#[test]
fn a_new_store_has_room() {
    let store = FileStore::new();
    assert!(store.has_free_id());
    assert_eq!(store.count(), 0);
}

#[test]
fn known_extension_text_is_lower_case() {
    assert_eq!(KnownExtension::Png.to_str(), "png");
}

#[test]
fn extension_of_a_path_is_classified() {
    assert_eq!(KnownExtension::from_path("a.PNG"), Some(KnownExtension::Png));
    assert_eq!(KnownExtension::from_path("a.png"), Some(KnownExtension::Png));
    assert_eq!(KnownExtension::from_path("dir/sub/a.b.pNg"), Some(KnownExtension::Png));
    assert_eq!(KnownExtension::from_path("a"), None);
    assert_eq!(KnownExtension::from_path("a.pdf"), None);
    assert_eq!(KnownExtension::from_path(""), None);
    assert_eq!(KnownExtension::from_path("a."), None);
    assert_eq!(KnownExtension::from_path("a.png.bak"), None);
    assert_eq!(KnownExtension::from_path("dir.png/a"), None);
    assert_eq!(KnownExtension::from_path("png"), None);
    assert_eq!(KnownExtension::from_path("a.pngx"), None);
    assert_eq!(KnownExtension::from_path("a.pn"), None);
}

#[test]
fn odd_extensions_are_not_known() {
    assert_eq!(KnownExtension::from_str(""), None);
    assert_eq!(KnownExtension::from_str(" png"), None);
    assert_eq!(KnownExtension::from_str(".png"), None);
    assert_eq!(KnownExtension::from_str("p\u{0}ng"), None);
    assert_eq!(KnownExtension::from_str("ｐｎｇ"), None);
    assert_eq!(KnownExtension::from_str("\u{202e}gnp"), None);
    assert_eq!(KnownExtension::from_str("!@#$%^&*()"), None);
}

#[test]
fn stored_name_is_read_back_as_its_extension() {
    let mut store = FileStore::new();
    let (_, name) = store.new_file("t", KnownExtension::Png);
    assert_eq!(KnownExtension::from_path(&name), Some(KnownExtension::Png));
}
