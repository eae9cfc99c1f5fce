use grimoire_lsp::codec::{decode_file, encode_file, encode_reference};
use grimoire_lsp::file::File;
use grimoire_lsp::location::Location;
use grimoire_lsp::reference::Reference;
use grimoire_lsp::reindex::{os_str_is_hidden, path_has_markdown_extension};
use grimoire_lsp::repository_builder::RepositoryBuilder;

const MOCK_DOCUMENT: &str = "# I am a title\n\n[[Test Reference]]";

fn mock_db() -> (tempfile::TempDir, sled::Db) {
    let tmp_dir = tempfile::Builder::new().prefix("grimoire").tempdir().unwrap();
    let db = sled::open(tmp_dir.path().join("sled")).unwrap();
    (tmp_dir, db)
}

fn mock_file() -> File {
    File::parse_from_content("test.md", MOCK_DOCUMENT).unwrap()
}

#[test]
fn test_files_repositority_create_file_success() {
    let (_tmp, db) = mock_db();
    let mut builder = RepositoryBuilder::new(&db).unwrap();
    let file = mock_file();
    assert!(builder.files().create_file(&file).is_ok());
}

#[test]
fn test_files_repositority_create_file_failure_duplicate_header() {
    let (_tmp, db) = mock_db();
    let mut builder = RepositoryBuilder::new(&db).unwrap();
    let file = mock_file();
    assert!(builder.files().create_file(&file).is_ok());
    assert!(builder.files().create_file(&file).is_err());
}

#[test]
fn test_files_repositority_find() {
    let (_tmp, db) = mock_db();
    let mut builder = RepositoryBuilder::new(&db).unwrap();
    let file = mock_file();
    assert!(builder.files().find(file.header().as_str()).unwrap().is_none());
    assert!(builder.files().create_file(&file).is_ok());
    assert!(builder.files().find(file.header().as_str()).unwrap().is_some());
}

#[test]
fn test_files_repositority_find_all() {
    let (_tmp, db) = mock_db();
    let mut builder = RepositoryBuilder::new(&db).unwrap();
    assert!(builder.files().find_all().unwrap().is_empty());
    let file1 = mock_file();
    assert!(builder.files().create_file(&file1).is_ok());
    assert_eq!(builder.files().find_all().unwrap().len(), 1);
}

#[test]
fn test_references_repositority_create_file_success() {
    let (_tmp, db) = mock_db();
    let mut builder = RepositoryBuilder::new(&db).unwrap();
    let mut reference =
        Reference::new("root".to_string(), "A Nice Reference".to_string(), Location::default());
    assert!(builder.references().upsert_reference(&reference).is_ok());
    assert!(builder.references().upsert_reference(&reference).is_ok());
    assert!(reference.upsert(builder.references()).is_ok());
}

#[test]
fn reference_upsert() {
    let (_tmp, db) = mock_db();
    let mut builder = RepositoryBuilder::new(&db).unwrap();
    let mut reference =
        Reference::new("root".to_string(), "A Nice Reference".to_string(), Location::default());
    assert!(!reference.persisted);
    assert!(reference.upsert(builder.references()).is_ok());
    assert!(reference.persisted);
}

#[test]
fn file_create() {
    let (_tmp, db) = mock_db();
    let mut builder = RepositoryBuilder::new(&db).unwrap();
    let mut file = mock_file();
    assert!(!file.persisted());
    file.create(builder.files()).unwrap();
    assert!(file.persisted());
}

#[test]
fn test_repository_builder_new() {
    let (_tmp, db) = mock_db();
    assert!(RepositoryBuilder::new(&db).is_ok());
}

#[test]
fn test_repository_builder_clear() {
    let (_tmp, db) = mock_db();
    let mut builder = RepositoryBuilder::new(&db).unwrap();
    assert!(builder.clear().is_ok());
}

#[test]
fn test_repository_builder_flush() {
    let (_tmp, db) = mock_db();
    let builder = RepositoryBuilder::new(&db).unwrap();
    assert!(builder.flush().is_ok());
}

#[test]
fn test_repository_builder_files() {
    let (_tmp, db) = mock_db();
    RepositoryBuilder::new(&db).unwrap().files();
}

#[test]
fn test_repository_builder_references() {
    let (_tmp, db) = mock_db();
    RepositoryBuilder::new(&db).unwrap().references();
}

#[test]
fn create_then_find_returns_equal_record() {
    let (_tmp, db) = mock_db();
    let mut builder = RepositoryBuilder::new(&db).unwrap();
    let file = mock_file();
    builder.files().create_file(&file).unwrap();
    let found = builder.files().find(file.header().as_str()).unwrap().unwrap();
    assert_eq!(found.path(), file.path());
    assert_eq!(found.header(), file.header());
    assert_eq!(found.header_location(), file.header_location());
    assert_eq!(found.references().len(), file.references().len());
}

#[test]
fn duplicate_create_keeps_first_record() {
    let (_tmp, db) = mock_db();
    let mut builder = RepositoryBuilder::new(&db).unwrap();
    let first = File::parse_from_content("a.md", "# Same Title\n").unwrap();
    let second = File::parse_from_content("b.md", "# Same Title\n").unwrap();
    builder.files().create_file(&first).unwrap();
    let err = builder.files().create_file(&second).unwrap_err();
    assert_eq!(
        err.message(),
        format!(
            "A file {:?} was attempted to be saved with header {:?}, but another file with the same header already existed at {:?}",
            "b.md", "Same Title", "a.md"
        )
    );
    let found = builder.files().find("Same Title").unwrap().unwrap();
    assert_eq!(found.path(), "a.md");
}

#[test]
fn upsert_same_link_text_keeps_latest() {
    let (_tmp, db) = mock_db();
    let mut builder = RepositoryBuilder::new(&db).unwrap();
    let mut first = Reference::new("a.md".to_string(), "Link".to_string(), Location::default());
    let mut second = Reference::new("b.md".to_string(), "Link".to_string(), Location::default());
    first.upsert(builder.references()).unwrap();
    second.upsert(builder.references()).unwrap();
    builder.flush().unwrap();
    // Read the stored entry back through the engine: it holds exactly the
    // encoding of the most recent record.
    let tree = db.open_tree(b"references").unwrap();
    let stored = tree.get("Link".as_bytes()).unwrap().unwrap();
    let latest = Reference::new("b.md".to_string(), "Link".to_string(), Location::default());
    assert_eq!(stored.to_vec(), encode_reference(&latest));
}

#[test]
fn encode_decode_round_trip() {
    let file = File::parse_from_content("r.md", "# Title\n\n[[One]] [[Two]]\n").unwrap();
    let bytes = encode_file(&file);
    let back = decode_file(&bytes).unwrap();
    assert_eq!(back.path(), file.path());
    assert_eq!(back.header(), file.header());
    assert_eq!(back.header_location(), file.header_location());
    assert_eq!(back.persisted(), file.persisted());
    assert_eq!(back.references().len(), 2);
    assert_eq!(back.references()[0].header(), "One");
    assert_eq!(back.references()[1].header(), "Two");
}

#[test]
fn decode_rejects_corrupt_record() {
    assert!(decode_file(&vec![1u8, 2, 3]).is_none());
}

#[test]
fn find_rejects_corrupt_record() {
    let (_tmp, db) = mock_db();
    let mut builder = RepositoryBuilder::new(&db).unwrap();
    let tree = db.open_tree(b"files").unwrap();
    tree.insert("Broken".as_bytes(), vec![9u8, 9, 9]).unwrap();
    assert!(builder.files().find("Broken").is_err());
}

#[test]
fn test_reindex_service_path_has_markdown_extension() {
    assert!(path_has_markdown_extension("test.md"));
}

#[test]
fn test_reindex_service_path_does_not_have_markdown_extension() {
    assert!(!path_has_markdown_extension("test.exe"));
}

#[test]
fn test_reindex_service_os_str_is_not_hidden() {
    assert!(!os_str_is_hidden("test.md"));
}

#[test]
fn test_reindex_service_os_str_is_hidden() {
    assert!(os_str_is_hidden(".test.md"));
}

#[test]
fn markdown_extension_needs_a_stem() {
    assert!(!path_has_markdown_extension(".md"));
    assert!(!path_has_markdown_extension("dir/.md"));
    assert!(path_has_markdown_extension("dir/note.md"));
    assert!(!path_has_markdown_extension("dir/note.md/"));
    assert!(!path_has_markdown_extension("md"));
}
