use grimoire_lsp::errors::GrimoireError;
use grimoire_lsp::file::File;
use grimoire_lsp::goto::find_markdown_references;
use grimoire_lsp::location::Position;
use grimoire_lsp::reindex::reindex;
use grimoire_lsp::repository_builder::RepositoryBuilder;

const ALPHA: &str = "# Alpha\n\n[[Beta]]\n";
const BETA: &str = "# Beta\n";

fn mock_db() -> (tempfile::TempDir, sled::Db) {
    let tmp_dir = tempfile::Builder::new().prefix("grimoire").tempdir().unwrap();
    let db = sled::open(tmp_dir.path().join("sled")).unwrap();
    (tmp_dir, db)
}

fn indexed_project() -> (tempfile::TempDir, sled::Db, RepositoryBuilder) {
    let (tmp, db) = mock_db();
    let mut builder = RepositoryBuilder::new(&db).unwrap();
    let documents =
        vec![("a.md".to_string(), ALPHA.to_string()), ("b.md".to_string(), BETA.to_string())];
    reindex(&mut builder, &documents).unwrap();
    (tmp, db, builder)
}

#[test]
fn resolving_a_link_returns_target_header_location() {
    let (_tmp, _db, mut builder) = indexed_project();
    // The cursor sits on the anchor of `[[Beta]]`: line 2, column 2.
    let position = Position { line: 2, character: 2 };
    let locations =
        find_markdown_references(builder.files(), "a.md", ALPHA, &position).unwrap();
    assert_eq!(locations.len(), 1);
    assert_eq!(locations[0].path, "b.md");
    let beta = File::parse_from_content("b.md", BETA).unwrap();
    assert_eq!(locations[0].location, *beta.header_location());
}

#[test]
fn resolving_a_blank_line_lists_every_indexed_file() {
    let (_tmp, _db, mut builder) = indexed_project();
    // Line 1 of `a.md` is blank: no reference span holds the cursor.
    let position = Position { line: 1, character: 0 };
    let locations =
        find_markdown_references(builder.files(), "a.md", ALPHA, &position).unwrap();
    assert_eq!(locations.len(), 2);
    let mut paths: Vec<String> = locations.iter().map(|l| l.path.clone()).collect();
    paths.sort();
    assert_eq!(paths, vec!["a.md".to_string(), "b.md".to_string()]);
}

#[test]
fn resolving_a_dangling_link_returns_nothing() {
    let (_tmp, db) = mock_db();
    let mut builder = RepositoryBuilder::new(&db).unwrap();
    let documents = vec![("a.md".to_string(), ALPHA.to_string())];
    reindex(&mut builder, &documents).unwrap();
    let position = Position { line: 2, character: 2 };
    let locations =
        find_markdown_references(builder.files(), "a.md", ALPHA, &position).unwrap();
    assert!(locations.is_empty());
}

#[test]
fn only_the_first_header_is_indexed() {
    let file = File::parse_from_content("two.md", "# First\n# Second\n").unwrap();
    assert_eq!(file.header(), "First");
    assert_eq!(file.header_location().line_position, 0);

    let (_tmp, db) = mock_db();
    let mut builder = RepositoryBuilder::new(&db).unwrap();
    let documents = vec![("two.md".to_string(), "# First\n# Second\n".to_string())];
    reindex(&mut builder, &documents).unwrap();
    assert!(builder.files().find("First").unwrap().is_some());
    assert!(builder.files().find("Second").unwrap().is_none());
}

#[test]
fn reindex_aborts_on_missing_header() {
    let (_tmp, db) = mock_db();
    let mut builder = RepositoryBuilder::new(&db).unwrap();
    let documents = vec![
        ("a.md".to_string(), ALPHA.to_string()),
        ("broken.md".to_string(), "no title here\n".to_string()),
    ];
    let err = reindex(&mut builder, &documents).unwrap_err();
    assert!(matches!(err, GrimoireError::HeaderNotFound { .. }));
    // The record written before the failure remains: no rollback.
    assert!(builder.files().find("Alpha").unwrap().is_some());
}

#[test]
fn reindex_aborts_on_duplicate_header() {
    let (_tmp, db) = mock_db();
    let mut builder = RepositoryBuilder::new(&db).unwrap();
    let documents = vec![
        ("a.md".to_string(), "# Same\n".to_string()),
        ("b.md".to_string(), "# Same\n".to_string()),
    ];
    let err = reindex(&mut builder, &documents).unwrap_err();
    assert!(matches!(err, GrimoireError::DuplicateHeader { .. }));
    let found = builder.files().find("Same").unwrap().unwrap();
    assert_eq!(found.path(), "a.md");
}

#[test]
fn reindex_clears_previous_entries() {
    let (_tmp, db) = mock_db();
    let mut builder = RepositoryBuilder::new(&db).unwrap();
    let first = vec![("a.md".to_string(), ALPHA.to_string())];
    reindex(&mut builder, &first).unwrap();
    assert!(builder.files().find("Alpha").unwrap().is_some());
    let second = vec![("b.md".to_string(), BETA.to_string())];
    reindex(&mut builder, &second).unwrap();
    assert!(builder.files().find("Alpha").unwrap().is_none());
    assert!(builder.files().find("Beta").unwrap().is_some());
}

#[test]
fn resolving_an_unparseable_file_fails() {
    let (_tmp, _db, mut builder) = indexed_project();
    let position = Position { line: 0, character: 0 };
    let err = find_markdown_references(builder.files(), "x.md", "no title\n", &position)
        .unwrap_err();
    assert!(matches!(err, GrimoireError::HeaderNotFound { .. }));
}
