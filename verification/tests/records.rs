use grimoire_lsp::file::File;
use grimoire_lsp::location::{Location, Position};
use grimoire_lsp::reference::Reference;

const MOCK_DOCUMENT: &str = "# I am a title\n\n            [[Test Reference]]";

fn mock_path() -> (tempfile::TempDir, String) {
    let tmp_dir = tempfile::Builder::new().prefix("grimoire").tempdir().unwrap();
    let path = tmp_dir.path().join("test.md").to_str().unwrap().to_string();
    (tmp_dir, path)
}

#[test]
fn location_default() {
    let location = Location::default();
    assert_eq!(location.line_position, 0);
    assert_eq!(location.start_char_position, -1);
    assert_eq!(location.end_char_position, -1);
}

#[test]
fn location_next_newline() {
    let mut location = Location::default();
    location.next('\n');
    assert_eq!(location.line_position, 1);
    assert_eq!(location.start_char_position, -1);
    assert_eq!(location.end_char_position, -1);
}

#[test]
fn location_next_not_newline() {
    let mut location = Location::default();
    location.next('a');
    assert_eq!(location.line_position, 0);
    assert_eq!(location.start_char_position, 0);
    assert_eq!(location.end_char_position, 0);
}

#[test]
fn location_in_range() {
    let mut location = Location::default();
    location.next('a');
    location.next('b');
    assert_eq!(location.start_char_position, 1);
    assert_eq!(location.end_char_position, 1);

    location.in_range();
    assert_eq!(location.start_char_position, 1);
    assert_eq!(location.end_char_position, 1);

    location.next('c');
    assert_eq!(location.start_char_position, 1);
    assert_eq!(location.end_char_position, 2);

    location.next('\n');
    assert_eq!(location.start_char_position, -1);
    assert_eq!(location.end_char_position, -1);
}

#[test]
fn location_resume() {
    let mut location = Location::default();
    location.next('a');
    location.next('b');
    assert_eq!(location.start_char_position, 1);
    assert_eq!(location.end_char_position, 1);

    location.in_range();
    location.next('c');
    assert_eq!(location.start_char_position, 1);
    assert_eq!(location.end_char_position, 2);

    location.resume();
    assert_eq!(location.start_char_position, 2);
    assert_eq!(location.end_char_position, 2);

    location.next('d');
    assert_eq!(location.start_char_position, 3);
    assert_eq!(location.end_char_position, 3);
}

#[test]
fn location_contains_true() {
    let mut location = Location::default();
    location.next('a');
    location.in_range();
    location.next('b');
    location.next('c');
    assert_eq!(location.start_char_position, 0);
    assert_eq!(location.end_char_position, 2);

    let assertion1 = location.contains(&Position { line: 0, character: 1 });
    assert!(assertion1);

    let assertion2 = location.contains(&Position { line: 1, character: 1 });
    assert!(!assertion2);

    let assertion3 = location.contains(&Position { line: 0, character: 10 });
    assert!(!assertion3);
}

#[test]
fn file_parse_from_path_success() {
    let file = File::parse_from_content("test.md", MOCK_DOCUMENT);
    assert!(file.is_ok());
}

#[test]
fn file_parse_from_path_failure_header_not_found() {
    let file = File::parse_from_content("test.md", "            [[Test Reference]]");
    assert_eq!(
        file.unwrap_err().message(),
        grimoire_lsp::errors::markdown_header_not_found_during_parsing("test.md").message()
    );
}

#[test]
fn file_path() {
    let file = File::parse_from_content("test.md", MOCK_DOCUMENT).unwrap();
    assert_eq!(file.path(), "test.md");
}

#[test]
fn file_serializable_path() {
    let file = File::parse_from_content("test.md", MOCK_DOCUMENT).unwrap();
    assert_eq!(file.serializable_path().unwrap(), "test.md");
}

#[test]
fn file_persisted() {
    let file = File::parse_from_content("test.md", MOCK_DOCUMENT).unwrap();
    assert!(!file.persisted());
}

#[test]
fn file_header() {
    let file = File::parse_from_content("test.md", MOCK_DOCUMENT).unwrap();
    assert_eq!(file.header(), String::from("I am a title"));
}

#[test]
fn file_header_location() {
    let file = File::parse_from_content("test.md", "\n            # I am a title\n").unwrap();
    assert_eq!(file.header_location().line_position, 1);
    assert_eq!(file.header_location().start_char_position, 12);
    assert_eq!(file.header_location().end_char_position, 25);
}

#[test]
fn file_references() {
    let file = File::parse_from_content("test.md", "# I am a title\n\n[[Reference1]]\n").unwrap();
    assert_eq!(file.references().len(), 1);
    assert_eq!(file.references().first().unwrap().header(), "Reference1");
    assert_eq!(file.references().first().unwrap().location().line_position, 2);
    assert_eq!(file.references().first().unwrap().location().start_char_position, 2);
}

#[test]
fn file_references_mut() {
    let mut file =
        File::parse_from_content("test.md", "# I am a title\n\n[[Reference1]]\n").unwrap();
    assert_eq!(file.references_mut().len(), 1);
    assert_eq!(file.references().first().unwrap().header(), "Reference1");
}

#[test]
fn reference_new() {
    let (_tmp_dir, path) = mock_path();
    let header = String::from("A Nice Reference");
    let reference = Reference::new(path, header.clone(), Location::default());
    assert_eq!(reference.header(), header);
}

#[test]
fn reference_header() {
    let (_tmp_dir, path) = mock_path();
    let header = String::from("A Nice Reference");
    let reference = Reference::new(path, header.clone(), Location::default());
    assert_eq!(reference.header(), header);
}

#[test]
fn reference_serializable_path() {
    let (_tmp_dir, path) = mock_path();
    let header = String::from("A Nice Reference");
    let reference = Reference::new(path.clone(), header, Location::default());
    assert_eq!(reference.serializable_path().unwrap(), path);
}

#[test]
fn reference_location() {
    let (_tmp_dir, path) = mock_path();
    let reference =
        Reference::new(path, String::from("A Nice Reference"), Location::default());
    assert_eq!(reference.location().line_position, Location::default().line_position);
    assert_eq!(
        reference.location().start_char_position,
        Location::default().start_char_position
    );
    assert_eq!(reference.location().end_char_position, Location::default().end_char_position);
}

#[test]
fn parse_collapses_carriage_return_newlines() {
    let file = File::parse_from_content("test.md", "# Title\r\n\r\n[[A]]\r\n").unwrap();
    assert_eq!(file.header(), "Title");
    assert_eq!(file.references().len(), 1);
    assert_eq!(file.references()[0].location().line_position, 2);
}

#[test]
fn parse_supplies_final_newline() {
    // The last line is terminated even without a trailing newline.
    let file = File::parse_from_content("test.md", "# Title").unwrap();
    assert_eq!(file.header(), "Title");
}

#[test]
fn parse_empty_content_has_no_header() {
    assert!(File::parse_from_content("test.md", "").is_err());
}
