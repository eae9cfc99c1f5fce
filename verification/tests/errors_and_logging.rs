use grimoire_lsp::errors;
use grimoire_lsp::errors::GrimoireError;
use grimoire_lsp::file::File;
use grimoire_lsp::logger::{log_level, LogLevel};
use grimoire_lsp::project_root::{CurrentDirectoryArgs, ProjectRoot};

fn mock_error() -> GrimoireError {
    GrimoireError::Store { message: String::from("A test error") }
}

fn mock_file() -> File {
    File::parse_from_content("test.md", "# I am a title\n\n[[Test Reference]]").unwrap()
}

#[test]
fn test_project_uninitialized() {
    assert_eq!(
        errors::project_uninitialized().message(),
        "A Grimoire project hasn't been initialized yet."
    );
}

#[test]
fn test_project_already_initialized() {
    assert_eq!(
        errors::project_already_initialized().message(),
        "A Grimoire project has already been initialized."
    );
}

#[test]
fn test_markdown_header_not_found_during_parsing() {
    assert_eq!(
        errors::markdown_header_not_found_during_parsing("~/foo.md").message(),
        "A header for file \"~/foo.md\" could not be found."
    );
}

#[test]
fn test_path_cannot_convert_to_string() {
    assert_eq!(
        errors::path_cannot_convert_to_string("~").message(),
        "The following path \"~\" could not represented as a string."
    );
}

#[test]
fn test_file_with_duplicate_header_created() {
    let old_file = mock_file();
    let new_file = mock_file();
    assert_eq!(
        errors::file_with_duplicate_header_created(&old_file, &new_file).message(),
        format!(
            "A file {:?} was attempted to be saved with header {:?}, but another file with the same header already existed at {:?}",
            new_file.serializable_path().unwrap(),
            new_file.header(),
            old_file.serializable_path().unwrap()
        )
    );
}

#[test]
fn test_invalid_path_from_url() {
    let url = "file:/testing";
    assert_eq!(
        errors::invalid_path_from_url(url).message(),
        format!("Invalid path extracted from url {:?}", url)
    );
}

#[test]
fn test_invalid_overlapping_references_in_file() {
    let file = mock_file();
    assert_eq!(
        errors::invalid_overlapping_references_in_file(file.path()).message(),
        format!("Invalid overlapping references in file: {:?}", file.path())
    );
}

#[test]
fn test_log_level_default() {
    assert_eq!(LogLevel::Warn, log_level(Err(mock_error())));
}

#[test]
fn test_log_level_unrecognized() {
    assert_eq!(LogLevel::Warn, log_level(Ok("foo".into())));
}

#[test]
fn test_log_level_off() {
    assert_eq!(LogLevel::Off, log_level(Ok("off".into())));
}

#[test]
fn test_log_level_error() {
    assert_eq!(LogLevel::Error, log_level(Ok("error".into())));
}

#[test]
fn test_log_level_warn() {
    assert_eq!(LogLevel::Warn, log_level(Ok("warn".into())));
}

#[test]
fn test_log_level_info() {
    assert_eq!(LogLevel::Info, log_level(Ok("info".into())));
}

#[test]
fn test_log_level_debug() {
    assert_eq!(LogLevel::Debug, log_level(Ok("debug".into())));
}

#[test]
fn test_log_level_trace() {
    assert_eq!(LogLevel::Trace, log_level(Ok("trace".into())));
}

#[test]
fn logger_test_log_level_default() {
    assert_eq!(LogLevel::Warn, log_level(Err(mock_error())));
}

#[test]
fn logger_test_log_level_unrecognized() {
    assert_eq!(LogLevel::Warn, log_level(Ok("foo".into())));
}

#[test]
fn logger_test_log_level_off() {
    assert_eq!(LogLevel::Off, log_level(Ok("off".into())));
}

#[test]
fn logger_test_log_level_error() {
    assert_eq!(LogLevel::Error, log_level(Ok("error".into())));
}

#[test]
fn logger_test_log_level_warn() {
    assert_eq!(LogLevel::Warn, log_level(Ok("warn".into())));
}

#[test]
fn logger_test_log_level_info() {
    assert_eq!(LogLevel::Info, log_level(Ok("info".into())));
}

#[test]
fn logger_test_log_level_debug() {
    assert_eq!(LogLevel::Debug, log_level(Ok("debug".into())));
}

#[test]
fn logger_test_log_level_trace() {
    assert_eq!(LogLevel::Trace, log_level(Ok("trace".into())));
}

fn root_of(path: &str) -> ProjectRoot {
    ProjectRoot::new(CurrentDirectoryArgs::from_path(path.to_string())).unwrap()
}

#[test]
fn test_current_directory_args_from_path_buf() {
    let args = CurrentDirectoryArgs::from_path("~".to_string());
    assert_eq!(args.current_dir, Some("~".to_string()));
}

#[test]
fn project_root_test_current_directory_args_from_path_buf() {
    let args = CurrentDirectoryArgs::from_path("~".to_string());
    assert_eq!(args.current_dir, Some("~".to_string()));
}

#[test]
fn test_project_root_new_path_buf() {
    assert!(ProjectRoot::new(CurrentDirectoryArgs::from_path("~".to_string())).is_ok());
}

#[test]
fn project_root_test_project_root_new_path_buf() {
    assert!(ProjectRoot::new(CurrentDirectoryArgs::from_path("~".to_string())).is_ok());
}

#[test]
fn project_root_new_without_directory_fails() {
    assert!(ProjectRoot::new(CurrentDirectoryArgs { current_dir: None }).is_err());
}

#[test]
fn test_project_root_file_path() {
    assert_eq!(root_of("~").file_path(), "~".to_string());
}

#[test]
fn test_project_root_config_file_directory() {
    assert_eq!(root_of("~").config_file_directory(), "~/.grimoire".to_string());
}

#[test]
fn test_project_root_config_file_path() {
    assert_eq!(root_of("~").config_file_path(), "~/.grimoire/config.toml".to_string());
}

#[test]
fn project_root_test_project_root_config_file_path() {
    assert_eq!(root_of("~").config_file_path(), "~/.grimoire/config.toml".to_string());
}

#[test]
fn test_project_root_log_file_directory() {
    assert_eq!(root_of("~").log_file_directory(), "~/.grimoire/logs".to_string());
}

#[test]
fn project_root_test_project_root_log_file_directory() {
    assert_eq!(root_of("~").log_file_directory(), "~/.grimoire/logs".to_string());
}

#[test]
fn test_project_root_log_file_path() {
    assert_eq!(root_of("~").log_file_path(), "~/.grimoire/logs/log.txt".to_string());
}

#[test]
fn project_root_test_project_root_log_file_path() {
    assert_eq!(root_of("~").log_file_path(), "~/.grimoire/logs/log.txt".to_string());
}

#[test]
fn test_project_root_db_file_path() {
    assert_eq!(root_of("~").db_file_path(), "~/.grimoire/grimoire.db".to_string());
}
