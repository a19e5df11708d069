use raf::error::RedactError;
use raf::files::get_files_dirs_from_folder;
use raf::files::get_output_file_path;
use raf::files::default_output_folder;
use raf::files::detect_format;
use raf::files::extension_of;
use raf::files::file_name_of;
use raf::files::join_path;
use raf::files::output_folder_for_dir;
use raf::files::DirEntry;
use raf::files::FileFormat;

#[test]
fn test_get_files_from_folder() {
    let folder = "./tests/test_files";
    let entries: Vec<Result<DirEntry, String>> = vec![
        Ok(DirEntry { path: format!("{}/file1.txt", folder), is_file: true }),
        Ok(DirEntry { path: format!("{}/file2.txt", folder), is_file: true }),
    ];
    let expected_entries = vec![
        String::from("./tests/test_files/file1.txt"),
        String::from("./tests/test_files/file2.txt"),
    ];
    let expected_errors: Vec<String> = vec![];
    let (actual_entries, dirs, actual_errors) = get_files_dirs_from_folder(entries);
    assert_eq!(expected_entries, actual_entries);
    assert_eq!(expected_errors, actual_errors);
    assert!(dirs.is_empty());
}

#[test]
fn test_get_output_file_path() {
    let file_path = String::from("path/to/file.txt");
    let expected_output_path = String::from("file-unredact.json");
    let actual_output_path = get_output_file_path(&file_path).unwrap();
    assert_eq!(expected_output_path, actual_output_path);
}

#[test]
fn manifest_name_uses_the_stem() {
    assert_eq!(get_output_file_path(&"a/archive.tar.gz".to_string()).unwrap(), "archive.tar-unredact.json");
    assert_eq!(get_output_file_path(&"a/.hidden".to_string()).unwrap(), ".hidden-unredact.json");
    assert_eq!(get_output_file_path(&"noext".to_string()).unwrap(), "noext-unredact.json");
}

#[test]
fn listing_partition_keeps_order_and_errors() {
    let entries: Vec<Result<DirEntry, String>> = vec![
        Ok(DirEntry { path: "d/sub".to_string(), is_file: false }),
        Err("locked entry".to_string()),
        Ok(DirEntry { path: "d/a.txt".to_string(), is_file: true }),
        Ok(DirEntry { path: "d/nested".to_string(), is_file: false }),
        Ok(DirEntry { path: "d/b.pdf".to_string(), is_file: true }),
    ];
    let (files, dirs, errors) = get_files_dirs_from_folder(entries);
    assert_eq!(files, vec!["d/a.txt".to_string(), "d/b.pdf".to_string()]);
    assert_eq!(dirs, vec!["d/sub".to_string(), "d/nested".to_string()]);
    assert_eq!(errors, vec!["locked entry".to_string()]);
}

#[test]
fn format_detection_by_extension() {
    assert_eq!(detect_format(&"notes.txt".to_string()).unwrap(), FileFormat::Txt);
    assert_eq!(detect_format(&"a/b/report.pdf".to_string()).unwrap(), FileFormat::Pdf);
    assert_eq!(detect_format(&"x/letter.docx".to_string()).unwrap(), FileFormat::Docx);
}

#[test]
fn unsupported_format_is_rejected() {
    assert_eq!(
        detect_format(&"table.csv".to_string()).unwrap_err(),
        RedactError::UnsupportedFormat
    );
    assert_eq!(
        detect_format(&"no_extension".to_string()).unwrap_err(),
        RedactError::UnsupportedFormat
    );
    assert_eq!(detect_format(&".txt".to_string()).unwrap_err(), RedactError::UnsupportedFormat);
}

#[test]
fn file_name_and_extension_edges() {
    assert_eq!(file_name_of(&"a/b/c.txt".to_string()), "c.txt");
    assert_eq!(file_name_of(&"plain".to_string()), "plain");
    assert_eq!(file_name_of(&"dir/".to_string()), "");
    assert_eq!(extension_of(&"a/b.tar.gz".to_string()).unwrap(), "gz");
    assert!(extension_of(&"a/b/noext".to_string()).is_none());
    assert!(extension_of(&"a/.hidden".to_string()).is_none());
    assert_eq!(extension_of(&"a/trailing.".to_string()).unwrap(), "");
}

#[test]
fn output_paths_are_built_beside_the_input() {
    assert_eq!(default_output_folder(&"a/b.txt".to_string()), "a/redacted");
    assert_eq!(default_output_folder(&"b.txt".to_string()), "redacted");
    assert_eq!(output_folder_for_dir(&"some/dir".to_string()), "some/dir/redacted");
    assert_eq!(
        join_path(&"some/dir/redacted".to_string(), &"b.txt".to_string()),
        "some/dir/redacted/b.txt"
    );
}

#[test]
fn manifest_name_requires_a_file_name() {
    assert_eq!(
        get_output_file_path(&"dir/".to_string()).unwrap_err(),
        RedactError::DocumentWriteError
    );
}
