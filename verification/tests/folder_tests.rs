use raf::error::RedactError;
use raf::files::get_files_dirs_from_folder;
use raf::files::get_output_file_path;
use raf::files::output_folder_for_dir;
use raf::files::DirEntry;
use raf::folder::count_failures;
use raf::folder::FolderScheduler;

#[test]
fn scheduler_does_not_descend_into_redacted() {
    let mut sched = FolderScheduler::new("root".to_string(), true);
    let first = sched.next_dir().unwrap();
    assert_eq!(first.path, "root");

    // a directory with two text files, a pre-existing output directory and
    // one real subdirectory
    let listing: Vec<Result<DirEntry, String>> = vec![
        Ok(DirEntry { path: "root/one.txt".to_string(), is_file: true }),
        Ok(DirEntry { path: "root/redacted".to_string(), is_file: false }),
        Ok(DirEntry { path: "root/sub".to_string(), is_file: false }),
        Ok(DirEntry { path: "root/two.txt".to_string(), is_file: true }),
    ];
    let (files, dirs, errors) = get_files_dirs_from_folder(listing);
    assert!(errors.is_empty());
    assert_eq!(files, vec!["root/one.txt".to_string(), "root/two.txt".to_string()]);

    // one output directory for this visited directory
    assert_eq!(output_folder_for_dir(&first.path), "root/redacted");

    // two redacted files and two manifests would be produced
    assert_eq!(get_output_file_path(&files[0]).unwrap(), "one-unredact.json");
    assert_eq!(get_output_file_path(&files[1]).unwrap(), "two-unredact.json");

    sched.enqueue_subdirs(&dirs);
    let next = sched.next_dir().unwrap();
    assert_eq!(next.path, "root/sub");
    assert!(sched.next_dir().is_none());
}

#[test]
fn scheduler_without_recursion_queues_nothing() {
    let mut sched = FolderScheduler::new("top".to_string(), false);
    let first = sched.next_dir().unwrap();
    assert_eq!(first.path, "top");
    let dirs = vec!["top/sub_one".to_string(), "top/sub_two".to_string()];
    sched.enqueue_subdirs(&dirs);
    assert!(sched.next_dir().is_none());
}

#[test]
fn scheduler_visits_in_fifo_order() {
    let mut sched = FolderScheduler::new("a".to_string(), true);
    let a = sched.next_dir().unwrap();
    assert_eq!(a.path, "a");
    sched.enqueue_subdirs(&vec!["a/x".to_string(), "a/y".to_string()]);
    let x = sched.next_dir().unwrap();
    assert_eq!(x.path, "a/x");
    sched.enqueue_subdirs(&vec!["a/x/deep".to_string()]);
    assert_eq!(sched.next_dir().unwrap().path, "a/y");
    assert_eq!(sched.next_dir().unwrap().path, "a/x/deep");
    assert!(sched.next_dir().is_none());
}

#[test]
fn failures_are_aggregated_not_fatal() {
    let results: Vec<Result<(), RedactError>> = vec![
        Ok(()),
        Err(RedactError::UnsupportedFormat),
        Ok(()),
        Err(RedactError::DocumentPageError),
    ];
    assert_eq!(count_failures(&results), 2);
    assert_eq!(count_failures(&Vec::new()), 0);
}
