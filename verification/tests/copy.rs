use s3cli::commands::copy::{has_least_one_s3url, CopyOpts};
use s3cli::commands::ArgError;

#[test]
fn test_least_find_one_s3url() {
    let from = "s3://bucket/path/to/file".to_string();
    let to = "/path/to/file".to_string();
    let paths = vec![from, to];
    assert!(has_least_one_s3url(&paths));
}

#[test]
fn no_s3url_among_local_paths() {
    let paths = vec!["/a".to_string(), "b/c".to_string(), "http://x/y".to_string()];
    assert_eq!(false, has_least_one_s3url(&paths));
    assert_eq!(false, has_least_one_s3url(&Vec::new()));
    let paths = vec!["/a".to_string(), "s3://b".to_string()];
    assert!(has_least_one_s3url(&paths));
}

#[test]
fn copy_options() {
    let from = "s3://bucket/a".to_string();
    let to = "/tmp/a".to_string();
    let opts = CopyOpts::from_values(None, None, Some(true), None, &Vec::new(), Some(&from), Some(&to)).unwrap();
    assert_eq!(opts.verbose, false);
    assert_eq!(opts.show_progress, true);
    assert_eq!(opts.recursive, true);
    assert_eq!(opts.delimiter, '/');
    assert_eq!(opts.from, from);
    assert_eq!(opts.to, to);

    let r = CopyOpts::from_values(None, None, None, None, &Vec::new(), Some(&to), Some(&to));
    assert_eq!(r.err(), Some(ArgError::NoS3Url));
    let r = CopyOpts::from_values(None, None, None, None, &Vec::new(), None, Some(&to));
    assert_eq!(r.err(), Some(ArgError::MissingPath));
    let r = CopyOpts::from_values(None, None, None, None, &vec!["(".to_string()], Some(&from), Some(&to));
    assert_eq!(r.err(), Some(ArgError::InvalidExclude));
    let r = CopyOpts::from_values(None, None, None, Some(&"ab".to_string()), &Vec::new(), Some(&from), Some(&to));
    assert_eq!(r.err(), Some(ArgError::InvalidDelimiter));
}
