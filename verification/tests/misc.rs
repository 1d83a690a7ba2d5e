use s3cli::commands::du::DuOpts;
use s3cli::commands::list::ListOpts;
use s3cli::commands::{parse_delimiter, parse_exclude, parse_prefix, ArgError};
use s3cli::fs::ClarifiedFile;
use s3cli::s3::content::{S3File, Timestamp};
use s3cli::utc_datetime;

#[test]
fn instants_are_formatted() {
    assert_eq!(utc_datetime(Timestamp::new(1678997191, 341000000)), Some("2023-03-16T20:06:31Z".to_string()));
    assert_eq!(utc_datetime(Timestamp::new(0, 0)), Some("1970-01-01T00:00:00Z".to_string()));
    assert_eq!(utc_datetime(Timestamp::new(-1, 0)), Some("1969-12-31T23:59:59Z".to_string()));
    assert_eq!(utc_datetime(Timestamp::new(i64::MAX, 0)), None);
    assert_eq!(utc_datetime(Timestamp::new(0, 2_000_000_000)), None);
    let f = S3File::new("k".to_string(), 1, Timestamp::new(1431648000, 0));
    assert_eq!(f.utc_modified_at(), Some("2015-05-15T00:00:00Z".to_string()));
}

#[test]
fn files_are_digested() {
    let f = ClarifiedFile::from_bytes("notes/hello.txt", &b"hello".to_vec());
    assert_eq!(f.path(), "notes/hello.txt");
    assert_eq!(f.length(), 5);
    assert_eq!(f.sha256(), "2cf24dba5fb0a30e26e83b2ac5b9e29e1b161e5c1fa7425e73043362938b9824");
    let empty = ClarifiedFile::from_bytes("e", &Vec::new());
    assert_eq!(empty.length(), 0);
    assert_eq!(empty.sha256(), "e3b0c44298fc1c149afbf4c8996fb92427ae41e4649b934ca495991b7852b855");
}

#[test]
fn delimiters_are_single_characters() {
    assert_eq!(parse_delimiter(None), Ok('/'));
    assert_eq!(parse_delimiter(Some(&":".to_string())), Ok(':'));
    assert_eq!(parse_delimiter(Some(&"::".to_string())), Err(ArgError::InvalidDelimiter));
    assert_eq!(parse_delimiter(Some(&"".to_string())), Err(ArgError::InvalidDelimiter));
}

#[test]
fn prefixes_are_addresses() {
    assert_eq!(parse_prefix(None, true), Ok(None));
    assert_eq!(parse_prefix(None, false), Err(ArgError::MissingPrefix));
    assert_eq!(parse_prefix(Some(&"s3://b/p".to_string()), false), Ok(Some("s3://b/p".to_string())));
    assert_eq!(parse_prefix(Some(&"/b/p".to_string()), true), Err(ArgError::InvalidPrefix));
}

#[test]
fn exclude_patterns_are_expressions() {
    let given = vec![".*\\.tmp$".to_string(), "^logs/".to_string()];
    assert_eq!(parse_exclude(&given), Ok(given.clone()));
    assert_eq!(parse_exclude(&Vec::new()), Ok(Vec::new()));
    assert_eq!(parse_exclude(&vec!["ok".to_string(), "[".to_string()]), Err(ArgError::InvalidExclude));
}

#[test]
fn du_options() {
    let prefix = "s3://bucket/dir1/".to_string();
    let opts = DuOpts::from_values(None, None, None, None, None, Some(&prefix)).unwrap();
    assert_eq!(opts.verbose, false);
    assert_eq!(opts.show_total, false);
    assert_eq!(opts.show_progress, true);
    assert_eq!(opts.human_readable, true);
    assert_eq!(opts.delimiter, '/');
    assert_eq!(opts.prefix, prefix);
    let opts = DuOpts::from_values(Some(true), Some(true), Some(false), Some(false), Some(&"|".to_string()), Some(&prefix)).unwrap();
    assert_eq!((opts.verbose, opts.show_total, opts.show_progress, opts.human_readable), (true, true, false, false));
    assert_eq!(opts.delimiter, '|');
    assert_eq!(DuOpts::from_values(None, None, None, None, None, None).err(), Some(ArgError::MissingPrefix));
    assert_eq!(DuOpts::from_values(None, None, None, None, None, Some(&"x".to_string())).err(), Some(ArgError::InvalidPrefix));
    assert_eq!(
        DuOpts::from_values(None, None, None, None, Some(&"ab".to_string()), None).err(),
        Some(ArgError::InvalidDelimiter)
    );
}

#[test]
fn list_options() {
    let path = "s3://bucket/".to_string();
    let opts = ListOpts::from_values(None, Some(true), None, None, None, Some(&path), &vec!["a+".to_string()]).unwrap();
    assert_eq!(opts.recursive, true);
    assert_eq!(opts.path, Some(path.clone()));
    assert_eq!(opts.exclude, vec!["a+"]);
    let opts = ListOpts::from_values(None, None, None, None, None, None, &Vec::new()).unwrap();
    assert_eq!(opts.path, None);
    assert_eq!(opts.recursive, false);
    assert_eq!(
        ListOpts::from_values(None, None, None, None, None, Some(&"nope".to_string()), &Vec::new()).err(),
        Some(ArgError::InvalidPrefix)
    );
    assert_eq!(
        ListOpts::from_values(None, None, None, None, None, Some(&path), &vec!["(".to_string()]).err(),
        Some(ArgError::InvalidExclude)
    );
}

#[test]
fn arg_errors_have_messages() {
    assert_eq!(ArgError::InvalidDelimiter.to_string(), "Delimiter is not a valid char");
    assert_eq!(ArgError::MissingPrefix.to_string(), "Prefix is required");
    assert_eq!(ArgError::InvalidPrefix.to_string(), "Prefix must be a valid s3 url");
    assert_eq!(ArgError::MissingAccessKey.to_string(), "Access key is required");
    assert_eq!(ArgError::MissingSecretKey.to_string(), "Secret key is required");
    assert_eq!(ArgError::NoS3Url.to_string(), "At least one of the FROM or TO paths must be a valid s3 URL");
    assert!(ArgError::InvalidExclude.to_string().contains("regular expression"));
    assert_eq!(ArgError::MissingPath.to_string(), "Path is required");
}
