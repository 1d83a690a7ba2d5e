use s3cli::s3::bucket::{
    ensure_surrounding_slashes, ensure_trailing_slash, filter_objects_by_path, ListOutput,
};
use s3cli::s3::content::{S3Directory, S3File, Timestamp};
use s3cli::s3::UrlParseError;

fn file(key: &str, size: u64, secs: i64) -> S3File {
    S3File::new(key.to_string(), size, Timestamp::new(secs, 0))
}

fn keys(files: &Vec<S3File>) -> Vec<String> {
    files.iter().map(|f| f.key.clone()).collect()
}

fn dir_names(out: &ListOutput) -> Vec<String> {
    out.directories().iter().map(|d| d.name().clone()).collect()
}

#[test]
fn projection_of_bucket_root() {
    let objects = vec![file("a.txt", 100, 1), file("dir1/b.txt", 50, 2), file("dir1/c.txt", 70, 3)];
    let out = filter_objects_by_path(objects, "s3://bucket/", '/', false).unwrap();
    assert_eq!(keys(out.objects()), vec!["a.txt"]);
    assert_eq!(out.objects()[0].size, 100);
    assert_eq!(dir_names(&out), vec!["dir1"]);
    let dir = &out.directories()[0];
    assert_eq!(dir.size(), 120);
    assert_eq!(keys(dir.files()), vec!["dir1/b.txt", "dir1/c.txt"]);
    assert_eq!(dir.last_modified(Timestamp::new(1000, 0)), Timestamp::new(3, 0));
}

#[test]
fn projection_below_a_prefix() {
    let objects = vec![
        file("dir1/", 0, 1),
        file("dir1/b.txt", 50, 2),
        file("dir1/sub/c.txt", 70, 3),
        file("dir1/sub/deep/d.txt", 5, 9),
        file("dir1/other/e.txt", 1, 4),
    ];
    for path in ["s3://bucket/dir1/", "s3://bucket/dir1", "s3://bucket//dir1//"] {
        let out = filter_objects_by_path(objects.clone(), path, '/', false).unwrap();
        assert_eq!(keys(out.objects()), vec!["dir1/b.txt"]);
        assert_eq!(dir_names(&out), vec!["sub", "other"]);
        assert_eq!(out.directories()[0].size(), 75);
        assert_eq!(out.directories()[1].size(), 1);
        assert_eq!(out.directories()[0].last_modified(Timestamp::new(0, 0)), Timestamp::new(9, 0));
    }
}

#[test]
fn every_key_lands_in_one_place() {
    let objects = vec![
        file("p/a", 1, 1),
        file("p/d/x", 2, 1),
        file("p/d/y", 3, 1),
        file("p/e/z", 4, 1),
        file("p/b", 5, 1),
    ];
    let out = filter_objects_by_path(objects.clone(), "s3://bucket/p/", '/', false).unwrap();
    for object in &objects {
        let direct = out.objects().iter().filter(|f| f.key == object.key).count();
        let in_dirs = out.directories().iter().filter(|d| d.file_exists(&object.key)).count();
        assert_eq!(direct + in_dirs, 1);
    }
}

#[test]
fn first_record_of_a_key_stays_among_objects() {
    let objects = vec![file("a.txt", 100, 1), file("a.txt", 999, 2)];
    let out = filter_objects_by_path(objects, "s3://bucket", '/', false).unwrap();
    assert_eq!(out.objects().len(), 1);
    assert_eq!(out.objects()[0].size, 100);
}

#[test]
fn last_record_of_a_key_stays_in_a_directory() {
    let objects = vec![file("d/a.txt", 100, 1), file("d/b.txt", 1, 1), file("d/a.txt", 7, 2)];
    let out = filter_objects_by_path(objects, "s3://bucket", '/', false).unwrap();
    let dir = &out.directories()[0];
    assert_eq!(keys(dir.files()), vec!["d/a.txt", "d/b.txt"]);
    assert_eq!(dir.size(), 8);
}

#[test]
fn recursive_listing_of_the_root_is_flat() {
    let objects = vec![file("a.txt", 100, 1), file("dir1/b.txt", 50, 2), file("dir1/x/c.txt", 70, 3)];
    let out = filter_objects_by_path(objects, "s3://bucket/", '/', true).unwrap();
    assert_eq!(keys(out.objects()), vec!["a.txt", "dir1/b.txt", "dir1/x/c.txt"]);
    assert!(out.directories().is_empty());
}

#[test]
fn recursive_listing_below_a_prefix_keeps_direct_children_only() {
    let objects = vec![file("dir1/b.txt", 50, 2), file("dir1/x/c.txt", 70, 3)];
    let out = filter_objects_by_path(objects, "s3://bucket/dir1/", '/', true).unwrap();
    assert_eq!(keys(out.objects()), vec!["dir1/b.txt"]);
    assert!(out.directories().is_empty());
}

#[test]
fn projection_fails_on_a_bad_path() {
    let r = filter_objects_by_path(vec![file("a", 1, 1)], "http://bucket/x", '/', false);
    assert_eq!(r.err(), Some(UrlParseError::InvalidScheme));
    let r = filter_objects_by_path(vec![file("a", 1, 1)], "s3://", '/', false);
    assert_eq!(r.err(), Some(UrlParseError::MissingBucket));
}

#[test]
fn projection_with_another_delimiter() {
    let objects = vec![file("logs:a", 1, 1), file("logs:2024:b", 2, 2), file("logs:2024:c", 3, 3)];
    let out = filter_objects_by_path(objects, "s3://bucket:logs", ':', false).unwrap();
    assert_eq!(keys(out.objects()), vec!["logs:a"]);
    assert_eq!(dir_names(&out), vec!["2024"]);
    assert_eq!(out.directories()[0].size(), 5);
}

#[test]
fn empty_directory_has_size_zero_and_the_given_time() {
    let dir = S3Directory::new("empty".to_string());
    assert_eq!(dir.size(), 0);
    assert_eq!(dir.name(), "empty");
    let now = Timestamp::new(1_700_000_000, 5);
    assert_eq!(dir.last_modified(now), now);
    assert_eq!(false, dir.file_exists(&"x".to_string()));
}

#[test]
fn directory_size_is_the_exact_sum() {
    let mut dir = S3Directory::new("big".to_string());
    dir.add_file(file("big/a", u64::MAX, 1));
    dir.add_file(file("big/b", u64::MAX, 2));
    dir.add_file(file("big/c", 3, 3));
    assert_eq!(dir.size(), 2 * (u64::MAX as u128) + 3);
    assert!(dir.file_exists(&"big/b".to_string()));
    dir.add_file(file("big/a", 1, 1));
    assert_eq!(dir.size(), (u64::MAX as u128) + 4);
    assert_eq!(dir.files().len(), 3);
}

#[test]
fn directory_time_is_the_latest_of_its_files() {
    let mut dir = S3Directory::new("d".to_string());
    dir.add_file(S3File::new("d/a".to_string(), 1, Timestamp::new(10, 5)));
    dir.add_file(S3File::new("d/b".to_string(), 1, Timestamp::new(10, 900)));
    dir.add_file(S3File::new("d/c".to_string(), 1, Timestamp::new(-4, 0)));
    assert_eq!(dir.last_modified(Timestamp::new(99, 0)), Timestamp::new(10, 900));
}

#[test]
fn timestamps_are_ordered_by_nanoseconds() {
    assert!(Timestamp::new(2, 0).is_after(&Timestamp::new(1, 999_999_999)));
    assert!(Timestamp::new(1, 1).is_after(&Timestamp::new(1, 0)));
    assert_eq!(false, Timestamp::new(1, 0).is_after(&Timestamp::new(1, 0)));
    assert!(Timestamp::new(-1, 0).is_after(&Timestamp::new(-2, 999_999_999)));
    assert!(Timestamp::new(i64::MAX, 0).is_after(&Timestamp::new(i64::MIN, 0)));
}

#[test]
fn set_newest_only_moves_forward() {
    let mut f = file("k", 1, 10);
    f.set_newest(Timestamp::new(5, 0));
    assert_eq!(f.last_modified, Timestamp::new(10, 0));
    f.set_newest(Timestamp::new(11, 0));
    assert_eq!(f.last_modified, Timestamp::new(11, 0));
}

#[test]
fn slashes_are_ensured() {
    assert_eq!(ensure_trailing_slash(&"a/b".to_string(), '/'), "a/b/");
    assert_eq!(ensure_trailing_slash(&"a/b/".to_string(), '/'), "a/b/");
    assert_eq!(ensure_trailing_slash(&"".to_string(), '/'), "/");
    assert_eq!(ensure_surrounding_slashes(&"a/b".to_string(), '/'), "/a/b/");
    assert_eq!(ensure_surrounding_slashes(&"/a/b".to_string(), '/'), "/a/b/");
    assert_eq!(ensure_surrounding_slashes(&"a/b/".to_string(), '/'), "/a/b/");
    assert_eq!(ensure_surrounding_slashes(&"/".to_string(), '/'), "/");
    assert_eq!(ensure_surrounding_slashes(&"".to_string(), '/'), "/");
    assert_eq!(ensure_surrounding_slashes(&"a".to_string(), ':'), ":a:");
}

#[test]
fn list_output_by_hand() {
    let mut out = ListOutput::new();
    out.add_object(file("a", 1, 1));
    out.add_object(file("a", 2, 2));
    out.add_object(file("b", 3, 3));
    assert_eq!(keys(out.objects()), vec!["a", "b"]);
    let first = out.get_or_insert_directory(S3Directory::new("d".to_string()));
    let second = out.get_or_insert_directory(S3Directory::new("e".to_string()));
    let again = out.get_or_insert_directory(S3Directory::new("d".to_string()));
    assert_eq!((first, second, again), (0, 1, 0));
    out.add_file_to(again, file("d/x", 4, 4));
    assert_eq!(out.directories()[0].size(), 4);
    assert_eq!(out.directories()[1].size(), 0);
}
