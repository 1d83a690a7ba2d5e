use s3cli::s3::{ParsedS3Url, UrlParseError, ACL};

#[test]
fn test_can_parse() {
    let parsed = ParsedS3Url::parse_from(&String::from("s3://servicelogs/Documents/myfile.txt"), &'/')
        .expect("failed to parse s3url");
    assert_eq!(parsed.bucket_name, "servicelogs");
    assert_eq!(parsed.segments, vec!["Documents", "myfile.txt"]);

    let parsed = ParsedS3Url::parse_from(&String::from("s3://servicelogs"), &'/')
        .expect("failed to parse s3url");
    assert_eq!(parsed.bucket_name, "servicelogs");
    assert_eq!(parsed.segments, vec![] as Vec<String>);

    let parsed = ParsedS3Url::parse_from(&String::from("s3://my.great_photos-2014/jan/myvacation.jpg"), &'/')
        .expect("failed to parse s3url");
    assert_eq!(parsed.bucket_name, "my.great_photos-2014");
    assert_eq!(parsed.segments, vec!["jan", "myvacation.jpg"]);
}

#[test]
fn test_can_detect_s3urls() {
    assert!(ParsedS3Url::is_s3url("s3://")); // Refers to the root of a bucket
    assert!(ParsedS3Url::is_s3url("s3://4my-organization"));
    assert!(ParsedS3Url::is_s3url("s3://my.great_photos-2014/jan/myvacation.jpg"));
    assert!(ParsedS3Url::is_s3url("s3://videos/2014/birthday/video1.wmv"));
    assert!(ParsedS3Url::is_s3url("s3://servicelogs/Documents/myfile.txt"));
    assert!(ParsedS3Url::is_s3url("s3://servicelogs"));
    assert_eq!(false, ParsedS3Url::is_s3url("http://servicelogs/sad"));
}

#[test]
fn mod_test_can_parse() {
    let parsed = ParsedS3Url::parse_from(&String::from("s3://servicelogs/Documents/myfile.txt"), &'/').unwrap();
    assert_eq!(parsed.bucket_name, "servicelogs");
    assert_eq!(parsed.segments, vec!["Documents", "myfile.txt"]);

    let parsed = ParsedS3Url::parse_from(&String::from("s3://servicelogs"), &'/').unwrap();
    assert_eq!(parsed.bucket_name, "servicelogs");
    assert_eq!(parsed.segments, vec![] as Vec<String>);
}

#[test]
fn mod_test_can_detect_s3urls() {
    assert!(ParsedS3Url::is_s3url("s3://servicelogs/Documents/myfile.txt"));
    assert!(ParsedS3Url::is_s3url("s3://servicelogs"));
    assert_eq!(false, ParsedS3Url::is_s3url("http://servicelogs/sad"));
}

#[test]
fn invalid_scheme_is_rejected() {
    assert_eq!(false, ParsedS3Url::is_s3url("http://bucket/x"));
    let r = ParsedS3Url::parse_from(&String::from("http://bucket/x"), &'/');
    assert_eq!(r.err(), Some(UrlParseError::InvalidScheme));
    let r = ParsedS3Url::parse_from(&String::from("S3://bucket/x"), &'/');
    assert_eq!(r.err(), Some(UrlParseError::InvalidScheme));
    let r = ParsedS3Url::parse_from(&String::from(""), &'/');
    assert_eq!(r.err(), Some(UrlParseError::InvalidScheme));
}

#[test]
fn missing_bucket_is_rejected() {
    let r = ParsedS3Url::parse_from(&String::from("s3://"), &'/');
    assert_eq!(r.err(), Some(UrlParseError::MissingBucket));
    let r = ParsedS3Url::parse_from(&String::from("s3:///path"), &'/');
    assert_eq!(r.err(), Some(UrlParseError::MissingBucket));
}

#[test]
fn bare_bucket_has_no_segments() {
    for url in ["s3://bucket", "s3://bucket/", "s3://bucket//", "s3://a.b-c_d"] {
        let parsed = ParsedS3Url::parse_from(&String::from(url), &'/').unwrap();
        let expected = url.trim_start_matches("s3://").trim_end_matches('/');
        assert_eq!(parsed.bucket_name, expected);
        assert!(parsed.segments.is_empty());
    }
}

#[test]
fn empty_segments_are_dropped() {
    let parsed = ParsedS3Url::parse_from(&String::from("s3://bucket//a///b/"), &'/').unwrap();
    assert_eq!(parsed.bucket_name, "bucket");
    assert_eq!(parsed.segments, vec!["a", "b"]);
}

#[test]
fn other_delimiters_split_the_rest() {
    let parsed = ParsedS3Url::parse_from(&String::from("s3://bucket:a:b"), &':').unwrap();
    assert_eq!(parsed.bucket_name, "bucket");
    assert_eq!(parsed.segments, vec!["a", "b"]);
    let parsed = ParsedS3Url::parse_from(&String::from("s3://bucket/a/b"), &':').unwrap();
    assert_eq!(parsed.bucket_name, "bucket/a/b");
    assert!(parsed.segments.is_empty());
}

#[test]
fn parse_checked_follows_the_flag() {
    let url = String::from("s3://bucket/dir/file");
    let r = ParsedS3Url::parse_checked(&url, &'/', false);
    assert_eq!(r.err(), Some(UrlParseError::InvalidScheme));
    let parsed = ParsedS3Url::parse_checked(&url, &'/', true).unwrap();
    assert_eq!(parsed.bucket_name, "bucket");
    assert_eq!(parsed.segments, vec!["dir", "file"]);
    let r = ParsedS3Url::parse_checked(&String::from("ftp://bucket"), &'/', true);
    assert_eq!(r.err(), Some(UrlParseError::InvalidScheme));
}

#[test]
fn url_errors_have_messages() {
    assert_eq!(UrlParseError::InvalidScheme.to_string(), "Not a valid S3 URL");
    assert_eq!(UrlParseError::MissingBucket.to_string(), "Bucket name is required");
}

#[test]
fn acl_names() {
    assert_eq!(ACL::Private.to_string(), "private");
    assert_eq!(ACL::PublicRead.to_string(), "public-read");
    assert_eq!(ACL::PublicReadWrite.to_string(), "public-read-write");
    assert_eq!(ACL::AuthenticatedRead.to_string(), "authenticated-read");
    assert_eq!(ACL::AWSExecRead.to_string(), "aws-exec-read");
    assert_eq!(ACL::BucketOwnerRead.to_string(), "bucket-owner-read");
    assert_eq!(ACL::BucketOwnerFC.to_string(), "bucket-owner-full-control");
}
