use s3cli::error::StoreError;
use s3cli::s3::content::{S3File, Timestamp};
use s3cli::s3::paging::{
    get_list_object_request, get_prefixes_request, sum_sizes, DiskUsage, DiskUsageStep,
    Retrieval, RetrievalStep, MAX_KEYS,
};
use s3cli::s3::{ListObjectsResult, UrlParseError};

fn file(key: &str, size: u64) -> S3File {
    S3File::new(key.to_string(), size, Timestamp::new(0, 0))
}

fn page(files: Vec<S3File>, token: Option<&str>, has_more: bool) -> ListObjectsResult {
    ListObjectsResult {
        objects: Some(files),
        common_prefixes: None,
        continuation_token: token.map(|t| t.to_string()),
        has_more,
    }
}

#[test]
fn first_request_of_a_prefix() {
    let r = get_list_object_request(&"s3://bucket/dir1/sub".to_string(), &'/').unwrap();
    assert_eq!(r.bucket, "bucket");
    assert_eq!(r.prefix, "dir1/sub/");
    assert_eq!(r.continuation_token, None);
    assert_eq!(r.delimiter, None);
    assert_eq!(r.max_keys, 1000);
    assert_eq!(MAX_KEYS, 1000);

    let r = get_list_object_request(&"s3://bucket".to_string(), &'/').unwrap();
    assert_eq!(r.bucket, "bucket");
    assert_eq!(r.prefix, "");
    let r = get_list_object_request(&"s3://bucket/".to_string(), &'/').unwrap();
    assert_eq!(r.prefix, "");
}

#[test]
fn request_for_common_prefixes() {
    let r = get_prefixes_request(&"s3://bucket/dir1".to_string(), &'/').unwrap();
    assert_eq!(r.bucket, "bucket");
    assert_eq!(r.prefix, "dir1/");
    assert_eq!(r.delimiter.as_deref(), Some("/"));
    assert_eq!(r.continuation_token, None);
    assert_eq!(r.max_keys, 1000);
    let r = get_prefixes_request(&"dir1".to_string(), &'/');
    assert_eq!(r.err(), Some(UrlParseError::InvalidScheme));
}

#[test]
fn first_request_fails_on_a_bad_address() {
    let r = get_list_object_request(&"bucket/dir1".to_string(), &'/');
    assert_eq!(r.err(), Some(UrlParseError::InvalidScheme));
    let r = get_list_object_request(&"s3:///dir1".to_string(), &'/');
    assert_eq!(r.err(), Some(UrlParseError::MissingBucket));
}

#[test]
fn du_of_a_prefix() {
    let walk = DiskUsage::start();
    let step = walk.absorb(Ok(page(vec![file("dir1/b.txt", 50), file("dir1/c.txt", 70)], None, false)));
    match step {
        DiskUsageStep::Finished { total_size_bytes, total_objects } => {
            assert_eq!(total_size_bytes, 120);
            assert_eq!(total_objects, 2);
        }
        other => panic!("unexpected step {:?}", other),
    }
}

#[test]
fn du_over_several_pages() {
    let first = get_list_object_request(&"s3://bucket/dir1/".to_string(), &'/').unwrap();
    let walk = DiskUsage::start();
    assert_eq!(walk.request(&first).continuation_token, None);
    let walk = match walk.absorb(Ok(page(vec![file("dir1/a", 1), file("dir1/b", 2)], Some("t1"), true))) {
        DiskUsageStep::Request(walk) => walk,
        other => panic!("unexpected step {:?}", other),
    };
    let next = walk.request(&first);
    assert_eq!(next.continuation_token.as_deref(), Some("t1"));
    assert_eq!(next.bucket, "bucket");
    assert_eq!(next.prefix, "dir1/");
    assert_eq!(next.max_keys, 1000);
    let walk = match walk.absorb(Ok(ListObjectsResult {
        objects: None,
        common_prefixes: None,
        continuation_token: Some("t2".to_string()),
        has_more: true,
    })) {
        DiskUsageStep::Request(walk) => walk,
        other => panic!("unexpected step {:?}", other),
    };
    assert_eq!(walk.total_objects, 2);
    assert_eq!(walk.total_size_bytes, 3);
    match walk.absorb(Ok(page(vec![file("dir1/c", u64::MAX)], Some("t3"), false))) {
        DiskUsageStep::Finished { total_size_bytes, total_objects } => {
            assert_eq!(total_size_bytes, 3 + u64::MAX as u128);
            assert_eq!(total_objects, 3);
        }
        other => panic!("unexpected step {:?}", other),
    }
}

#[test]
fn du_stops_without_a_marker() {
    let step = DiskUsage::start().absorb(Ok(page(vec![file("a", 5)], None, true)));
    match step {
        DiskUsageStep::Finished { total_size_bytes, total_objects } => {
            assert_eq!((total_size_bytes, total_objects), (5, 1));
        }
        other => panic!("unexpected step {:?}", other),
    }
}

#[test]
fn du_gives_up_on_a_failure() {
    let walk = match DiskUsage::start().absorb(Ok(page(vec![file("a", 5)], Some("t"), true))) {
        DiskUsageStep::Request(walk) => walk,
        other => panic!("unexpected step {:?}", other),
    };
    match walk.absorb(Err(StoreError::Auth)) {
        DiskUsageStep::Failed(e) => assert_eq!(e, StoreError::Auth),
        other => panic!("unexpected step {:?}", other),
    }
}

#[test]
fn du_reports_overflow() {
    let walk = DiskUsage { total_size_bytes: 0, total_objects: u64::MAX, next_token: None };
    match walk.absorb(Ok(page(vec![file("a", 5)], None, false))) {
        DiskUsageStep::Overflow => {}
        other => panic!("unexpected step {:?}", other),
    }
    let walk = DiskUsage { total_size_bytes: u128::MAX, total_objects: 0, next_token: None };
    match walk.absorb(Ok(page(vec![file("a", 1)], None, false))) {
        DiskUsageStep::Overflow => {}
        other => panic!("unexpected step {:?}", other),
    }
}

#[test]
fn sizes_add_up_exactly() {
    assert_eq!(sum_sizes(&Vec::new()), 0);
    assert_eq!(sum_sizes(&vec![file("a", u64::MAX), file("b", u64::MAX), file("c", 2)]), 2 * (u64::MAX as u128) + 2);
}

#[test]
fn retrieval_collects_all_pages_in_order() {
    let walk = Retrieval::start();
    let walk = match walk.absorb(Ok(page(vec![file("a", 1), file("b", 2)], Some("t1"), true))) {
        RetrievalStep::Request(walk) => walk,
        other => panic!("unexpected step {:?}", other),
    };
    assert_eq!(walk.next_token.as_deref(), Some("t1"));
    let first = get_list_object_request(&"s3://bucket".to_string(), &'/').unwrap();
    assert_eq!(walk.request(&first).continuation_token.as_deref(), Some("t1"));
    let walk = match walk.absorb(Ok(page(vec![file("c", 3)], None, true))) {
        RetrievalStep::Request(walk) => walk,
        other => panic!("unexpected step {:?}", other),
    };
    assert_eq!(walk.next_token, None);
    match walk.absorb(Ok(page(vec![file("d", 4)], Some("ignored"), false))) {
        RetrievalStep::Finished(objects) => {
            let keys: Vec<&str> = objects.iter().map(|f| f.key.as_str()).collect();
            assert_eq!(keys, vec!["a", "b", "c", "d"]);
            let sizes: Vec<u64> = objects.iter().map(|f| f.size).collect();
            assert_eq!(sizes, vec![1, 2, 3, 4]);
        }
        other => panic!("unexpected step {:?}", other),
    }
}

#[test]
fn retrieval_gives_up_on_a_failure() {
    let walk = match Retrieval::start().absorb(Ok(page(vec![file("a", 1)], Some("t1"), true))) {
        RetrievalStep::Request(walk) => walk,
        other => panic!("unexpected step {:?}", other),
    };
    for e in [StoreError::Dispatch, StoreError::Auth, StoreError::NotFound] {
        let again = Retrieval { objects: walk.objects.clone(), next_token: walk.next_token.clone() };
        match again.absorb(Err(e)) {
            RetrievalStep::Failed(got) => assert_eq!(got, e),
            other => panic!("unexpected step {:?}", other),
        }
    }
}

#[test]
fn store_errors_have_messages() {
    assert_eq!(StoreError::Dispatch.to_string(), "request to the object store failed");
    assert_eq!(StoreError::Auth.to_string(), "the object store refused the credentials");
    assert_eq!(StoreError::NotFound.to_string(), "no such bucket or prefix");
}
