use s3cli::utils::validator::{check_profile_name, is_url, is_uuid};

#[test]
fn test_check_profile_name() {
    assert!(check_profile_name("test"));
    assert!(check_profile_name("test-123"));
    assert_eq!(false, check_profile_name("test 123"));
}

#[test]
fn mod_test_check_profile_name() {
    assert!(check_profile_name("test"));
    assert!(check_profile_name("test-123"));
    assert_eq!(false, check_profile_name("test 123"));
}

#[test]
fn profile_name_edges() {
    assert!(check_profile_name("ab"));
    assert!(check_profile_name("A_b-9"));
    assert_eq!(false, check_profile_name("a"));
    assert_eq!(false, check_profile_name(""));
    assert_eq!(false, check_profile_name("[prod]"));
    assert_eq!(false, check_profile_name("prod\n"));
    assert_eq!(false, check_profile_name("pro.d"));
}

#[test]
fn uuid_detection() {
    assert!(is_uuid(&String::from("6803f5a1-eb55-4812-b375-28b0eca6c70b")));
    assert_eq!(false, is_uuid(&String::from("6803F5A1-EB55-4812-B375-28B0ECA6C70B")));
    assert_eq!(false, is_uuid(&String::from("6803f5a1eb554812b37528b0eca6c70b")));
    assert_eq!(false, is_uuid(&String::from("x6803f5a1-eb55-4812-b375-28b0eca6c70b")));
}

#[test]
fn url_detection() {
    assert!(is_url(&String::from("https://s3.example.com")));
    assert!(is_url(&String::from("http://www.example.org/path?x=1")));
    assert_eq!(false, is_url(&String::from("s3://bucket/key")));
    assert_eq!(false, is_url(&String::from("example")));
}
