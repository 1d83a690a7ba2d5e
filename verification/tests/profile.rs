use s3cli::commands::{credentials_from_keys, credentials_from_profile, ArgError};
use s3cli::s3::profile::{
    is_comment_line, is_empty_line, parse_profile_file, read_profile_line, read_property_line,
    Profile, ProfileError, ProfileSet, Property, Removal,
};

fn prod() -> Profile {
    Profile::new(
        "prod".to_string(),
        vec![
            Property::new("aws_access_key_id".to_string(), "AK".to_string()),
            Property::new("aws_secret_access_key".to_string(), "SK".to_string()),
        ],
    )
    .unwrap()
}

fn load(contents: &str) -> ProfileSet {
    ProfileSet::from_contents(contents).unwrap().0
}

fn pairs(profile: &Profile) -> Vec<(String, String)> {
    profile.properties().iter().map(|p| (p.key().to_string(), p.value().to_string())).collect()
}

#[test]
fn profile_lifecycle() {
    let profile = prod();
    let appended = profile.save("").unwrap();
    assert_eq!(appended, "[prod]\naws_access_key_id = AK\naws_secret_access_key = SK");
    let contents = appended;
    let set = load(&contents);
    assert_eq!(set.profile_exists("prod"), Ok(true));
    let loaded = set.get("prod").unwrap();
    assert_eq!(loaded.name(), "prod");
    assert_eq!(pairs(loaded), pairs(&profile));
    match set.remove("prod", &contents).unwrap() {
        Removal::DeleteFile => {}
        other => panic!("unexpected plan {:?}", other),
    }
}

#[test]
fn save_then_load_round_trip() {
    let old = "# my keys\n[dev]\nregion = eu\naws_access_key_id = D\n";
    let profile = prod();
    let appended = profile.save(old).unwrap();
    assert_eq!(appended, "[prod]\naws_access_key_id = AK\naws_secret_access_key = SK");
    let contents = format!("{}{}", old, appended);
    let set = load(&contents);
    assert_eq!(set.profiles().len(), 2);
    assert_eq!(pairs(set.get("prod").unwrap()), pairs(&profile));
    assert_eq!(
        pairs(set.get("dev").unwrap()),
        vec![("region".to_string(), "eu".to_string()), ("aws_access_key_id".to_string(), "D".to_string())]
    );
    match set.remove("prod", &contents).unwrap() {
        Removal::Rewrite(text) => {
            assert_eq!(text, "[dev]\nregion = eu\naws_access_key_id = D");
            let after = load(&text);
            assert_eq!(after.profile_exists("prod"), Ok(false));
            assert_eq!(after.profile_exists("dev"), Ok(true));
            assert_eq!(pairs(after.get("dev").unwrap()), pairs(set.get("dev").unwrap()));
        }
        other => panic!("unexpected plan {:?}", other),
    }
}

#[test]
fn empty_keys_and_values_come_back() {
    let profile = Profile::new(
        "edge".to_string(),
        vec![
            Property::new("token".to_string(), "".to_string()),
            Property::new("".to_string(), "nameless".to_string()),
            Property::new("a b".to_string(), "c\td".to_string()),
        ],
    )
    .unwrap();
    let old = "[dev]\nk = v";
    let appended = profile.save(old).unwrap();
    assert_eq!(appended, "\n[edge]\ntoken = \n = nameless\na b = c\td");
    let contents = format!("{}{}", old, appended);
    let set = load(&contents);
    assert_eq!(pairs(set.get("edge").unwrap()), pairs(&profile));
    assert_eq!(pairs(set.get("dev").unwrap()), vec![("k".to_string(), "v".to_string())]);
    match set.remove("edge", &contents).unwrap() {
        Removal::Rewrite(text) => assert_eq!(text, "[dev]\nk = v"),
        other => panic!("unexpected plan {:?}", other),
    }
}

#[test]
fn save_adds_a_line_feed_where_the_file_lacks_one() {
    let appended = prod().save("[dev]\nk = v").unwrap();
    assert_eq!(appended, "\n[prod]\naws_access_key_id = AK\naws_secret_access_key = SK");
    let appended = prod().save("[dev]\nk = v\n").unwrap();
    assert!(appended.starts_with("[prod]"));
}

#[test]
fn duplicate_save_writes_nothing() {
    let contents = "[prod]\naws_access_key_id = OLD\n";
    assert_eq!(prod().save(contents).err(), Some(ProfileError::AlreadyExists));
    assert_eq!(load(contents).get("prod").unwrap().get("aws_access_key_id"), Some("OLD"));
}

#[test]
fn save_fails_where_the_store_does_not_load() {
    assert_eq!(prod().save("[dev\nk = v\n").err(), Some(ProfileError::MalformedHeader));
    assert_eq!(prod().save("[dev]\nno equals sign\n").err(), Some(ProfileError::MalformedProperty));
    assert_eq!(prod().save("[bad name]\nk = v\n").err(), Some(ProfileError::InvalidName));
}

#[test]
fn exists_is_untouched_by_other_profiles() {
    let old = "[dev]\nk = v\n[stage]\nk = w\n";
    let before = load(old);
    let contents = format!("{}{}", old, prod().save(old).unwrap());
    let after_save = load(&contents);
    for name in ["dev", "stage", "other"] {
        assert_eq!(before.profile_exists(name), after_save.profile_exists(name));
    }
    let text = match after_save.remove("prod", &contents).unwrap() {
        Removal::Rewrite(text) => text,
        other => panic!("unexpected plan {:?}", other),
    };
    let after_remove = load(&text);
    for name in ["dev", "stage", "other"] {
        assert_eq!(before.profile_exists(name), after_remove.profile_exists(name));
    }
}

#[test]
fn removal_takes_equal_lines_of_other_profiles_too() {
    let contents = "[a1]\nregion = eu\nkey = 1\n[b2]\nregion = eu\nkey = 2\n";
    let set = load(contents);
    match set.remove("a1", contents).unwrap() {
        Removal::Rewrite(text) => assert_eq!(text, "[b2]\nkey = 2"),
        other => panic!("unexpected plan {:?}", other),
    }
}

#[test]
fn removal_keeps_the_other_names_where_lines_end_with_carriage_returns() {
    let contents = "[dev]\nk = v\r\r\n[prod]\nx = y\r\n[stage]\nz = 1\r";
    let set = load(contents);
    assert_eq!(set.get("dev").unwrap().get("k"), Some("v\r"));
    assert_eq!(set.get("stage").unwrap().get("z"), Some("1"));
    match set.remove("prod", contents).unwrap() {
        Removal::Rewrite(text) => {
            assert_eq!(text, "[dev]\nk = v\r\n[stage]\nz = 1");
            let after = load(&text);
            assert_eq!(after.profile_exists("dev"), Ok(true));
            assert_eq!(after.profile_exists("stage"), Ok(true));
            assert_eq!(after.profile_exists("prod"), Ok(false));
            assert_eq!(after.get("dev").unwrap().get("k"), Some("v"));
        }
        other => panic!("unexpected plan {:?}", other),
    }
}

#[test]
fn removal_of_an_unknown_profile_changes_nothing() {
    let contents = "[dev]\nk = v\n";
    match load(contents).remove("prod", contents).unwrap() {
        Removal::Unchanged => {}
        other => panic!("unexpected plan {:?}", other),
    }
    assert_eq!(load(contents).remove("no such name!", contents).err(), Some(ProfileError::InvalidName));
}

#[test]
fn removal_fails_on_lines_that_cannot_be_read() {
    let set = load("[dev]\nk = v\n");
    assert_eq!(set.remove("dev", "[dev]\nbroken\n").err(), Some(ProfileError::MalformedProperty));
    assert_eq!(set.remove("dev", "[dev\nk = v\n").err(), Some(ProfileError::MalformedHeader));
}

#[test]
fn loading_skips_comments_and_blank_lines() {
    let contents = "\n  # comment\n; other comment\n\t\n[dev]\r\n  region = eu  \r\n\n#x = y\nkey=value=more\n";
    let set = load(contents);
    assert_eq!(set.profiles().len(), 1);
    let dev = set.get("dev").unwrap();
    assert_eq!(
        pairs(dev),
        vec![("region".to_string(), "eu".to_string()), ("key".to_string(), "value".to_string())]
    );
    assert_eq!(dev.get("region"), Some("eu"));
    assert_eq!(dev.get("missing"), None);
}

#[test]
fn loading_reports_duplicates_and_keeps_the_last() {
    let (set, duplicates) =
        ProfileSet::from_contents("[dev]\nk = 1\n[prod]\nk = 2\n[dev]\nk = 3\nj = 4\n").unwrap();
    assert_eq!(duplicates, vec!["dev"]);
    let names: Vec<&str> = set.profiles().iter().map(|p| p.name()).collect();
    assert_eq!(names, vec!["dev", "prod"]);
    assert_eq!(
        pairs(set.get("dev").unwrap()),
        vec![("k".to_string(), "3".to_string()), ("j".to_string(), "4".to_string())]
    );
}

#[test]
fn loading_fails_on_malformed_lines() {
    assert_eq!(ProfileSet::from_contents("[dev\n").err(), Some(ProfileError::MalformedHeader));
    assert_eq!(ProfileSet::from_contents("[dev]\nkey value\n").err(), Some(ProfileError::MalformedProperty));
    assert_eq!(ProfileSet::from_contents("dev]\n").err(), Some(ProfileError::MalformedProperty));
    assert_eq!(ProfileSet::from_contents("[d]\nk = v\n").err(), Some(ProfileError::InvalidName));
    assert_eq!(ProfileSet::from_contents("[has space]\n").err(), Some(ProfileError::InvalidName));
    assert_eq!(ProfileSet::from_contents("orphan\n[dev]\n").err(), Some(ProfileError::MalformedProperty));
}

#[test]
fn loading_an_empty_store() {
    let (set, duplicates) = ProfileSet::from_contents("").unwrap();
    assert!(set.profiles().is_empty());
    assert!(duplicates.is_empty());
    assert_eq!(set.profile_exists("dev"), Ok(false));
    assert!(set.get("dev").is_none());
    let set = ProfileSet::new();
    assert_eq!(set.profile_exists("dev"), Ok(false));
    let (set, _) = ProfileSet::from_contents("orphan = 1\n# nothing else\n").unwrap();
    assert!(set.profiles().is_empty());
}

#[test]
fn profile_names_are_checked() {
    assert_eq!(Profile::new("x".to_string(), Vec::new()).err(), Some(ProfileError::InvalidName));
    assert_eq!(Profile::new("bad name".to_string(), Vec::new()).err(), Some(ProfileError::InvalidName));
    assert!(Profile::new("test-profile".to_string(), Vec::new()).is_ok());
}

#[test]
fn checked_constructor_follows_the_flag() {
    assert_eq!(Profile::new_checked("prod".to_string(), Vec::new(), false).err(), Some(ProfileError::InvalidName));
    let p = Profile::new_checked(
        "any name".to_string(),
        vec![Property::new("k".to_string(), "v".to_string())],
        true,
    )
    .unwrap();
    assert_eq!(p.name(), "any name");
    assert_eq!(pairs(&p), vec![("k".to_string(), "v".to_string())]);
}

#[test]
fn later_property_of_a_key_stays() {
    let p = Profile::new(
        "dev".to_string(),
        vec![
            Property::new("a".to_string(), "1".to_string()),
            Property::new("b".to_string(), "2".to_string()),
            Property::new("a".to_string(), "3".to_string()),
        ],
    )
    .unwrap();
    assert_eq!(pairs(&p), vec![("a".to_string(), "3".to_string()), ("b".to_string(), "2".to_string())]);
    assert_eq!(p.get("a"), Some("3"));
}

#[test]
fn credentials_of_a_profile() {
    let creds = prod().get_creds().unwrap();
    assert_eq!(creds.access_key, "AK");
    assert_eq!(creds.secret_key, "SK");
    let bare = Profile::new("bare".to_string(), Vec::new()).unwrap();
    let creds = bare.get_creds().unwrap();
    assert_eq!(creds.access_key, "");
    assert_eq!(creds.secret_key, "");
}

#[test]
fn credentials_are_resolved() {
    let set = load("[prod]\naws_access_key_id = AK\naws_secret_access_key = SK\n");
    let creds = credentials_from_profile(&set, "prod").unwrap();
    assert_eq!((creds.access_key.as_str(), creds.secret_key.as_str()), ("AK", "SK"));
    assert_eq!(credentials_from_profile(&set, "dev").err(), Some(ProfileError::NotFound));
    let a = "A".to_string();
    let s = "S".to_string();
    let creds = credentials_from_keys(Some(&a), Some(&s)).unwrap();
    assert_eq!((creds.access_key.as_str(), creds.secret_key.as_str()), ("A", "S"));
    assert_eq!(credentials_from_keys(None, Some(&s)).err(), Some(ArgError::MissingAccessKey));
    assert_eq!(credentials_from_keys(None, None).err(), Some(ArgError::MissingAccessKey));
    assert_eq!(credentials_from_keys(Some(&a), None).err(), Some(ArgError::MissingSecretKey));
}

#[test]
fn lines_are_classified() {
    assert!(is_empty_line(""));
    assert!(is_empty_line(" \t "));
    assert_eq!(false, is_empty_line(" x "));
    assert_eq!(false, is_empty_line("\u{a0}"));
    assert!(is_comment_line("# c"));
    assert!(is_comment_line("  ; c"));
    assert_eq!(false, is_comment_line("k = #v"));
    assert_eq!(false, is_comment_line(""));
}

#[test]
fn content_lines_are_trimmed() {
    let lines = parse_profile_file(&"  [a]  \n\n# c\n\tk = v\t\r\nlast".to_string()).unwrap();
    assert_eq!(lines, vec!["[a]", "k = v", "last"]);
    assert!(parse_profile_file(&"".to_string()).unwrap().is_empty());
    assert!(parse_profile_file(&"\n\n".to_string()).unwrap().is_empty());
}

#[test]
fn header_lines_are_read() {
    assert_eq!(read_profile_line("[prod]"), Ok("prod".to_string()));
    assert_eq!(read_profile_line("  [prod] "), Ok("prod".to_string()));
    assert_eq!(read_profile_line("[[a]b]"), Ok("ab".to_string()));
    assert_eq!(read_profile_line("prod]"), Err(ProfileError::MalformedHeader));
    assert_eq!(read_profile_line("[prod"), Err(ProfileError::MalformedHeader));
    assert_eq!(read_profile_line(""), Err(ProfileError::MalformedHeader));
}

#[test]
fn property_lines_are_read() {
    assert_eq!(read_property_line("k = v"), Ok(("k".to_string(), "v".to_string())));
    assert_eq!(read_property_line("  k=v  "), Ok(("k".to_string(), "v".to_string())));
    assert_eq!(read_property_line("k ="), Ok(("k".to_string(), "".to_string())));
    assert_eq!(read_property_line("= v"), Ok(("".to_string(), "v".to_string())));
    assert_eq!(read_property_line("a = b = c"), Ok(("a".to_string(), "b".to_string())));
    assert_eq!(read_property_line("no value"), Err(ProfileError::MalformedProperty));
}

#[test]
fn profile_errors_have_messages() {
    assert_eq!(ProfileError::AlreadyExists.to_string(), "Profile already exists");
    assert_eq!(ProfileError::NotFound.to_string(), "Profile not found");
    assert_eq!(ProfileError::DuplicateHeader.to_string(), "Profile is duplicated");
    assert!(ProfileError::InvalidName.to_string().starts_with("Profile name is not valid"));
    assert!(ProfileError::MalformedHeader.to_string().contains("'['"));
    assert!(ProfileError::MalformedProperty.to_string().contains("key"));
}
