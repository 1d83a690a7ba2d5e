//! What the commands make of the values given on the command line.

use crate::s3::credentials::Credentials;
use crate::s3::profile::{
    access_key_id, secret_access_key, store_get, store_has, ProfileError, ProfileSet,
};
use crate::s3::{is_s3url_text, ParsedS3Url};
use crate::text::{chars_of, views};
use crate::utils::validator::{regex_is_match, regex_search};
use vstd::prelude::*;

pub mod copy;
pub mod du;
pub mod list;

verus! {

/// Why the values given on the command line cannot be used.
#[derive(Clone, Copy, Debug, PartialEq, Eq, Structural)]
pub enum ArgError {
    /// The delimiter is not a single character.
    InvalidDelimiter,
    /// A prefix is required and none was given.
    MissingPrefix,
    /// The prefix is no address of a bucket or prefix.
    InvalidPrefix,
    /// Neither a profile nor an access key was given.
    MissingAccessKey,
    /// Neither a profile nor a secret key was given.
    MissingSecretKey,
    /// An exclude pattern is no regular expression.
    InvalidExclude,
    /// A path that is required was not given.
    MissingPath,
    /// Neither the source nor the destination is an address of the store.
    NoS3Url,
}

impl ArgError {
    /// The message shown for this error.
    pub open spec fn text(self) -> Seq<char> {
        match self {
            ArgError::InvalidDelimiter => "Delimiter is not a valid char"@,
            ArgError::MissingPrefix => "Prefix is required"@,
            ArgError::InvalidPrefix => "Prefix must be a valid s3 url"@,
            ArgError::MissingAccessKey => "Access key is required"@,
            ArgError::MissingSecretKey => "Secret key is required"@,
            ArgError::InvalidExclude => "Exclude pattern is not a valid regular expression"@,
            ArgError::MissingPath => "Path is required"@,
            ArgError::NoS3Url => "At least one of the FROM or TO paths must be a valid s3 URL"@,
        }
    }

    /// The message shown for this error.
    pub fn to_string(&self) -> (s: String)
        ensures
            s@ == self.text(),
    {
        match self {
            ArgError::InvalidDelimiter => String::from_str("Delimiter is not a valid char"),
            ArgError::MissingPrefix => String::from_str("Prefix is required"),
            ArgError::InvalidPrefix => String::from_str("Prefix must be a valid s3 url"),
            ArgError::MissingAccessKey => String::from_str("Access key is required"),
            ArgError::MissingSecretKey => String::from_str("Secret key is required"),
            ArgError::InvalidExclude => String::from_str(
                "Exclude pattern is not a valid regular expression",
            ),
            ArgError::MissingPath => String::from_str("Path is required"),
            ArgError::NoS3Url => String::from_str(
                "At least one of the FROM or TO paths must be a valid s3 URL",
            ),
        }
    }
}

/// The delimiter used where none is given.
pub const DEFAULT_DELIMITER: char = '/';

/// The delimiter that the given text stands for: the text has to be a single
/// character; without a text it is `/`.
pub open spec fn delimiter_of(given: Option<Seq<char>>) -> Result<char, ArgError> {
    match given {
        None => Ok(DEFAULT_DELIMITER),
        Some(d) => if d.len() == 1 {
            Ok(d[0])
        } else {
            Err(ArgError::InvalidDelimiter)
        },
    }
}

/// The view of an optional reference to a string.
pub open spec fn given_text(s: Option<&String>) -> Option<Seq<char>> {
    match s {
        Some(t) => Some(t@),
        None => None,
    }
}

/// The delimiter to split paths with.
pub fn parse_delimiter(given: Option<&String>) -> (r: Result<char, ArgError>)
    ensures
        r == delimiter_of(given_text(given)),
{
    match given {
        None => Ok(DEFAULT_DELIMITER),
        Some(d) => {
            let chars = chars_of(d.as_str());
            if chars.len() == 1 {
                Ok(chars[0])
            } else {
                Err(ArgError::InvalidDelimiter)
            }
        },
    }
}

/// What a given prefix stands for: it has to be an address of the store, and
/// it may be left out only where `optional` is set.
pub open spec fn prefix_of_given(given: Option<Seq<char>>, optional: bool) -> Result<
    Option<Seq<char>>,
    ArgError,
> {
    match given {
        None => if optional {
            Ok(None)
        } else {
            Err(ArgError::MissingPrefix)
        },
        Some(p) => if is_s3url_text(p) {
            Ok(Some(p))
        } else {
            Err(ArgError::InvalidPrefix)
        },
    }
}

/// The prefix to list.
pub fn parse_prefix(given: Option<&String>, optional: bool) -> (r: Result<Option<String>, ArgError>)
    ensures
        match r {
            Ok(p) => prefix_of_given(given_text(given), optional) == Ok::<
                Option<Seq<char>>,
                ArgError,
            >(crate::text::text_of(p)),
            Err(e) => prefix_of_given(given_text(given), optional) == Err::<
                Option<Seq<char>>,
                ArgError,
            >(e),
        },
{
    match given {
        None => {
            if optional {
                Ok(None)
            } else {
                Err(ArgError::MissingPrefix)
            }
        },
        Some(p) => {
            if ParsedS3Url::is_s3url(p.as_str()) {
                Ok(Some(p.clone()))
            } else {
                Err(ArgError::InvalidPrefix)
            }
        },
    }
}

/// Whether `pattern` is a regular expression.
pub open spec fn pattern_compiles(pattern: Seq<char>) -> bool {
    regex_search(pattern, Seq::<char>::empty()) is Some
}

/// Whether every one of `patterns` is a regular expression.
pub open spec fn all_compile(patterns: Seq<Seq<char>>) -> bool {
    forall|i: int| 0 <= i < patterns.len() ==> pattern_compiles(#[trigger] patterns[i])
}

/// The exclude patterns, once each of them is known to be a regular
/// expression. Fails with `InvalidExclude` where one of them is not.
pub fn parse_exclude(given: &Vec<String>) -> (r: Result<Vec<String>, ArgError>)
    ensures
        match r {
            Ok(patterns) => views(patterns@) == views(given@) && all_compile(views(given@)),
            Err(e) => e == ArgError::InvalidExclude && !all_compile(views(given@)),
        },
{
    let mut patterns: Vec<String> = Vec::new();
    let mut i: usize = 0;
    while i < given.len()
        invariant
            i <= given.len(),
            patterns@.len() == i,
            forall|j: int| 0 <= j < i ==> (#[trigger] patterns@[j])@ == given@[j]@,
            all_compile(views(given@).take(i as int)),
        decreases given.len() - i,
    {
        proof {
            reveal_strlit("");
        }
        assert(""@ =~= Seq::<char>::empty());
        if regex_is_match(given[i].as_str(), "").is_none() {
            assert(!pattern_compiles(views(given@)[i as int]));
            return Err(ArgError::InvalidExclude);
        }
        patterns.push(given[i].clone());
        assert forall|j: int| 0 <= j < i + 1 implies pattern_compiles(
            #[trigger] views(given@).take(i + 1)[j],
        ) by {
            if j < i {
                assert(views(given@).take(i as int)[j] == views(given@)[j]);
            }
        }
        i = i + 1;
    }
    assert(views(given@).take(given.len() as int) == views(given@));
    assert(views(patterns@) =~= views(given@));
    Ok(patterns)
}

/// The credentials held by the profile called `name`. Fails with `NotFound`
/// where the store holds no such profile.
pub fn credentials_from_profile(profiles: &ProfileSet, name: &str) -> (r: Result<
    Credentials,
    ProfileError,
>)
    ensures
        match r {
            Ok(c) => store_has(profiles@, name@) && c.access_key@ == store_get(
                profiles@,
                name@,
            ).value_or_empty(access_key_id()) && c.secret_key@ == store_get(
                profiles@,
                name@,
            ).value_or_empty(secret_access_key()),
            Err(e) => !store_has(profiles@, name@) && e == ProfileError::NotFound,
        },
{
    match profiles.get(name) {
        Some(profile) => profile.get_creds(),
        None => Err(ProfileError::NotFound),
    }
}

/// The credentials given as a pair of keys. Fails where one of them is
/// missing, the access key first.
pub fn credentials_from_keys(access_key: Option<&String>, secret_key: Option<&String>) -> (r:
    Result<Credentials, ArgError>)
    ensures
        match r {
            Ok(c) => given_text(access_key) == Some(c.access_key@) && given_text(secret_key)
                == Some(c.secret_key@),
            Err(e) => if access_key is None {
                e == ArgError::MissingAccessKey
            } else {
                secret_key is None && e == ArgError::MissingSecretKey
            },
        },
{
    match access_key {
        None => Err(ArgError::MissingAccessKey),
        Some(access) => match secret_key {
            None => Err(ArgError::MissingSecretKey),
            Some(secret) => Ok(Credentials::new(access.clone(), secret.clone())),
        },
    }
}

/// The value of a switch, or `default` where it was not given.
pub fn flag_or(given: Option<bool>, default: bool) -> (r: bool)
    ensures
        r == match given {
            Some(b) => b,
            None => default,
        },
{
    match given {
        Some(b) => b,
        None => default,
    }
}

} // verus!
