//! Addresses of buckets and prefixes, and the plain records exchanged with
//! the object store.

use crate::s3::content::S3File;
use crate::text::{
    buffers, chars_of, copy_range, find_from, first_index, lemma_first_index, lemma_has_item,
    lemma_segments_clean, lemma_segments_of_delimiters, segments, split_segments, starts_with,
    string_of, string_of_range, views,
};
use crate::utils::validator::{pattern_matches, regex_is_match};
use vstd::prelude::*;

pub mod bucket;
pub mod content;
pub mod credentials;
pub mod paging;
pub mod placement;
pub mod profile;
pub mod roundtrip;
pub mod walks;

verus! {

/// One page of a listing as the store returns it.
#[derive(Debug)]
pub struct ListObjectsResult {
    /// The records of this page, if the store sent any.
    pub objects: Option<Vec<S3File>>,
    /// The common prefixes of this page, if a delimiter was asked for.
    pub common_prefixes: Option<Vec<String>>,
    /// The marker to send with the next request.
    pub continuation_token: Option<String>,
    /// Whether the store holds more pages.
    pub has_more: bool,
}

/// Why a text is no address of a bucket or prefix.
#[derive(Clone, Copy, Debug, PartialEq, Eq, Structural)]
pub enum UrlParseError {
    /// The text does not start with the scheme or does not match the address
    /// grammar.
    InvalidScheme,
    /// Nothing stands between the scheme and the first delimiter.
    MissingBucket,
}

impl UrlParseError {
    /// The message shown for this error.
    pub open spec fn text(self) -> Seq<char> {
        match self {
            UrlParseError::InvalidScheme => "Not a valid S3 URL"@,
            UrlParseError::MissingBucket => "Bucket name is required"@,
        }
    }

    /// The message shown for this error.
    pub fn to_string(&self) -> (s: String)
        ensures
            s@ == self.text(),
    {
        match self {
            UrlParseError::InvalidScheme => String::from_str("Not a valid S3 URL"),
            UrlParseError::MissingBucket => String::from_str("Bucket name is required"),
        }
    }
}

/// The expression an address has to match.
pub const S3URL_PATTERN: &'static str = "^s3://([0-9a-zA-Z!\\-_.*'()]+/?)*";

/// The scheme every address starts with: `s3://`.
pub open spec fn scheme() -> Seq<char> {
    seq!['s', '3', ':', '/', '/']
}

/// Whether `url` is an address: it starts with the scheme and matches
/// `S3URL_PATTERN`.
pub open spec fn is_s3url_text(url: Seq<char>) -> bool {
    scheme().is_prefix_of(url) && pattern_matches(S3URL_PATTERN@, url)
}

/// A bucket name and the path segments below it.
pub struct UrlModel {
    pub bucket: Seq<char>,
    pub segments: Seq<Seq<char>>,
}

impl UrlModel {
    /// The bucket name is non-empty, no segment is empty, and none of them
    /// holds the delimiter.
    pub open spec fn wf(self, delimiter: char) -> bool {
        &&& self.bucket.len() > 0
        &&& !self.bucket.contains(delimiter)
        &&& forall|k: int|
            0 <= k < self.segments.len() ==> (#[trigger] self.segments[k]).len() > 0
                && !self.segments[k].contains(delimiter)
    }
}

/// The segments that follow position `i` of `rest`; none where `i` is the end.
pub open spec fn segments_after(rest: Seq<char>, i: int, delimiter: char) -> Seq<Seq<char>> {
    if 0 <= i < rest.len() {
        segments(rest.skip(i + 1), delimiter)
    } else {
        Seq::<Seq<char>>::empty()
    }
}

/// What an address that passed the grammar check decomposes into: the text
/// after the scheme up to the first delimiter is the bucket, the non-empty
/// pieces after it are the segments.
pub open spec fn split_address(url: Seq<char>, delimiter: char) -> Result<UrlModel, UrlParseError> {
    let rest = url.skip(scheme().len() as int);
    let i = first_index(rest, delimiter);
    if i == 0 {
        Err(UrlParseError::MissingBucket)
    } else {
        Ok(UrlModel { bucket: rest.take(i), segments: segments_after(rest, i, delimiter) })
    }
}

/// What parsing gives when `grammar_ok` says whether `url` matches
/// `S3URL_PATTERN`.
pub open spec fn parse_checked_text(url: Seq<char>, delimiter: char, grammar_ok: bool) -> Result<
    UrlModel,
    UrlParseError,
> {
    if !(scheme().is_prefix_of(url) && grammar_ok) {
        Err(UrlParseError::InvalidScheme)
    } else {
        split_address(url, delimiter)
    }
}

/// What parsing `url` under `delimiter` gives.
pub open spec fn parse_text(url: Seq<char>, delimiter: char) -> Result<UrlModel, UrlParseError> {
    parse_checked_text(url, delimiter, pattern_matches(S3URL_PATTERN@, url))
}

/// Whatever parses, parses into a well-formed address.
pub proof fn lemma_parse_wf(url: Seq<char>, delimiter: char, grammar_ok: bool)
    ensures
        parse_checked_text(url, delimiter, grammar_ok) matches Ok(m) ==> m.wf(delimiter),
{
    let rest = url.skip(scheme().len() as int);
    let i = first_index(rest, delimiter);
    lemma_first_index(rest, delimiter);
    if scheme().is_prefix_of(url) && grammar_ok && i != 0 {
        if rest.take(i).contains(delimiter) {
            let j = choose|j: int| 0 <= j < rest.take(i).len() && rest.take(i)[j] == delimiter;
            assert(rest[j] != delimiter);
        }
        if i < rest.len() {
            lemma_segments_clean(rest.skip(i + 1), delimiter);
        }
    }
}

/// An address that names a bucket and nothing below it parses into that
/// bucket with no segments. Where the text after the scheme starts with
/// something other than the delimiter and holds, from its first delimiter on,
/// nothing but delimiters, the bucket is the text between the scheme and that
/// first delimiter, or all the text after the scheme where there is none.
pub proof fn lemma_parse_bucket_only(url: Seq<char>, delimiter: char)
    requires
        is_s3url_text(url),
        first_index(url.skip(scheme().len() as int), delimiter) > 0,
        forall|j: int|
            first_index(url.skip(scheme().len() as int), delimiter) <= j < url.len()
                - scheme().len() ==> url.skip(scheme().len() as int)[j] == delimiter,
    ensures
        parse_text(url, delimiter) == Ok::<UrlModel, UrlParseError>(
            UrlModel {
                bucket: url.skip(scheme().len() as int).take(
                    first_index(url.skip(scheme().len() as int), delimiter),
                ),
                segments: Seq::<Seq<char>>::empty(),
            },
        ),
        !url.skip(scheme().len() as int).contains(delimiter) ==> url.skip(
            scheme().len() as int,
        ).take(first_index(url.skip(scheme().len() as int), delimiter)) == url.skip(
            scheme().len() as int,
        ),
{
    let rest = url.skip(scheme().len() as int);
    let i = first_index(rest, delimiter);
    lemma_first_index(rest, delimiter);
    lemma_has_item(rest, delimiter);
    if i < rest.len() {
        let tail = rest.skip(i + 1);
        assert forall|j: int| 0 <= j < tail.len() implies tail[j] == delimiter by {
            assert(tail[j] == rest[j + i + 1]);
        }
        lemma_segments_of_delimiters(tail, delimiter);
    } else {
        assert(rest.take(i) == rest);
    }
}

/// An address taken apart: the bucket and the path segments below it.
#[derive(Debug)]
pub struct ParsedS3Url {
    pub bucket_name: String,
    pub segments: Vec<String>,
}

impl View for ParsedS3Url {
    type V = UrlModel;

    open spec fn view(&self) -> UrlModel {
        UrlModel { bucket: self.bucket_name@, segments: views(self.segments@) }
    }
}

/// The strings that hold the characters of each buffer.
pub fn strings_of(v: &Vec<Vec<char>>) -> (out: Vec<String>)
    ensures
        views(out@) == buffers(v@),
{
    let mut out: Vec<String> = Vec::new();
    let mut i: usize = 0;
    while i < v.len()
        invariant
            i <= v.len(),
            out@.len() == i,
            views(out@) == buffers(v@).take(i as int),
        decreases v.len() - i,
    {
        let s = string_of(&v[i]);
        let ghost before = out@;
        out.push(s);
        assert forall|j: int| 0 <= j < i + 1 implies #[trigger] views(out@)[j] == buffers(v@)[j] by {
            if j < i {
                assert(views(before)[j] == buffers(v@).take(i as int)[j]);
                assert(out@[j] == before[j]);
            }
        }
        assert(views(out@) =~= buffers(v@).take(i + 1));
        i = i + 1;
    }
    assert(buffers(v@).take(v.len() as int) =~= buffers(v@));
    out
}

impl ParsedS3Url {
    /// Whether `url` is an address: it starts with `s3://` and matches
    /// `S3URL_PATTERN`.
    pub fn is_s3url(url: &str) -> (r: bool)
        ensures
            r == is_s3url_text(url@),
    {
        let chars = chars_of(url);
        let head = chars_of("s3://");
        proof {
            reveal_strlit("s3://");
            assert(head@ =~= scheme());
        }
        starts_with(&chars, &head) && regex_is_match(S3URL_PATTERN, url) == Some(true)
    }

    /// Takes `url` apart under `delimiter`, given in `grammar_ok` whether it
    /// matches `S3URL_PATTERN`.
    ///
    /// Fails with `InvalidScheme` where `url` does not start with `s3://` or
    /// `grammar_ok` is false, and with `MissingBucket` where nothing stands
    /// between the scheme and the first delimiter.
    pub fn parse_checked(url: &String, delimiter: &char, grammar_ok: bool) -> (r: Result<
        ParsedS3Url,
        UrlParseError,
    >)
        ensures
            match r {
                Ok(p) => parse_checked_text(url@, *delimiter, grammar_ok) == Ok::<
                    UrlModel,
                    UrlParseError,
                >(p@) && p@.wf(*delimiter),
                Err(e) => parse_checked_text(url@, *delimiter, grammar_ok) == Err::<
                    UrlModel,
                    UrlParseError,
                >(e),
            },
    {
        let chars = chars_of(url.as_str());
        let head = chars_of("s3://");
        proof {
            reveal_strlit("s3://");
            assert(head@ =~= scheme());
            lemma_parse_wf(url@, *delimiter, grammar_ok);
        }
        if !(starts_with(&chars, &head) && grammar_ok) {
            return Err(UrlParseError::InvalidScheme);
        }
        let rest = copy_range(&chars, 5, chars.len());
        assert(rest@ == url@.skip(scheme().len() as int));
        let i = find_from(&rest, 0, *delimiter);
        assert(rest@.skip(0) == rest@);
        if i == 0 {
            return Err(UrlParseError::MissingBucket);
        }
        let bucket_name = string_of_range(&rest, 0, i);
        let segments = if i < rest.len() {
            let tail = copy_range(&rest, i + 1, rest.len());
            assert(tail@ == rest@.skip(i + 1));
            strings_of(&split_segments(&tail, *delimiter))
        } else {
            Vec::new()
        };
        assert(views(segments@) =~= segments_after(rest@, i as int, *delimiter));
        Ok(ParsedS3Url { bucket_name, segments })
    }

    /// Takes `url` apart under `delimiter`.
    ///
    /// Fails with `InvalidScheme` where `url` is no address (see `is_s3url`),
    /// and with `MissingBucket` where nothing stands between the scheme and
    /// the first delimiter.
    pub fn parse_from(url: &String, delimiter: &char) -> (r: Result<ParsedS3Url, UrlParseError>)
        ensures
            match r {
                Ok(p) => parse_text(url@, *delimiter) == Ok::<UrlModel, UrlParseError>(p@)
                    && p@.wf(*delimiter),
                Err(e) => parse_text(url@, *delimiter) == Err::<UrlModel, UrlParseError>(e),
            },
    {
        let grammar_ok = regex_is_match(S3URL_PATTERN, url.as_str()) == Some(true);
        ParsedS3Url::parse_checked(url, delimiter, grammar_ok)
    }
}

/// Who may read or write an object besides its owner.
#[derive(Clone, Copy, Debug, PartialEq, Eq, Structural)]
pub enum ACL {
    Private,
    PublicRead,
    PublicReadWrite,
    AuthenticatedRead,
    AWSExecRead,
    BucketOwnerRead,
    BucketOwnerFC,
}

impl ACL {
    /// The name under which the store knows this access rule.
    pub open spec fn text(self) -> Seq<char> {
        match self {
            ACL::Private => "private"@,
            ACL::PublicRead => "public-read"@,
            ACL::PublicReadWrite => "public-read-write"@,
            ACL::AuthenticatedRead => "authenticated-read"@,
            ACL::AWSExecRead => "aws-exec-read"@,
            ACL::BucketOwnerRead => "bucket-owner-read"@,
            ACL::BucketOwnerFC => "bucket-owner-full-control"@,
        }
    }

    /// The name under which the store knows this access rule.
    pub fn to_string(&self) -> (s: String)
        ensures
            s@ == self.text(),
    {
        match self {
            ACL::Private => String::from_str("private"),
            ACL::PublicRead => String::from_str("public-read"),
            ACL::PublicReadWrite => String::from_str("public-read-write"),
            ACL::AuthenticatedRead => String::from_str("authenticated-read"),
            ACL::AWSExecRead => String::from_str("aws-exec-read"),
            ACL::BucketOwnerRead => String::from_str("bucket-owner-read"),
            ACL::BucketOwnerFC => String::from_str("bucket-owner-full-control"),
        }
    }
}

} // verus!
