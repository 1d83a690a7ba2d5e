//! The options of the copy command.

use crate::commands::{
    all_compile, delimiter_of, flag_or, given_text, parse_delimiter, parse_exclude, ArgError,
};
use crate::text::views;
use crate::s3::{is_s3url_text, ParsedS3Url};
use vstd::prelude::*;

verus! {

/// The options of the copy command.
#[derive(Clone, Debug)]
pub struct CopyOpts {
    pub verbose: bool,
    pub show_progress: bool,
    pub recursive: bool,
    pub delimiter: char,
    pub from: String,
    pub to: String,
    /// Patterns of keys to leave out, each a regular expression.
    pub exclude: Vec<String>,
}

/// Whether one of `paths` at least is an address of the store.
pub open spec fn some_s3url(paths: Seq<String>) -> bool {
    exists|i: int| 0 <= i < paths.len() && is_s3url_text(#[trigger] paths[i]@)
}

/// Whether one of `paths` at least is an address of the store.
pub fn has_least_one_s3url(paths: &Vec<String>) -> (r: bool)
    ensures
        r == some_s3url(paths@),
{
    let mut i: usize = 0;
    while i < paths.len()
        invariant
            i <= paths.len(),
            forall|j: int| 0 <= j < i ==> !is_s3url_text(#[trigger] paths@[j]@),
        decreases paths.len() - i,
    {
        if ParsedS3Url::is_s3url(paths[i].as_str()) {
            return true;
        }
        i = i + 1;
    }
    false
}

impl CopyOpts {
    /// The options that the given values stand for. Switches that were not
    /// given are off, but for the progress display, which is on. The
    /// delimiter is checked first, then the exclude patterns, then the two
    /// paths: both are required, the source first, and one of them at least
    /// has to be an address of the store.
    pub fn from_values(
        verbose: Option<bool>,
        show_progress: Option<bool>,
        recursive: Option<bool>,
        delimiter: Option<&String>,
        exclude: &Vec<String>,
        from: Option<&String>,
        to: Option<&String>,
    ) -> (r: Result<CopyOpts, ArgError>)
        ensures
            match r {
                Ok(opts) => {
                    &&& opts.verbose == (verbose == Some(true))
                    &&& opts.show_progress == (show_progress != Some(false))
                    &&& opts.recursive == (recursive == Some(true))
                    &&& delimiter_of(given_text(delimiter)) == Ok::<char, ArgError>(opts.delimiter)
                    &&& views(opts.exclude@) == views(exclude@)
                    &&& all_compile(views(exclude@))
                    &&& given_text(from) == Some(opts.from@)
                    &&& given_text(to) == Some(opts.to@)
                    &&& is_s3url_text(opts.from@) || is_s3url_text(opts.to@)
                },
                Err(e) => match delimiter_of(given_text(delimiter)) {
                    Err(d) => e == d,
                    Ok(_) => if e == ArgError::InvalidExclude {
                        !all_compile(views(exclude@))
                    } else if e == ArgError::MissingPath {
                        from is None || to is None
                    } else {
                        &&& e == ArgError::NoS3Url
                        &&& from matches Some(f)
                        &&& to matches Some(t)
                        &&& !is_s3url_text(f@)
                        &&& !is_s3url_text(t@)
                    },
                },
            },
    {
        let delimiter = match parse_delimiter(delimiter) {
            Ok(d) => d,
            Err(e) => {
                return Err(e);
            },
        };
        let exclude = match parse_exclude(exclude) {
            Ok(x) => x,
            Err(e) => {
                return Err(e);
            },
        };
        let from = match from {
            Some(f) => f.clone(),
            None => {
                return Err(ArgError::MissingPath);
            },
        };
        let to = match to {
            Some(t) => t.clone(),
            None => {
                return Err(ArgError::MissingPath);
            },
        };
        let mut paths: Vec<String> = Vec::new();
        paths.push(from.clone());
        paths.push(to.clone());
        if !has_least_one_s3url(&paths) {
            assert(!is_s3url_text(paths@[0]@));
            assert(!is_s3url_text(paths@[1]@));
            return Err(ArgError::NoS3Url);
        }
        assert(is_s3url_text(from@) || is_s3url_text(to@)) by {
            let i = choose|i: int| 0 <= i < paths@.len() && is_s3url_text(#[trigger] paths@[i]@);
            assert(i == 0 || i == 1);
        }
        Ok(
            CopyOpts {
                verbose: flag_or(verbose, false),
                show_progress: flag_or(show_progress, true),
                recursive: flag_or(recursive, false),
                delimiter,
                from,
                to,
                exclude,
            },
        )
    }
}

} // verus!
