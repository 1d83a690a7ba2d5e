//! The options of the list command.

use crate::commands::{
    all_compile, delimiter_of, flag_or, given_text, parse_delimiter, parse_exclude,
    parse_prefix, prefix_of_given, ArgError,
};
use crate::text::views;
use crate::text::text_of;
use vstd::prelude::*;

verus! {

/// The options of the list command.
#[derive(Clone, Debug)]
pub struct ListOpts {
    pub verbose: bool,
    pub recursive: bool,
    pub show_progress: bool,
    pub human_readable: bool,
    pub delimiter: char,
    /// The path to list; without one the buckets are listed.
    pub path: Option<String>,
    /// Patterns of keys to leave out, each a regular expression.
    pub exclude: Vec<String>,
}

impl ListOpts {
    /// The options that the given values stand for. Switches that were not
    /// given are off, but for the progress display and the human-readable
    /// sizes, which are on. The delimiter is checked first, then the path,
    /// which may be left out, then the exclude patterns.
    pub fn from_values(
        verbose: Option<bool>,
        recursive: Option<bool>,
        show_progress: Option<bool>,
        human_readable: Option<bool>,
        delimiter: Option<&String>,
        path: Option<&String>,
        exclude: &Vec<String>,
    ) -> (r: Result<ListOpts, ArgError>)
        ensures
            match r {
                Ok(opts) => {
                    &&& opts.verbose == (verbose == Some(true))
                    &&& opts.recursive == (recursive == Some(true))
                    &&& opts.show_progress == (show_progress != Some(false))
                    &&& opts.human_readable == (human_readable != Some(false))
                    &&& delimiter_of(given_text(delimiter)) == Ok::<char, ArgError>(opts.delimiter)
                    &&& prefix_of_given(given_text(path), true) == Ok::<
                        Option<Seq<char>>,
                        ArgError,
                    >(text_of(opts.path))
                    &&& views(opts.exclude@) == views(exclude@)
                    &&& all_compile(views(exclude@))
                },
                Err(e) => match delimiter_of(given_text(delimiter)) {
                    Err(d) => e == d,
                    Ok(_) => match prefix_of_given(given_text(path), true) {
                        Err(p) => e == p,
                        Ok(_) => e == ArgError::InvalidExclude && !all_compile(views(exclude@)),
                    },
                },
            },
    {
        let character = match parse_delimiter(delimiter) {
            Ok(d) => d,
            Err(e) => {
                return Err(e);
            },
        };
        let listed = match parse_prefix(path, true) {
            Ok(p) => p,
            Err(e) => {
                return Err(e);
            },
        };
        let patterns = match parse_exclude(exclude) {
            Ok(x) => x,
            Err(e) => {
                return Err(e);
            },
        };
        let opts = ListOpts {
            verbose: flag_or(verbose, false),
            recursive: flag_or(recursive, false),
            show_progress: flag_or(show_progress, true),
            human_readable: flag_or(human_readable, true),
            delimiter: character,
            path: listed,
            exclude: patterns,
        };
        Ok(opts)
    }
}

} // verus!
