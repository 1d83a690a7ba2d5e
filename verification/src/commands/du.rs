//! The options of the disk-usage command.

use crate::commands::{
    delimiter_of, flag_or, given_text, parse_delimiter, parse_prefix, prefix_of_given, ArgError,
};
use vstd::prelude::*;

verus! {

/// The options of the disk-usage command.
#[derive(Clone, Debug)]
pub struct DuOpts {
    pub verbose: bool,
    pub show_total: bool,
    pub show_progress: bool,
    pub human_readable: bool,
    pub delimiter: char,
    pub prefix: String,
}

impl DuOpts {
    /// The options that the given values stand for. Switches that were not
    /// given are off, but for the progress display and the human-readable
    /// sizes, which are on. The delimiter is checked first, then the prefix,
    /// which is required.
    pub fn from_values(
        verbose: Option<bool>,
        show_total: Option<bool>,
        show_progress: Option<bool>,
        human_readable: Option<bool>,
        delimiter: Option<&String>,
        prefix: Option<&String>,
    ) -> (r: Result<DuOpts, ArgError>)
        ensures
            match r {
                Ok(opts) => {
                    &&& opts.verbose == (verbose == Some(true))
                    &&& opts.show_total == (show_total == Some(true))
                    &&& opts.show_progress == (show_progress != Some(false))
                    &&& opts.human_readable == (human_readable != Some(false))
                    &&& delimiter_of(given_text(delimiter)) == Ok::<char, ArgError>(opts.delimiter)
                    &&& prefix_of_given(given_text(prefix), false) == Ok::<
                        Option<Seq<char>>,
                        ArgError,
                    >(Some(opts.prefix@))
                },
                Err(e) => match delimiter_of(given_text(delimiter)) {
                    Err(d) => e == d,
                    Ok(_) => prefix_of_given(given_text(prefix), false) == Err::<
                        Option<Seq<char>>,
                        ArgError,
                    >(e),
                },
            },
    {
        let delimiter = match parse_delimiter(delimiter) {
            Ok(d) => d,
            Err(e) => {
                return Err(e);
            },
        };
        let prefix = match parse_prefix(prefix, false) {
            Ok(Some(p)) => p,
            Ok(None) => {
                return Err(ArgError::MissingPrefix);
            },
            Err(e) => {
                return Err(e);
            },
        };
        Ok(
            DuOpts {
                verbose: flag_or(verbose, false),
                show_total: flag_or(show_total, false),
                show_progress: flag_or(show_progress, true),
                human_readable: flag_or(human_readable, true),
                delimiter,
                prefix,
            },
        )
    }
}

} // verus!
