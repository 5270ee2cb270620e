//! Output formatting: the output format switch, path shortening for text
//! output, and the text rendering of a parsed file's symbols.

pub mod path_alias;
pub mod text;

use vstd::prelude::*;

use crate::text::{lowercase, str_eq, to_lower};

verus! {

/// Output format selection.
#[derive(Debug, Clone, Copy, PartialEq, Eq, Structural)]
pub enum OutputFormat {
    Text,
    Json,
}

impl OutputFormat {
    /// `json` in any letter case selects JSON; anything else selects text.
    pub fn from_name(s: &str) -> (r: OutputFormat)
        ensures
            r == (if lowercase(s@) == "json"@ { OutputFormat::Json } else { OutputFormat::Text }),
    {
        let l = to_lower(s);
        if str_eq(l.as_str(), "json") {
            OutputFormat::Json
        } else {
            OutputFormat::Text
        }
    }
}

impl std::str::FromStr for OutputFormat {
    type Err = std::convert::Infallible;

    fn from_str(s: &str) -> Result<Self, Self::Err> {
        Ok(OutputFormat::from_name(s))
    }
}

} // verus!
