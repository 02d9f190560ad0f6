//! The file formats that a value query can be asked of.

use vstd::prelude::*;
use vstd::string::StringExecFns;

verus! {

/// A file format that can be queried.
#[derive(Clone, Copy, Debug, PartialEq, Eq, Structural)]
pub enum SupportedFiles {
    Json,
    Toml,
    Yaml,
    Csv,
}

/// The format that `name` names, if it names one: names are the lower-case
/// words `json`, `toml`, `yaml` and `csv`, and nothing else.
pub open spec fn format_named(name: Seq<char>) -> Option<SupportedFiles> {
    if name == "json"@ {
        Some(SupportedFiles::Json)
    } else if name == "toml"@ {
        Some(SupportedFiles::Toml)
    } else if name == "yaml"@ {
        Some(SupportedFiles::Yaml)
    } else if name == "csv"@ {
        Some(SupportedFiles::Csv)
    } else {
        None
    }
}

impl SupportedFiles {
    /// The format that `input` names, if it names one.
    pub fn maybe_from_str(input: &str) -> (format: Option<SupportedFiles>)
        ensures
            format == format_named(input@),
    {
        let name = String::from_str(input);
        if name == String::from_str("json") {
            Some(SupportedFiles::Json)
        } else if name == String::from_str("toml") {
            Some(SupportedFiles::Toml)
        } else if name == String::from_str("yaml") {
            Some(SupportedFiles::Yaml)
        } else if name == String::from_str("csv") {
            Some(SupportedFiles::Csv)
        } else {
            None
        }
    }
}

} // verus!
