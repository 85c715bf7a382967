//! Where the node writes its log.

use crate::text::lowercased;
use crate::text::to_lowercase;
use crate::text::trim;
use crate::text::trimmed;
use vstd::prelude::*;
use vstd::string::StringExecFns;

verus! {

/// Format of the logger.
#[derive(Debug, Clone, Copy, PartialEq, Eq, Structural)]
pub enum LogOutput {
    Stderr,
    StderrJson,
    Syslog,
}

/// The output that a word names, if it names one.
pub open spec fn output_of(word: Seq<char>) -> Option<LogOutput> {
    if word == "stderr"@ {
        Some(LogOutput::Stderr)
    } else if word == "stderr_json"@ {
        Some(LogOutput::StderrJson)
    } else if word == "syslog"@ {
        Some(LogOutput::Syslog)
    } else {
        None
    }
}

/// What is said of a word that names no output.
pub open spec fn unknown_format(word: Seq<char>) -> Seq<char> {
    "unknown format '"@ + word + "'"@
}

impl LogOutput {
    /// The output that `word` names. The word is taken as it stands: in
    /// lower case and without white space around it.
    pub fn from_word(word: &str) -> (r: Result<LogOutput, String>)
        ensures
            match r {
                Ok(output) => output_of(word@) == Some(output),
                Err(message) => output_of(word@) is None && message@ == unknown_format(word@),
            },
    {
        let given = word.to_owned();
        if given == "stderr".to_owned() {
            Ok(LogOutput::Stderr)
        } else if given == "stderr_json".to_owned() {
            Ok(LogOutput::StderrJson)
        } else if given == "syslog".to_owned() {
            Ok(LogOutput::Syslog)
        } else {
            Err("unknown format '".to_owned().concat(word).concat("'"))
        }
    }

    /// The output that `s` names once the white space around it is taken
    /// off and it is put in lower case.
    pub fn parse(s: &str) -> (r: Result<LogOutput, String>)
        ensures
            match r {
                Ok(output) => output_of(lowercased(trimmed(s@))) == Some(output),
                Err(message) => output_of(lowercased(trimmed(s@))) is None && message@
                    == unknown_format(lowercased(trimmed(s@))),
            },
    {
        let word = to_lowercase(trim(s));
        Self::from_word(word.as_str())
    }
}

impl std::str::FromStr for LogOutput {
    type Err = String;

    fn from_str(s: &str) -> (r: Result<LogOutput, String>)
        ensures
            match r {
                Ok(output) => output_of(lowercased(trimmed(s@))) == Some(output),
                Err(message) => output_of(lowercased(trimmed(s@))) is None && message@
                    == unknown_format(lowercased(trimmed(s@))),
            },
    {
        LogOutput::parse(s)
    }
}

} // verus!
