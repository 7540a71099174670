//! What a run reports to its log.

use vstd::prelude::*;

verus! {

/// How serious a report is.
#[derive(Clone, Copy, PartialEq, Eq, Structural, Debug)]
pub enum Level {
    Info,
    Error,
}

/// The reports that a run can make about one address.
#[derive(Clone, Copy, PartialEq, Eq, Structural, Debug)]
pub enum Notice {
    /// The destination is there already; nothing is fetched.
    Skipping,
    /// The request could not be sent or got no response.
    RequestError,
    /// The response came with a status other than 200.
    Non200,
    /// The body of the response could not be read.
    BodyError,
    /// The destination file could not be created.
    CreateError,
    /// The body could not be written to the destination file.
    WriteError,
    /// The address names no file, so it has no destination.
    NoFileName,
}

impl Notice {
    /// A skipped download is information; everything else is an error.
    pub open spec fn spec_level(self) -> Level {
        if self == Notice::Skipping {
            Level::Info
        } else {
            Level::Error
        }
    }

    /// The words that a report of this kind begins with.
    pub open spec fn spec_text(self) -> Seq<char> {
        match self {
            Notice::Skipping => "skipping"@,
            Notice::RequestError => "request error"@,
            Notice::Non200 => "none 200 resp on"@,
            Notice::BodyError => "unable to parse bytes"@,
            Notice::CreateError => "unable to create file"@,
            Notice::WriteError => "unable to write file"@,
            Notice::NoFileName => "unable to make a file name for"@,
        }
    }

    /// The level at which this report is logged.
    #[verifier::when_used_as_spec(spec_level)]
    pub fn level(self) -> (level: Level)
        ensures
            level == self.spec_level(),
    {
        match self {
            Notice::Skipping => Level::Info,
            _ => Level::Error,
        }
    }

    /// The words that a report of this kind begins with; what it is about
    /// follows them in the log.
    pub fn text(self) -> (text: &'static str)
        ensures
            text@ == self.spec_text(),
    {
        match self {
            Notice::Skipping => "skipping",
            Notice::RequestError => "request error",
            Notice::Non200 => "none 200 resp on",
            Notice::BodyError => "unable to parse bytes",
            Notice::CreateError => "unable to create file",
            Notice::WriteError => "unable to write file",
            Notice::NoFileName => "unable to make a file name for",
        }
    }
}

} // verus!
