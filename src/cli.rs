//! Choices of the command-line front end that do not depend on a terminal.
use vstd::prelude::*;

verus! {

/// How a response is printed.
#[derive(Clone, Copy, Debug, PartialEq, Eq, Structural)]
pub enum OutputFormat {
    /// The full JSON response.
    Json,
    /// Tab-separated lines.
    Raw,
    /// A table.
    Table,
}

/// The output switches that every subcommand takes.
#[derive(Clone, Copy, Debug, PartialEq, Eq, Structural, Default)]
pub struct SubcommandBaseModifiers {
    /// Print the full JSON response from the server.
    pub json: bool,
    /// Print the raw output instead of a table.
    pub raw: bool,
}

impl SubcommandBaseModifiers {
    /// The output format the switches select: JSON, raw or (with neither) a
    /// table. The two switches exclude each other: with both, there is none.
    pub fn output_format(&self) -> (r: Option<OutputFormat>)
        ensures
            r == (if self.json && self.raw {
                None
            } else if self.json {
                Some(OutputFormat::Json)
            } else if self.raw {
                Some(OutputFormat::Raw)
            } else {
                Some(OutputFormat::Table)
            }),
    {
        if self.json && self.raw {
            None
        } else if self.json {
            Some(OutputFormat::Json)
        } else if self.raw {
            Some(OutputFormat::Raw)
        } else {
            Some(OutputFormat::Table)
        }
    }
}

} // verus!
