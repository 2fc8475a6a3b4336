//! Command-line commands, as the values the program acts on.
use vstd::prelude::*;

verus! {

/// The parsed command line.
#[derive(Debug)]
pub struct Cli {
    pub command: Option<Commands>,
}

/// Subcommands.
#[derive(Debug)]
#[allow(inconsistent_fields)]
pub enum Commands {
    List { json: bool, format: Option<ListFormat> },
    Kill { pid: Option<u32>, tree: bool, signal: Option<String>, all: bool, no_confirm: bool },
    Info { pid: u32 },
    Log { pid: u32 },
    Config,
}

/// Output format of `list`.
#[derive(Debug, Clone, Copy, PartialEq, Eq, Structural)]
pub enum ListFormat {
    Table,
    Csv,
    Json,
}

/// The format `list` prints in: `--json` wins, then `--format`, then a table.
pub fn effective_format(json: bool, format: Option<ListFormat>) -> (f: ListFormat)
    ensures
        f == (if json {
            ListFormat::Json
        } else {
            match format {
                Some(x) => x,
                None => ListFormat::Table,
            }
        }),
{
    if json {
        ListFormat::Json
    } else {
        match format {
            Some(x) => x,
            None => ListFormat::Table,
        }
    }
}

} // verus!
