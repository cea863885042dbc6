use vstd::prelude::*;
use crate::cli;

verus! {

/// The renderings of rows.
#[derive(Debug, Clone, Copy, PartialEq, Eq)]
pub enum OutputFormat {
    Table,
    Vertical,
    Ndjson,
}

/// The rendering that a command-line format selects.
pub fn render_format(format: cli::OutputFormat) -> (r: OutputFormat)
    ensures
        r == match format {
            cli::OutputFormat::Table => OutputFormat::Table,
            cli::OutputFormat::Ndjson => OutputFormat::Ndjson,
        },
{
    match format {
        cli::OutputFormat::Table => OutputFormat::Table,
        cli::OutputFormat::Ndjson => OutputFormat::Ndjson,
    }
}

} // verus!
