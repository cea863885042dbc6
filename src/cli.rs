use vstd::prelude::*;

verus! {

/// How a schema is shown.
#[derive(Debug, Clone, Copy, PartialEq, Eq)]
pub enum SchemaFormat {
    Raw,
    Tree,
}

/// How rows are shown, as the command line offers it.
#[derive(Debug, Clone, Copy, PartialEq, Eq)]
pub enum OutputFormat {
    Table,
    Ndjson,
}

/// A parsed command line.
#[derive(Debug, Clone)]
pub struct Cli {
    pub command: Commands,
}

/// The commands of the viewer.
#[derive(Debug, Clone)]
pub enum Commands {
    /// Show the metadata of each file.
    Metadata { files: Vec<String> },
    /// Show the schema of each file.
    Schema { files: Vec<String>, format: SchemaFormat },
    /// Show rows of one file: an optional projection, a row limit (0 for
    /// none), a display format, a cell width limit (0 for none) and
    /// optional sort tokens.
    View {
        file: String,
        columns: Option<Vec<String>>,
        limit: usize,
        format: OutputFormat,
        truncate: usize,
        sort: Option<Vec<String>>,
    },
}

} // verus!
