use vstd::prelude::*;

verus! {

/// Every way a sorted view can fail.
#[derive(Debug, Clone, PartialEq, Eq)]
pub enum ViewError {
    /// A sort token was empty.
    EmptySortSpec,
    /// A `column:order` token named an order other than asc/ascending/desc/descending.
    /// Holds the order text as written.
    InvalidSortOrder(String),
    /// A sort or projection column is absent from the schema.
    ColumnNotFound(String),
    /// A sort column is absent from the requested projection.
    SortColumnNotInSelection(String),
    /// The file name carries no known container extension. Holds the path.
    UnsupportedFileType(String),
    /// The sort kernel reported a failure.
    EngineExecution,
}

/// What an error says, over plain text.
pub enum ErrorView {
    EmptySortSpec,
    InvalidSortOrder(Seq<char>),
    ColumnNotFound(Seq<char>),
    SortColumnNotInSelection(Seq<char>),
    UnsupportedFileType(Seq<char>),
    EngineExecution,
}

impl ViewError {
    pub open spec fn view(&self) -> ErrorView {
        match self {
            ViewError::EmptySortSpec => ErrorView::EmptySortSpec,
            ViewError::InvalidSortOrder(s) => ErrorView::InvalidSortOrder(s@),
            ViewError::ColumnNotFound(s) => ErrorView::ColumnNotFound(s@),
            ViewError::SortColumnNotInSelection(s) => ErrorView::SortColumnNotInSelection(s@),
            ViewError::UnsupportedFileType(s) => ErrorView::UnsupportedFileType(s@),
            ViewError::EngineExecution => ErrorView::EngineExecution,
        }
    }
}

} // verus!
