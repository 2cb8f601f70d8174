//! Conditions that are reported and do not stop the work.

use vstd::prelude::*;

verus! {

/// Something in the input that was passed over.
#[derive(Debug, Clone, PartialEq, Eq)]
pub enum Warning {
    /// A reference was written down, but no issue could be read from it.
    MalformedReference {
        /// What stood where the reference was looked for.
        text: String,
        /// The title of the item that holds the reference.
        context: String,
    },
    /// The repository of an issue could not be read from its URL.
    UnparseableRepository {
        /// The URL of the issue.
        url: String,
    },
}

/// A `Warning` as a plain value.
pub enum WarningView {
    MalformedReference { text: Seq<char>, context: Seq<char> },
    UnparseableRepository { url: Seq<char> },
}

impl View for Warning {
    type V = WarningView;

    open spec fn view(&self) -> WarningView {
        match self {
            Warning::MalformedReference { text, context } => WarningView::MalformedReference {
                text: text@,
                context: context@,
            },
            Warning::UnparseableRepository { url } => WarningView::UnparseableRepository {
                url: url@,
            },
        }
    }
}

/// The plain values of a sequence of warnings.
pub open spec fn warning_views(warnings: Seq<Warning>) -> Seq<WarningView> {
    warnings.map_values(|w: Warning| w@)
}

} // verus!
