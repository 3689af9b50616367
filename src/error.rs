use vstd::prelude::*;

verus! {

/// The piece of text that failed to parse.
#[derive(Clone, Copy, Debug, PartialEq, Eq, Structural)]
pub enum Field {
    Date,
    Price,
    Quantity,
    ProductId,
}

/// Why an extraction failed. Every failure aborts the whole extraction.
#[derive(Clone, Copy, Debug, PartialEq, Eq, Structural)]
pub enum ScrapeError {
    /// The browser could not navigate or interact with the page.
    Navigation,
    /// An element that the page layout requires is absent.
    ElementNotFound,
    /// A text did not have the expected format.
    Parse(Field),
    /// A date range whose start lies after its end.
    Range,
}

} // verus!
