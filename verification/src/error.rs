//! Errors of the parsers.

use vstd::prelude::*;

verus! {

/// Why a page could not be parsed.
#[derive(Debug, Clone, Copy, PartialEq, Eq, Structural)]
pub enum ParseError {
    /// One of the library's CSS selectors did not compile.
    InvalidSelector,
    /// The records page of an athlete holds no `div.list-athlete-results`.
    MissingResultsList,
    /// Neither `h3.no-margin-bottom` nor `.title` is on an athlete's page.
    MissingAthleteName,
    /// A cell that opens a category group in the competition table has
    /// `rowspan="0"`; the table cannot be walked past it.
    ZeroRowspan,
}

impl ParseError {
    /// A sentence that says what went wrong.
    pub fn message(&self) -> (r: String)
        ensures
            r@ == match self {
                ParseError::InvalidSelector => "a CSS selector did not compile"@,
                ParseError::MissingResultsList => "no div.list-athlete-results found"@,
                ParseError::MissingAthleteName => "could not find athlete name in mobile profile"@,
                ParseError::ZeroRowspan => "a category cell has rowspan 0"@,
            },
    {
        match self {
            ParseError::InvalidSelector => String::from_str("a CSS selector did not compile"),
            ParseError::MissingResultsList => String::from_str("no div.list-athlete-results found"),
            ParseError::MissingAthleteName => String::from_str(
                "could not find athlete name in mobile profile",
            ),
            ParseError::ZeroRowspan => String::from_str("a category cell has rowspan 0"),
        }
    }
}

} // verus!
