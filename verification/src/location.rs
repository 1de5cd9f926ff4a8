//! The source location a reported import points at.

use vstd::prelude::*;

verus! {

/// A place in a source file: 1-based line and column, plus the rule
/// identifiers suppressed by an inline `deptry: ignore` comment on that
/// line. A bare `deptry: ignore` with no bracketed codes yields the single
/// sentinel entry `*`, meaning every rule is suppressed here.
///
/// `line` and `column` are `None` only when a location cannot be computed;
/// the functions of this crate always fill them in.
#[derive(Clone, Debug)]
pub struct Location {
    pub file: Vec<u8>,
    pub line: Option<usize>,
    pub column: Option<usize>,
    pub suppressed_rules: Vec<Vec<u8>>,
}

/// Mathematical image of a `Location`.
pub struct LocationV {
    pub file: Seq<u8>,
    pub line: Option<usize>,
    pub column: Option<usize>,
    pub suppressed_rules: Seq<Seq<u8>>,
}

impl DeepView for Location {
    type V = LocationV;

    open spec fn deep_view(&self) -> LocationV {
        LocationV {
            file: self.file.deep_view(),
            line: self.line,
            column: self.column,
            suppressed_rules: self.suppressed_rules.deep_view(),
        }
    }
}

impl Location {
    pub fn new(
        file: Vec<u8>,
        line: Option<usize>,
        column: Option<usize>,
        suppressed_rules: Vec<Vec<u8>>,
    ) -> (r: Location)
        ensures
            r.deep_view() == (LocationV {
                file: file.deep_view(),
                line,
                column,
                suppressed_rules: suppressed_rules.deep_view(),
            }),
    {
        Location { file, line, column, suppressed_rules }
    }
}

} // verus!
