use vstd::prelude::*;

use crate::indentation::Indentation;
use crate::new_line::NewLine;

verus! {

/// Applies the configured conversions to one line after another: the line
/// ending first, then the indentation. With neither configured a line passes
/// through as it is.
pub struct LineDriver {
    newline: Option<NewLine>,
    indentation: Option<Indentation>,
}

impl LineDriver {
    /// The line-ending target, if any.
    pub closed spec fn newline_target(self) -> Option<NewLine> {
        self.newline
    }

    /// The indentation target, if any.
    pub closed spec fn indentation_target(self) -> Option<Indentation> {
        self.indentation
    }

    /// A configured indentation target has a positive width.
    pub open spec fn wf(self) -> bool {
        self.indentation_target() is Some ==> self.indentation_target()->0.wf()
    }

    /// What one line `s` becomes.
    pub open spec fn convert(self, s: Seq<char>) -> Seq<char> {
        let ended = match self.newline_target() {
            Some(n) => n.convert(s),
            None => s,
        };
        match self.indentation_target() {
            Some(t) => t.convert(ended),
            None => ended,
        }
    }

    /// A driver with the given targets.
    pub fn new(newline: Option<NewLine>, indentation: Option<Indentation>) -> (r: LineDriver)
        requires
            indentation is Some ==> indentation->0.wf(),
        ensures
            r.newline_target() == newline,
            r.indentation_target() == indentation,
            r.wf(),
    {
        LineDriver { newline, indentation }
    }

    /// Converts one line.
    pub fn transform(&self, line: String) -> (r: String)
        requires
            self.wf(),
        ensures
            r@ == self.convert(line@),
    {
        let mut buf = line;
        match &self.newline {
            Some(n) => {
                buf = n.make_transformation(buf);
            },
            None => {},
        }
        match &self.indentation {
            Some(t) => {
                buf = t.make_transformation(buf);
            },
            None => {},
        }
        buf
    }
}

} // verus!
