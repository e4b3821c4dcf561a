//! The blocks that a chapter is flattened into.

use vstd::prelude::*;
use crate::style::{styling_fits, Styling};

verus! {

/// One block of a chapter. A heading, a paragraph and a quote carry their
/// flattened text and the style index over it.
#[derive(Debug)]
pub enum Content {
    Header(String, Styling),
    Paragraph(String, Styling),
    Quote(String, Styling),
    Image,
}

impl Content {
    /// Whether the block carries text.
    pub open spec fn has_text(self) -> bool {
        !(self is Image)
    }

    /// The text of a block that carries one.
    pub open spec fn text(self) -> Seq<char> {
        match self {
            Content::Header(t, _) => t@,
            Content::Paragraph(t, _) => t@,
            Content::Quote(t, _) => t@,
            Content::Image => Seq::empty(),
        }
    }

    /// The style index of a block that carries text.
    pub open spec fn styling(self) -> Styling {
        match self {
            Content::Header(_, y) => y,
            Content::Paragraph(_, y) => y,
            Content::Quote(_, y) => y,
            Content::Image => arbitrary(),
        }
    }

    /// The style index of the block fits its text.
    pub open spec fn wf(self) -> bool {
        self.has_text() ==> styling_fits(self.text(), self.styling())
    }
}

} // verus!
