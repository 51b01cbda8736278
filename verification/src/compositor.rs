//! The text-placement vocabulary of composed pages: how a text element is
//! anchored and aligned, and in which font family and weight it is set.

use vstd::prelude::*;

verus! {

/// Which point of a text run its x coordinate names.
#[derive(Debug, Clone, Copy, PartialEq, Eq, Structural)]
pub enum TextAnchor {
    Start,
    Middle,
    End,
}

/// Which line of a text run its y coordinate names.
#[derive(Debug, Clone, Copy, PartialEq, Eq, Structural)]
pub enum DominantBaseline {
    Middle,
    Hanging,
    Ideographic,
}

#[derive(Debug, Clone, Copy, PartialEq, Eq, Structural)]
pub enum FontFamily {
    Monospace,
    SansSerif,
}

#[derive(Debug, Clone, Copy, PartialEq, Eq, Structural)]
pub enum FontWeight {
    Normal,
    Bold,
}

} // verus!
