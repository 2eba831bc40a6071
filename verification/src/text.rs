//! How the large text in the middle of the screen changes while the
//! opponent speaks.

use vstd::prelude::*;

verus! {

/// The colours in which the opponent's words are shown.
#[derive(Clone, Copy, Debug, PartialEq, Eq, Structural)]
pub enum TextColour {
    Grey,
    Red,
}

/// A change of the text on the screen: `words` are added to what stands
/// there (`append`) or take its place, and the colour changes where one
/// is given.
#[derive(Clone, Copy, Debug)]
pub struct TextEdit {
    pub words: &'static str,
    pub append: bool,
    pub colour: Option<TextColour>,
}

} // verus!
