//! The stock recipe styles that carry no data of their own: every
//! dimension they draw on comes from the style traits' defaults, so each is
//! a unit struct whose density projection is the identity.
use vstd::prelude::*;

verus! {

/// The stock grid decoration style.
#[derive(Debug, Default, Clone, Copy)]
pub struct RecipeGridViewStyle;

/// The stock list / tree container style: the drag-insertion indicator.
#[derive(Debug, Default, Clone, Copy)]
pub struct RecipeListContainerStyle;

/// The stock rich-text editor frame.
#[derive(Debug, Default, Clone, Copy)]
pub struct RecipeRichTextEditorStyle;

/// The stock spin-box frame.
#[derive(Debug, Default, Clone, Copy)]
pub struct RecipeSpinBoxStyle;

} // verus!
