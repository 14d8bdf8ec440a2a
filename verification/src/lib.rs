//! Verified core of the Teksilo widget set: segment identities, the
//! segmented control's overflow planning and selection rules, the stepper's
//! navigation state machine, the split button's interaction states and the
//! splitter's collapse targeting.
use vstd::prelude::*;

pub mod nav;
pub mod overflow;
pub mod segment_id;
pub mod segmented;
pub mod shadow;
pub mod split_button;
pub mod splitter;
pub mod stepper;
pub mod styles;

pub use segment_id::SegmentId;
pub use segmented::{SegmentDisplay, SegmentOverflow, SegmentSizing};
pub use nav::{FinishOutcome, IntoFinishOutcome};
pub use shadow::AttachedSide;
pub use stepper::{StepStatus, StepperController};
pub use styles::{RecipeGridViewStyle, RecipeListContainerStyle, RecipeRichTextEditorStyle, RecipeSpinBoxStyle};
