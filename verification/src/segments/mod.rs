//! Segments: the pieces of a status line, what they declare and what they
//! render.

pub mod bar_laws;
pub mod builder;
pub mod context_bar;
pub mod context_window;
pub mod extras;
pub mod git_branch;
pub mod git_branch_laws;
pub mod override_laws;
pub mod own_laws;
pub mod progress_bar;
pub mod rendered;
pub mod rendered_laws;
pub mod segment;
pub mod separator;
pub mod settings_laws;

pub use crate::cells::text_width;
pub use crate::segments::builder::catalog::{
    built_in_by_id, BUILT_IN_SEGMENT_IDS, DEFAULT_SEGMENT_IDS,
};
pub use crate::segments::rendered::{GroupColor, RenderedSegment};
pub use crate::segments::segment::{
    LineItem, OverriddenSegment, RenderContext, RenderResult, Segment, SegmentBox, SegmentError,
};
pub use crate::segments::separator::{PowerlineWidth, SegmentDefaults, Separator, WidthBounds};
pub use crate::text::sanitize_control_chars;
