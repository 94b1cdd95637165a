//! Core of a retained-mode UI toolkit: a widget arena, a logical/physical
//! coordinate model, tessellation of widgets into vertex/index buffers, and
//! point-in-polygon hit testing with a press/release click latch.
//!
//! Lengths are kept in fixed point: one logical pixel is `UNIT` (10^8) length
//! units, so equality of two lengths is equality to eight decimal places.

pub mod guibase;
pub mod guibutton;
pub mod guicolor;
pub mod guiposition;
pub mod guitraits;
pub mod guiwindow;
mod identity;
pub mod processing_utils;
pub mod state;
pub mod vertices;

pub use guibase::GUIBase;
pub use guibase::GWidget;
pub use guibase::GWindow;
pub use guibase::WidgetKind;
pub use guibutton::GUIButton;
pub use guicolor::GUIColor;
pub use guitraits::Parent;
pub use guitraits::Widget;
pub use guiwindow::GUIWindow;
pub use state::MouseButton;
pub use state::State;
pub use vertices::LogicalVertex;
pub use vertices::Polygon;
pub use vertices::Vertex;
pub use guiposition::GUILength;
pub use guiposition::GUIPosition;
pub use guiposition::GUIScale;
pub use guiposition::GUISize;
