//! A verified renderer for computational notebooks in the terminal.
//!
//! A notebook's JSON text is brought into a plain tree, read into a typed
//! document model, and laid out as a boxed two-column view: a narrow label
//! column and a wide content column. Cell sources are reflowed to the
//! column width, recorded stream text is split back into lines, rich
//! display data is shown or marked as unsupported, and embedded raster
//! images are decoded and fitted into the remaining space. The layout is
//! produced as a plan of rows and image placements; printing the plan and
//! reading files belong to the binary around the library.

pub mod args;
pub mod img;
pub mod json;
pub mod kernel;
pub mod layout;
pub mod notebook;
pub mod text;
pub mod wrap;
