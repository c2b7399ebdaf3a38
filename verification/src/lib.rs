//! Discovery, labelling, selection and batch extraction of subtitle tracks
//! found in a media container.
//!
//! The library parses the probing tool's JSON report into track descriptors,
//! resolves language codes to display names, encodes each selectable track
//! into a label whose prefix carries the track index, decodes checked labels
//! back into extraction jobs, and drives a batch of extraction steps while
//! recording its lifecycle events.  Process handling and user interface
//! belong to the surrounding application; everything here is pure logic.

pub mod batch;
pub mod cache;
pub mod codec;
pub mod lang;
pub mod probe;
pub mod select;
pub mod text;
