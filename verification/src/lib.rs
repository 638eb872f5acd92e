use vstd::prelude::*;

pub mod text;
pub mod clock;
pub mod path_text;
pub mod media;
pub mod batch;
pub mod commands;
pub mod image_container;
pub mod metadata;
pub mod video;
pub mod models;
pub mod session;
pub mod error_log;

verus! {

} // verus!
