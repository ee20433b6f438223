//! Artifact assembly for multi-target packaging: file-set resolution with
//! placeholder expansion, archive entry planning, shared-library discovery,
//! package metadata text, and the decision logic of tool acquisition.

pub mod text;
pub mod placeholder;
pub mod glob;
pub mod fileset;
pub mod app_image;
pub mod platform;
pub mod deb;
pub mod paths;
pub mod archive;
pub mod acquire;
