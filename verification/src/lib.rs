//! Image viewer core: the decisions and bookkeeping of a thumbnail-strip image viewer.

pub mod chrome;
pub mod natural;
pub mod text;
pub mod thumbnail;
pub mod image;
pub mod queue;
pub mod catalog;
pub mod window;
pub mod registry;
pub mod wheel;
pub mod sorting;
pub mod svg;
pub mod svg_path;
pub mod session;
pub mod controls;
pub mod pointer;
