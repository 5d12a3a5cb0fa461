//! The logic of a handwriting note: ink, pages, the encoding a note keeps its ink in, and the
//! decisions the application around it asks for.

pub mod archive;
pub mod arrays;
pub mod bar;
pub mod bundle;
pub mod canvas;
pub mod chunk;
pub mod clock;
pub mod commands;
pub mod cursor;
pub mod error;
pub mod home;
pub mod ink;
pub mod legacy;
pub mod messages;
pub mod names;
pub mod note;
pub mod notes;
pub mod packers;
pub mod pages;
pub mod paths;
pub mod pdf;
pub mod pdfium;
pub mod pen;
pub mod raster;
pub mod recent;
pub mod refresh;
pub mod session;
pub mod settings;
pub mod text;
pub mod walk;
pub mod wire;
pub mod zips;
