//! Library for a status-bar line renderer: an RGBA color type with
//! alpha compositing, a markup parser that turns a status line into
//! formatting directives, a layout engine that places draw commands and
//! clickable regions across three alignment lanes, and a pixel canvas
//! with bounds-checked compositing.

pub mod canvas;
pub mod color;
pub mod config;
pub mod consts;
pub mod error;
pub mod layout;
pub mod parse;

pub use color::Color;
pub use config::Config;
pub use error::Error;
