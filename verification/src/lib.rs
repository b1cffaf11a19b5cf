//! Regex substitution that is confined to windows of lines around reported
//! file positions.
//!
//! A text is modelled by its UTF-8 bytes. Lines are numbered from 1 and split
//! at line feeds; columns are numbered from 1 and count characters.

pub mod grouping;
pub mod level;
pub mod number;
pub mod pattern;
pub mod position;
pub mod position_matcher;
pub mod positional_replacer;
pub mod replace;
pub mod text;
