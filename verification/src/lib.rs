//! A small library for substring-based line filtering, together with the
//! state machine of a window that lets a user load a text file and filter
//! its lines by a search word.
//!
//! The core operation is [`line_filter::filter`]: split a document into
//! lines and keep, in their original order, exactly those lines that
//! contain a given search term as a contiguous substring.

pub mod line_filter;
pub mod main_window;
