//! Stock keeping for a watch shop, driven from a terminal.
//!
//! The store keeps the quantity on hand of each code and a log of every
//! registration, purchase and sale. The application shows the store in lists
//! that scroll, ranks codes by their edit distance to what is typed, filters
//! the log by code and by kind, counts the sales and purchases of the last
//! days, and turns each key into a change of its state.
//!
//! - [`levenshtein`]: the edit distance.
//! - [`cursor`]: the scroll position and the selected row of a list.
//! - [`sorted_map`]: a map from strings to values, in ascending order of its keys.
//! - [`store`]: the items and the log.
//! - [`rank`]: codes ranked by their distance to a query.
//! - [`history`]: the tabs of the log and the days of the chart.
//! - [`parse`]: the line of a form.
//! - [`messages`]: the lines written for the operator.
//! - [`state`]: the state of the application as a plain value, and what each
//!   key does to it.
//! - [`app`]: the application.
//! - [`text`]: strings as sequences of characters.

pub mod text;
pub mod levenshtein;
pub mod cursor;
pub mod sorted_map;
pub mod store;
pub mod parse;
pub mod history;
pub mod rank;
pub mod messages;
pub mod state;
mod clock;
pub mod app;
