//! A terminal-UI element runtime: the default behaviors of the
//! built-in HTML-like elements (select, table, toggles, tree, forms,
//! dialogs, canvas, gauges, transitions) over a small element tree.

pub mod dom;
pub mod events;
pub mod path;
pub mod text;
pub mod select;
pub mod table;
pub mod render;
pub mod canvas;
pub mod button;
pub mod autofocus;
pub mod style;
pub mod animation;
pub mod gauge;
pub mod range;
pub mod number;
pub mod stylesheets;
pub mod forms;
pub mod dialog;
pub mod form;
pub mod toggle;
pub mod input;
pub mod tree;
pub mod details;
pub mod a_href;
pub mod label;
pub mod keys;
pub mod runloop;
