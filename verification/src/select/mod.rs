//! `<select>` + `<option>` + `<optgroup>`: list box and drop-down
//! selection, keyboard and pointer activation, type-ahead, and the
//! selectedness setting algorithm.

pub mod model;
pub mod state;
pub mod selectedness;
pub mod dropdown;
pub mod keyboard;
pub mod typeahead;
pub mod click;
pub mod queue;
