//! Operations on sequences held in `Vec`s and slices.

pub mod chunk;
pub mod compact;
pub mod difference;
pub mod drop_end;
pub mod drop_start;
pub mod elements;
pub mod fill_default;
pub mod fill_value;
pub mod find_index;
pub mod find_indexes;
pub mod find_last_index;
pub mod flatten;
pub mod intersection;
pub mod matcher;
pub mod model;
pub mod uniq;

mod item_set;
