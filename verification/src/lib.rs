pub mod text;
pub mod tools;
pub mod pairs;
pub mod field_map;
pub mod fold;
pub mod attr;
pub mod sql;
pub mod accessor;
pub mod conf_macro;
pub mod debug;
pub mod laws;
