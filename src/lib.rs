//! Object model and symbol interning core of a small script engine: an
//! interner of property keys, property descriptors and their merge rules,
//! insertion-ordered object stores, and the `Object` built-ins.

pub mod interner;
pub mod value;
pub mod descriptor;
pub mod object;
pub mod env;
pub mod builtins;
