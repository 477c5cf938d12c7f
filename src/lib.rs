//! Classification of text lines against a catalog of sensitive-data patterns.

pub mod catalog;
pub mod category;
pub mod classify;
pub mod matcher;
