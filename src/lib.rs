//! A media catalog: classifies files, labels them with the age they were
//! taken at, names cached thumbnails, and keeps the records in a store.

pub mod age;
pub mod catalog;
pub mod classify;
pub mod commands;
pub mod scan;
pub mod text;
pub mod thumbnail;
