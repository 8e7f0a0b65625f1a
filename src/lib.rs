//! Reads the text documents that a game engine writes for scenes, prefabs and assets,
//! and builds from them a repository of game objects, transforms and scripted behaviours
//! with their hierarchy.
pub mod text;
pub mod number;
pub mod value;
pub mod parser;
pub mod format;
pub mod vector;
pub mod query;
pub mod object;
pub mod builders;
pub mod repository;
pub mod hierarchy;
pub mod display;
pub mod readable;
pub mod project;
pub mod navigation;
