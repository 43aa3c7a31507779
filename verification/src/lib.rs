//! Which local AI model should this machine run: the catalogue, the
//! recommendation rules and the download planning, with their contracts.
pub mod text;
pub mod catalog;
pub mod get;
pub mod recommend;
