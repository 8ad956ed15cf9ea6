pub mod bounded;
pub mod importer;
pub mod networking;
pub mod repository;
pub mod time;
