pub mod text;
pub mod models;
pub mod ingest;
pub mod templates;
pub mod delivery;
pub mod migrate;
pub mod export;
pub mod audio;
pub mod pairs;
pub mod uncovered;
pub mod characters;
pub mod order;
pub mod patch;
pub mod fonts;
pub mod string_files;
pub mod tm;
pub mod headless;
pub mod llm;
pub mod files;
