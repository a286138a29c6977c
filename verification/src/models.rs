//! Plain data records shared by the project's operations.
use vstd::prelude::*;

verus! {

/// Script files found under `game/`, by kind.
#[derive(Debug, Clone)]
pub struct ProjectFiles {
    pub rpa_files: Vec<String>,
    pub rpyc_files: Vec<String>,
    pub rpy_files: Vec<String>,
    pub tl_files: Vec<String>,
}

/// Per-file string counts.
#[derive(Debug, Clone)]
pub struct FileStats {
    pub total: i32,
    pub translated: i32,
    pub outdated: i32,
}

/// An image of the game and its localized replacement, if any.
#[derive(Debug, Clone)]
pub struct ImageEntry {
    pub original_path: String,
    pub rel_path: String,
    pub is_translated: bool,
    pub translated_path: Option<String>,
}

/// An audio file of the game, its localized replacement and the line it voices.
#[derive(Debug, Clone)]
pub struct AudioEntry {
    pub original_path: String,
    pub rel_path: String,
    pub is_translated: bool,
    pub translated_path: Option<String>,
    pub mapped_text: Option<String>,
    pub mapped_script: Option<String>,
}

/// One string as the extractor reports it.
#[derive(Debug, Clone)]
pub struct ExtractedString {
    pub block_type: String,
    pub id: String,
    pub file: String,
    pub line: i32,
    pub who: Option<String>,
    pub what: String,
    pub prefix: Option<String>,
    /// How the string was extracted: "ast" or "regex".
    pub source: Option<String>,
    /// Other wordings of the same string in the source language.
    pub alt_texts: Vec<String>,
}

/// The extractor's whole report.
#[derive(Debug, Clone)]
pub struct ExtractedData {
    pub project_name: String,
    pub is_legacy_format: Option<bool>,
    pub available_languages: Option<Vec<String>>,
    pub source_language: Option<String>,
    pub game_name: Option<String>,
    pub game_version: Option<String>,
    pub engine_version: Option<String>,
    pub strings: Vec<ExtractedString>,
}

/// A font of the game and the scripts (writing systems) it covers.
#[derive(Debug, Clone)]
pub struct FontInfo {
    pub rel_path: String,
    pub name: String,
    pub scripts: Vec<String>,
}

/// One font replacement: `source` is a game font, `target` the font to use
/// (`None` = the engine's bundled DejaVuSans).
#[derive(Debug, Clone)]
pub struct FontRemap {
    pub source: String,
    pub target: Option<String>,
}

/// A row of the `translations` table.
#[derive(Debug, Clone)]
pub struct DbEntry {
    pub id: String,
    pub block_type: String,
    pub file_path: String,
    pub line_number: i32,
    pub who: Option<String>,
    pub original: String,
    pub translation: String,
    pub status: String,
    pub prefix: Option<String>,
    pub prev_original: Option<String>,
    pub channel: Option<String>,
    pub confirmed: Option<bool>,
    pub source: Option<String>,
    pub alt_texts: Option<String>,
}

/// What a migration between game versions carried over.
#[derive(Debug, Clone, Copy, Default)]
pub struct MigrationReport {
    pub carried_exact: u32,
    pub carried_fuzzy: u32,
    pub new_strings: u32,
    pub still_untranslated: u32,
    pub old_unused: u32,
}

/// A user delivery hook: code woven into the generated runtime file.
#[derive(Debug, Clone)]
pub struct DeliveryHook {
    pub name: String,
    pub phase: String,
    pub enabled: bool,
    pub code: String,
    pub scope: Option<String>,
}

/// Summary of one language pair's workspace.
#[derive(Debug, Clone)]
pub struct PairInfo {
    pub pair: String,
    pub source: String,
    pub target: String,
    pub total: i32,
    pub translated: i32,
    pub is_active: bool,
    pub is_legacy: bool,
    pub is_built: bool,
    pub is_dirty: bool,
}

/// Counters of a delivery build.
#[derive(Debug, Clone, Copy, Default)]
pub struct BuildCounts {
    /// keys of the dialogue/menu map
    pub say: usize,
    /// keys of the interface map
    pub ui: usize,
    /// delivered originals whose status is "outdated"
    pub review: usize,
    /// translations skipped for a foreign `[var]`
    pub skipped_bad: usize,
}

/// A text the game showed without a translation (coverage diagnostics).
#[derive(Debug, Clone)]
pub struct UncoveredEntry {
    pub chan: String,
    pub text: String,
    pub in_db: bool,
    pub translated: bool,
}

/// One entry of the translation memory.
#[derive(Debug, Clone)]
pub struct TmEntry {
    pub target_lang: String,
    pub original: String,
    pub translation: String,
    pub source_lang: String,
    pub hits: i64,
}

/// A page of translation-memory entries and the total count.
#[derive(Debug, Clone)]
pub struct TmListResult {
    pub entries: Vec<TmEntry>,
    pub total: i64,
}

} // verus!
