//! Keeps translated locale documents in step with a source document: a diff between the last
//! synchronised snapshot and the current source decides which entries are translated again,
//! which are removed, and which stay untouched.

pub mod diff;
pub mod document;
pub mod language;
pub mod manifest;
pub mod provider;
pub mod store;
pub mod strmap;
pub mod sync;

pub use diff::{LocaleData, LocaleDataDiff};
pub use document::{LocaleDocument, SyncError, TranslationBatch};
pub use language::{
    default_output_path, has_json_extension, preselection, select_output_locale_all,
    selected_languages, Language, LanguageDiff, ProjectSetting,
};
pub use manifest::{AppData, LocaleManifest, LocaleManifestExternal};
pub use provider::DeepLContext;
pub use store::{format_locale_data, from_members, parse_locale_data, LoadError, LocaleDocuments};
pub use strmap::StrMap;
pub use sync::{full_translate_all, plan_language_change, run_update, CycleStep, SyncOutcome, UpdateCycle};
