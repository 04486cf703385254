//! Runtime settings.
//!
//! The unverified shell loads settings from its configuration sources and
//! owns any global copy; this module holds the settings value itself and
//! the rule for folding command-line arguments into it.

use vstd::prelude::*;

verus! {

/// The application's settings, paths as plain strings.
pub struct Settings {
    pub model_path: String,
    pub image_path: String,
    pub output_path: Option<String>,
    pub is_ai_entitle: bool,
    pub doubao_api_key: Option<String>,
    pub is_ai_sweep: bool,
    pub deepseek_api_key: Option<String>,
}

/// Folds command-line arguments into the settings: given paths replace the
/// stored ones, and the AI passes are enabled exactly as requested, or
/// disabled when no request was made.
pub fn update_settings_with_cli_args(
    settings: &mut Settings,
    image_path: Option<String>,
    output_path: Option<String>,
    ai_enable: Option<bool>,
)
    ensures
        final(settings).image_path == (match image_path {
            Some(p) => p,
            None => old(settings).image_path,
        }),
        final(settings).output_path == (match output_path {
            Some(p) => Some(p),
            None => old(settings).output_path,
        }),
        final(settings).is_ai_entitle == (match ai_enable {
            Some(e) => e,
            None => false,
        }),
        final(settings).is_ai_sweep == (match ai_enable {
            Some(e) => e,
            None => false,
        }),
        final(settings).model_path == old(settings).model_path,
        final(settings).doubao_api_key == old(settings).doubao_api_key,
        final(settings).deepseek_api_key == old(settings).deepseek_api_key,
{
    match image_path {
        Some(path) => {
            settings.image_path = path;
        },
        None => {},
    }
    match output_path {
        Some(path) => {
            settings.output_path = Some(path);
        },
        None => {},
    }
    match ai_enable {
        Some(enable) => {
            settings.is_ai_entitle = enable;
            settings.is_ai_sweep = enable;
        },
        None => {
            settings.is_ai_entitle = false;
            settings.is_ai_sweep = false;
        },
    }
}

} // verus!
