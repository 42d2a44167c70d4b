//! Localized UI text with locale fallback, Git remote URLs, and the rules
//! that the settings pages apply when they write settings.
pub mod catalog;
pub mod chars;
pub mod locale_tag;
pub mod localization;
pub mod remote_url;
pub mod settings;

pub use catalog::{Catalogs, LocaleResource};
pub use locale_tag::canonical_locale;
pub use localization::{
    available_locales, first_locale_for_language, initial_locale, locale, locale_candidates,
    lookup_text, set_locale, text, text_args, text_args_for_locale, text_for_locale, try_text,
    try_text_args, Localization,
};
pub use remote_url::RemoteUrl;
