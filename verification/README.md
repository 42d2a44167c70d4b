# zed_locale

Verified core of Zed's localization layer, written in Verus:

- `src/locale_tag.rs`: canonical spelling of BCP 47 locale tags.
- `src/catalog.rs`: message catalogs built from JSON resources (parsed with
  `serde_json`), looked up by tag and key.
- `src/localization.rs`: candidate locales (exact, language-script parent,
  first locale of the language, `en-US`), lookup with fallback, placeholder
  interpolation, and the active-locale state.
- `src/remote_url.rs`: Git remote URLs, SCP-like `user@host:path` remotes
  read as `ssh://` URLs (`regex` and `url` behind trusted wrappers).
- `src/settings.rs`: exclusive Vim/Helix modes, autosave, theme, shell and
  button-layout switches, the editor scrollbar
  fallback, and per-language settings with a default.
- `src/chars.rs`: character-level string helpers and their lemmas.

`app/` holds the process-wide state (a `parking_lot` lock, the `ZED_LOCALE`
variable and `sys_locale`) around the library.
