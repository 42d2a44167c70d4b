//! Rules that the settings pages apply when they read and write settings:
//! exclusive modal editing modes, the editor-wide scrollbar fallback,
//! per-language values with a default, switching the autosave mode, the theme
//! and icon theme between one theme and a light/dark pair, the terminal shell
//! kind and working directory, the title-bar button layout, and which git
//! settings a page shows.
//!
//! Each setting is held here as the plain values that its rule reads. The
//! pages themselves (the tables of titles, JSON paths and render callbacks that
//! the settings window draws) are not part of this crate: they are made of the
//! settings window's own item types and of the editor's `gpui`, `ui`,
//! `settings` and `theme` crates, and what they decide beyond those tables is
//! the rules below.
use vstd::prelude::*;

use crate::catalog::{
    distinct_keys, lemma_pairs_to_map_absent, lemma_pairs_to_map_at, lemma_pairs_to_map_push,
    lemma_pairs_to_map_update, pairs_to_map,
};
use crate::chars::{chars_equal, chars_of, string_from_chars};

verus! {

/// The modal editing settings of a settings file: `vim_mode` and
/// `helix_mode`, each unset, off or on.
#[derive(Clone, Copy, Debug, PartialEq, Eq, Default)]
pub struct ModalEditingSettings {
    pub vim_mode: Option<bool>,
    pub helix_mode: Option<bool>,
}

/// Vim mode and Helix mode are not both switched on.
pub open spec fn one_modal_mode(s: ModalEditingSettings) -> bool {
    !(s.vim_mode == Some(true) && s.helix_mode == Some(true))
}

/// Sets `vim_mode`; switching it on switches off a Helix mode that is on.
pub fn write_vim_mode_inner(settings: &mut ModalEditingSettings, value: Option<bool>)
    ensures
        final(settings).vim_mode == value,
        final(settings).helix_mode == (if value == Some(true) && old(settings).helix_mode == Some(
            true,
        ) {
            Some(false)
        } else {
            old(settings).helix_mode
        }),
        one_modal_mode(*final(settings)),
{
    if value == Some(true) && settings.helix_mode == Some(true) {
        settings.helix_mode = Some(false);
    }
    settings.vim_mode = value;
}

/// Sets `helix_mode`; switching it on switches off a Vim mode that is on.
pub fn write_helix_mode_inner(settings: &mut ModalEditingSettings, value: Option<bool>)
    ensures
        final(settings).helix_mode == value,
        final(settings).vim_mode == (if value == Some(true) && old(settings).vim_mode == Some(
            true,
        ) {
            Some(false)
        } else {
            old(settings).vim_mode
        }),
        one_modal_mode(*final(settings)),
{
    if value == Some(true) && settings.vim_mode == Some(true) {
        settings.vim_mode = Some(false);
    }
    settings.helix_mode = value;
}

/// When scrollbars are shown.
#[derive(Clone, Copy, Debug, PartialEq, Eq)]
pub enum ShowScrollbar {
    Auto,
    System,
    Always,
    Never,
}

/// The scrollbar setting of a panel: its own where it sets one, else the
/// editor's.
pub fn show_scrollbar_or_editor(own: Option<ShowScrollbar>, editor: Option<ShowScrollbar>) -> (res:
    Option<ShowScrollbar>)
    ensures
        res == (if own is Some {
            own
        } else {
            editor
        }),
{
    match own {
        Some(show) => Some(show),
        None => editor,
    }
}

/// One setting as the language settings hold it: a default, and a value
/// per language name (a language entry that leaves it unset holds `None`).
pub struct LanguageSettingsField<T> {
    defaults: Option<T>,
    languages: Vec<(String, Option<T>)>,
}

/// The view of one language entry.
pub open spec fn language_entry_view<T>(e: (String, Option<T>)) -> (Seq<char>, Option<T>) {
    (e.0@, e.1)
}

impl<T> LanguageSettingsField<T> {
    /// No language has two entries.
    #[verifier::type_invariant]
    spec fn inv(self) -> bool {
        distinct_keys(self.languages@.map_values(|e: (String, Option<T>)| language_entry_view(e)))
    }
}

impl<T: Copy> LanguageSettingsField<T> {
    /// The default value.
    pub closed spec fn default_value(&self) -> Option<T> {
        self.defaults
    }

    /// The entries by language name.
    pub closed spec fn languages_view(&self) -> Map<Seq<char>, Option<T>> {
        pairs_to_map(self.languages@.map_values(|e: (String, Option<T>)| language_entry_view(e)))
    }

    /// Only a default, no language entries.
    pub fn new(defaults: Option<T>) -> (res: Self)
        ensures
            res.default_value() == defaults,
            res.languages_view() == Map::<Seq<char>, Option<T>>::empty(),
    {
        let res = LanguageSettingsField { defaults, languages: Vec::new() };
        assert(res.languages_view() =~= Map::<Seq<char>, Option<T>>::empty());
        res
    }

    /// The position of the entry of `language`, if it has one.
    fn position(&self, language: &str) -> (res: Option<usize>)
        ensures
            match res {
                Some(i) => i < self.languages@.len() && self.languages@[i as int].0@ == language@,
                None => !self.languages_view().contains_key(language@),
            },
    {
        let ghost lv = self.languages@.map_values(|e: (String, Option<T>)| language_entry_view(e));
        let wanted = chars_of(language);
        for i in 0..self.languages.len()
            invariant
                lv == self.languages@.map_values(|e: (String, Option<T>)| language_entry_view(e)),
                wanted@ == language@,
                forall|j: int| 0 <= j < i ==> lv[j].0 != language@,
        {
            let name = chars_of(self.languages[i].0.as_str());
            if chars_equal(&name, &wanted) {
                return Some(i);
            }
        }
        proof {
            lemma_pairs_to_map_absent(lv, language@);
        }
        None
    }
}

/// The value of a setting for the active language: the language's own
/// where its entry sets one, else the default.
pub open spec fn spec_language_settings_field<T>(
    defaults: Option<T>,
    languages: Map<Seq<char>, Option<T>>,
    active_language: Option<Seq<char>>,
) -> Option<T> {
    match active_language {
        Some(name) => if languages.contains_key(name) && languages[name] is Some {
            languages[name]
        } else {
            defaults
        },
        None => defaults,
    }
}

/// The view of an optional name.
pub open spec fn opt_name_view(o: Option<&str>) -> Option<Seq<char>> {
    match o {
        Some(t) => Some(t@),
        None => None,
    }
}

/// The value of a setting for the active language (`language_settings_field`):
/// the language's own where its entry sets it, else the default.
pub fn language_settings_field<T: Copy>(
    settings: &LanguageSettingsField<T>,
    active_language: Option<&str>,
) -> (res: Option<T>)
    ensures
        res == spec_language_settings_field(
            settings.default_value(),
            settings.languages_view(),
            opt_name_view(active_language),
        ),
{
    proof {
        use_type_invariant(settings);
    }
    let own = match active_language {
        Some(name) => match settings.position(name) {
            Some(i) => {
                proof {
                    lemma_pairs_to_map_at(
                        settings.languages@.map_values(
                            |e: (String, Option<T>)| language_entry_view(e),
                        ),
                        i as int,
                    );
                }
                settings.languages[i].1
            },
            None => None,
        },
        None => None,
    };
    match own {
        Some(value) => Some(value),
        None => settings.defaults,
    }
}

/// Writes a setting for the active language (`language_settings_field_mut`):
/// into the language's entry, made (unset) where it is missing, or into the
/// default where no language is active.
pub fn language_settings_field_mut<T: Copy>(
    settings: &mut LanguageSettingsField<T>,
    active_language: Option<&str>,
    value: Option<T>,
)
    ensures
        match active_language {
            Some(name) => {
                &&& final(settings).languages_view() == old(settings).languages_view().insert(
                    name@,
                    value,
                )
                &&& final(settings).default_value() == old(settings).default_value()
            },
            None => {
                &&& final(settings).languages_view() == old(settings).languages_view()
                &&& final(settings).default_value() == value
            },
        },
{
    proof {
        use_type_invariant(&*settings);
    }
    match active_language {
        Some(name) => {
            let ghost lv = settings.languages@.map_values(
                |e: (String, Option<T>)| language_entry_view(e),
            );
            match settings.position(name) {
                Some(i) => {
                    let entry_name = settings.languages[i].0.clone();
                    proof {
                        lemma_pairs_to_map_update(lv, i as int, value);
                    }
                    let mut languages: Vec<(String, Option<T>)> = Vec::new();
                    std::mem::swap(&mut languages, &mut settings.languages);
                    languages.set(i, (entry_name, value));
                    assert(languages@.map_values(|e: (String, Option<T>)| language_entry_view(e))
                        =~= lv.update(i as int, (lv[i as int].0, value)));
                    settings.languages = languages;
                },
                None => {
                    proof {
                        lemma_pairs_to_map_push(lv, name@, value);
                    }
                    let mut languages: Vec<(String, Option<T>)> = Vec::new();
                    std::mem::swap(&mut languages, &mut settings.languages);
                    languages.push((string_from_chars(&chars_of(name)), value));
                    assert(languages@.map_values(|e: (String, Option<T>)| language_entry_view(e))
                        =~= lv.push((name@, value)));
                    settings.languages = languages;
                },
            }
        },
        None => {
            settings.defaults = value;
        },
    }
}

/// Reading a setting back for the language it was just written for gives
/// what was written, or the default where the written value is unset; with
/// no active language, the write went to the default and reads back as it.
pub proof fn lemma_language_field_read_after_write<T>(
    defaults: Option<T>,
    languages: Map<Seq<char>, Option<T>>,
    active_language: Option<Seq<char>>,
    value: Option<T>,
)
    ensures
        match active_language {
            Some(name) => spec_language_settings_field(
                defaults,
                languages.insert(name, value),
                Some(name),
            ) == (if value is Some {
                value
            } else {
                defaults
            }),
            None => spec_language_settings_field(value, languages, None) == value,
        },
{
}

/// When a buffer is saved on its own.
#[derive(Clone, Copy, Debug, PartialEq, Eq)]
pub enum AutosaveSetting {
    Off,
    AfterDelay { milliseconds: u64 },
    OnFocusChange,
    OnWindowChange,
}

/// The kinds of autosave, without their data.
#[derive(Clone, Copy, Debug, PartialEq, Eq)]
pub enum AutosaveMode {
    Off,
    AfterDelay,
    OnFocusChange,
    OnWindowChange,
}

/// The delay that a switch to saving after a delay starts from.
pub open spec fn default_autosave_delay() -> u64 {
    1000
}

/// The kind of an autosave setting.
pub open spec fn spec_autosave_mode(setting: AutosaveSetting) -> AutosaveMode {
    match setting {
        AutosaveSetting::Off => AutosaveMode::Off,
        AutosaveSetting::AfterDelay { .. } => AutosaveMode::AfterDelay,
        AutosaveSetting::OnFocusChange => AutosaveMode::OnFocusChange,
        AutosaveSetting::OnWindowChange => AutosaveMode::OnWindowChange,
    }
}

/// The kind of the autosave setting, where it is set.
pub fn autosave_mode(autosave: &Option<AutosaveSetting>) -> (res: Option<AutosaveMode>)
    ensures
        res == match *autosave {
            Some(setting) => Some(spec_autosave_mode(setting)),
            None => None,
        },
{
    match autosave {
        Some(AutosaveSetting::Off) => Some(AutosaveMode::Off),
        Some(AutosaveSetting::AfterDelay { .. }) => Some(AutosaveMode::AfterDelay),
        Some(AutosaveSetting::OnFocusChange) => Some(AutosaveMode::OnFocusChange),
        Some(AutosaveSetting::OnWindowChange) => Some(AutosaveMode::OnWindowChange),
        None => None,
    }
}

/// The setting after a switch to `mode`: saving after a delay keeps the
/// delay it had, or starts from the default delay.
pub open spec fn autosave_after_mode(current: Option<AutosaveSetting>, mode: AutosaveMode) -> AutosaveSetting {
    match mode {
        AutosaveMode::Off => AutosaveSetting::Off,
        AutosaveMode::AfterDelay => AutosaveSetting::AfterDelay {
            milliseconds: match current {
                Some(AutosaveSetting::AfterDelay { milliseconds }) => milliseconds,
                _ => default_autosave_delay(),
            },
        },
        AutosaveMode::OnFocusChange => AutosaveSetting::OnFocusChange,
        AutosaveMode::OnWindowChange => AutosaveSetting::OnWindowChange,
    }
}

/// Switches the autosave kind; `None` unsets the setting.
pub fn write_autosave_mode(autosave: &mut Option<AutosaveSetting>, mode: Option<AutosaveMode>)
    ensures
        *final(autosave) == match mode {
            Some(mode) => Some(autosave_after_mode(*old(autosave), mode)),
            None => None,
        },
{
    let mode = match mode {
        Some(mode) => mode,
        None => {
            *autosave = None;
            return;
        },
    };
    let milliseconds: u64 = match autosave {
        Some(AutosaveSetting::AfterDelay { milliseconds }) => *milliseconds,
        _ => 1000,
    };
    *autosave = Some(
        match mode {
            AutosaveMode::Off => AutosaveSetting::Off,
            AutosaveMode::AfterDelay => AutosaveSetting::AfterDelay { milliseconds },
            AutosaveMode::OnFocusChange => AutosaveSetting::OnFocusChange,
            AutosaveMode::OnWindowChange => AutosaveSetting::OnWindowChange,
        },
    );
}

/// Sets the delay of saving after a delay; it changes nothing where
/// autosave is of another kind, and `None` unsets the setting.
pub fn write_autosave_delay(autosave: &mut Option<AutosaveSetting>, value: Option<u64>)
    ensures
        *final(autosave) == match value {
            None => None,
            Some(milliseconds) => match *old(autosave) {
                Some(AutosaveSetting::AfterDelay { .. }) => Some(
                    AutosaveSetting::AfterDelay { milliseconds },
                ),
                other => other,
            },
        },
{
    match value {
        None => {
            *autosave = None;
        },
        Some(milliseconds) => {
            if let Some(AutosaveSetting::AfterDelay { .. }) = autosave {
                *autosave = Some(AutosaveSetting::AfterDelay { milliseconds });
            }
        },
    }
}

/// How a pair of light and dark themes is chosen between.
#[derive(Clone, Copy, Debug, PartialEq, Eq)]
pub enum ThemeAppearanceMode {
    Light,
    Dark,
    System,
}

/// The theme setting: one theme, or a light and a dark theme.
#[derive(Clone, Debug, PartialEq, Eq)]
pub enum ThemeSelection {
    Static(String),
    Dynamic { mode: ThemeAppearanceMode, light: String, dark: String },
}

/// The kinds of theme setting.
#[derive(Clone, Copy, Debug, PartialEq, Eq)]
pub enum ThemeSelectionKind {
    Static,
    Dynamic,
}

/// The theme that a pair shows: by its mode, and by the system's
/// appearance where the mode follows the system.
pub open spec fn theme_in_use(
    mode: ThemeAppearanceMode,
    light: String,
    dark: String,
    system_is_light: bool,
) -> String {
    match mode {
        ThemeAppearanceMode::Light => light,
        ThemeAppearanceMode::Dark => dark,
        ThemeAppearanceMode::System => if system_is_light {
            light
        } else {
            dark
        },
    }
}

/// The theme setting after a switch to `kind`: one theme becomes a pair of
/// it that follows the system; a pair becomes the theme it shows; a setting
/// of the asked kind stays.
pub open spec fn theme_after_kind(
    current: ThemeSelection,
    kind: ThemeSelectionKind,
    system_is_light: bool,
) -> ThemeSelection {
    match kind {
        ThemeSelectionKind::Static => match current {
            ThemeSelection::Static(_) => current,
            ThemeSelection::Dynamic { mode, light, dark } => ThemeSelection::Static(
                theme_in_use(mode, light, dark, system_is_light),
            ),
        },
        ThemeSelectionKind::Dynamic => match current {
            ThemeSelection::Static(name) => ThemeSelection::Dynamic {
                mode: ThemeAppearanceMode::System,
                light: name,
                dark: name,
            },
            ThemeSelection::Dynamic { .. } => current,
        },
    }
}

/// Switches the theme setting's kind; an unset setting is first taken as
/// `default` (the settings' default theme), and `system_is_light` is the
/// system's appearance; `None` unsets the setting.
pub fn write_theme_selection_kind(
    theme: &mut Option<ThemeSelection>,
    kind: Option<ThemeSelectionKind>,
    default: ThemeSelection,
    system_is_light: bool,
)
    ensures
        *final(theme) == match kind {
            Some(kind) => Some(
                theme_after_kind(
                    match *old(theme) {
                        Some(current) => current,
                        None => default,
                    },
                    kind,
                    system_is_light,
                ),
            ),
            None => None,
        },
{
    let kind = match kind {
        Some(kind) => kind,
        None => {
            *theme = None;
            return;
        },
    };
    let current = match theme.take() {
        Some(current) => current,
        None => default,
    };
    let next = match kind {
        ThemeSelectionKind::Static => match current {
            ThemeSelection::Static(name) => ThemeSelection::Static(name),
            ThemeSelection::Dynamic { mode, light, dark } => ThemeSelection::Static(
                match mode {
                    ThemeAppearanceMode::Light => light,
                    ThemeAppearanceMode::Dark => dark,
                    ThemeAppearanceMode::System => if system_is_light {
                        light
                    } else {
                        dark
                    },
                },
            ),
        },
        ThemeSelectionKind::Dynamic => match current {
            ThemeSelection::Static(name) => {
                let light = name.clone();
                ThemeSelection::Dynamic { mode: ThemeAppearanceMode::System, light, dark: name }
            },
            ThemeSelection::Dynamic { mode, light, dark } => ThemeSelection::Dynamic {
                mode,
                light,
                dark,
            },
        },
    };
    *theme = Some(next);
}

/// Switches the icon theme setting's kind by the rule of the theme setting;
/// an unset setting is first taken as the default icon theme, named
/// `default_icon_theme`.
pub fn write_icon_theme_selection_kind(
    icon_theme: &mut Option<ThemeSelection>,
    kind: Option<ThemeSelectionKind>,
    default_icon_theme: String,
    system_is_light: bool,
)
    ensures
        *final(icon_theme) == match kind {
            Some(kind) => Some(
                theme_after_kind(
                    match *old(icon_theme) {
                        Some(current) => current,
                        None => ThemeSelection::Static(default_icon_theme),
                    },
                    kind,
                    system_is_light,
                ),
            ),
            None => None,
        },
{
    write_theme_selection_kind(
        icon_theme,
        kind,
        ThemeSelection::Static(default_icon_theme),
        system_is_light,
    );
}

/// Where a new terminal starts.
#[derive(Clone, Debug, PartialEq, Eq)]
pub enum WorkingDirectory {
    CurrentFileDirectory,
    CurrentProjectDirectory,
    FirstProjectDirectory,
    AlwaysHome,
    Always { directory: String },
}

/// The kinds of working directory setting.
#[derive(Clone, Copy, Debug, PartialEq, Eq)]
pub enum WorkingDirectoryKind {
    CurrentFileDirectory,
    CurrentProjectDirectory,
    FirstProjectDirectory,
    AlwaysHome,
    Always,
}

/// Switches the working directory setting's kind; a switch to a fixed
/// directory keeps the directory there is, or starts from an empty one; `None`
/// unsets the setting.
pub fn write_working_directory_kind(
    working_directory: &mut Option<WorkingDirectory>,
    kind: Option<WorkingDirectoryKind>,
)
    ensures
        match kind {
            None => *final(working_directory) is None,
            Some(WorkingDirectoryKind::CurrentFileDirectory) => *final(working_directory) == Some(
                WorkingDirectory::CurrentFileDirectory,
            ),
            Some(WorkingDirectoryKind::CurrentProjectDirectory) => *final(working_directory)
                == Some(WorkingDirectory::CurrentProjectDirectory),
            Some(WorkingDirectoryKind::FirstProjectDirectory) => *final(working_directory) == Some(
                WorkingDirectory::FirstProjectDirectory,
            ),
            Some(WorkingDirectoryKind::AlwaysHome) => *final(working_directory) == Some(
                WorkingDirectory::AlwaysHome,
            ),
            Some(WorkingDirectoryKind::Always) => match *old(working_directory) {
                Some(WorkingDirectory::Always { .. }) => *final(working_directory) == *old(
                    working_directory,
                ),
                _ => *final(working_directory) matches Some(
                    WorkingDirectory::Always { directory },
                ) && directory@.len() == 0,
            },
        },
{
    let kind = match kind {
        Some(kind) => kind,
        None => {
            *working_directory = None;
            return;
        },
    };
    let current = working_directory.take();
    let next = match kind {
        WorkingDirectoryKind::CurrentFileDirectory => WorkingDirectory::CurrentFileDirectory,
        WorkingDirectoryKind::CurrentProjectDirectory => WorkingDirectory::CurrentProjectDirectory,
        WorkingDirectoryKind::FirstProjectDirectory => WorkingDirectory::FirstProjectDirectory,
        WorkingDirectoryKind::AlwaysHome => WorkingDirectory::AlwaysHome,
        WorkingDirectoryKind::Always => match current {
            Some(WorkingDirectory::Always { directory }) => WorkingDirectory::Always { directory },
            _ => WorkingDirectory::Always { directory: String::new() },
        },
    };
    *working_directory = Some(next);
}

/// The terminal's shell.
#[derive(Clone, Debug, PartialEq, Eq)]
pub enum Shell {
    System,
    Program(String),
    WithArguments { program: String, args: Vec<String>, title_override: Option<String> },
}

/// The kinds of shell setting.
#[derive(Clone, Copy, Debug, PartialEq, Eq)]
pub enum ShellKind {
    System,
    Program,
    WithArguments,
}

/// The program that a switch of shell kind starts from where the setting
/// names none: `powershell.exe` on Windows, `sh` elsewhere.
pub open spec fn default_shell_program(windows: bool) -> Seq<char> {
    if windows {
        seq!['p', 'o', 'w', 'e', 'r', 's', 'h', 'e', 'l', 'l', '.', 'e', 'x', 'e']
    } else {
        seq!['s', 'h']
    }
}

/// The program that a shell setting names, or the default program.
pub open spec fn shell_program(current: Shell, windows: bool) -> Seq<char> {
    match current {
        Shell::Program(program) => program@,
        Shell::WithArguments { program, .. } => program@,
        Shell::System => default_shell_program(windows),
    }
}

/// The default program, as a string.
fn default_shell_program_string(windows: bool) -> (res: String)
    ensures
        res@ == default_shell_program(windows),
{
    let mut chars: Vec<char> = Vec::new();
    if windows {
        chars.push('p');
        chars.push('o');
        chars.push('w');
        chars.push('e');
        chars.push('r');
        chars.push('s');
        chars.push('h');
        chars.push('e');
        chars.push('l');
        chars.push('l');
        chars.push('.');
        chars.push('e');
        chars.push('x');
        chars.push('e');
    } else {
        chars.push('s');
        chars.push('h');
    }
    string_from_chars(&chars)
}

/// Switches the shell setting's kind, keeping the program (and arguments)
/// it names; an unset setting is first taken as `default` (the settings'
/// default shell), `windows` tells which default program to use, and `None`
/// unsets the setting.
pub fn write_shell_kind(
    shell: &mut Option<Shell>,
    kind: Option<ShellKind>,
    default: Shell,
    windows: bool,
)
    ensures
        ({
            let current = match *old(shell) {
                Some(current) => current,
                None => default,
            };
            match kind {
                None => *final(shell) is None,
                Some(ShellKind::System) => *final(shell) == Some(Shell::System),
                Some(ShellKind::Program) => *final(shell) matches Some(Shell::Program(program))
                    && program@ == shell_program(current, windows),
                Some(ShellKind::WithArguments) => match current {
                    Shell::WithArguments { .. } => *final(shell) == Some(current),
                    _ => *final(shell) matches Some(
                        Shell::WithArguments { program, args, title_override },
                    ) && program@ == shell_program(current, windows) && args@.len() == 0
                        && title_override is None,
                },
            }
        }),
{
    let kind = match kind {
        Some(kind) => kind,
        None => {
            *shell = None;
            return;
        },
    };
    let current = match shell.take() {
        Some(current) => current,
        None => default,
    };
    let next = match kind {
        ShellKind::System => Shell::System,
        ShellKind::Program => match current {
            Shell::Program(program) => Shell::Program(program),
            Shell::WithArguments { program, .. } => Shell::Program(program),
            Shell::System => Shell::Program(default_shell_program_string(windows)),
        },
        ShellKind::WithArguments => match current {
            Shell::Program(program) => Shell::WithArguments {
                program,
                args: Vec::new(),
                title_override: None,
            },
            Shell::WithArguments { program, args, title_override } => Shell::WithArguments {
                program,
                args,
                title_override,
            },
            Shell::System => Shell::WithArguments {
                program: default_shell_program_string(windows),
                args: Vec::new(),
                title_override: None,
            },
        },
    };
    *shell = Some(next);
}

/// The layout of the title bar's window buttons.
#[derive(Clone, Debug, PartialEq, Eq)]
pub enum WindowButtonLayout {
    PlatformDefault,
    Standard,
    Custom(String),
}

/// The kinds of button layout.
#[derive(Clone, Copy, Debug, PartialEq, Eq)]
pub enum WindowButtonLayoutKind {
    PlatformDefault,
    Standard,
    Custom,
}

/// The custom layout that a switch to a custom layout starts from where
/// there is none: `close:minimize,maximize`.
pub open spec fn default_custom_button_layout() -> Seq<char> {
    seq!['c', 'l', 'o', 's', 'e', ':', 'm', 'i', 'n', 'i', 'm', 'i', 'z', 'e', ',', 'm', 'a', 'x', 'i', 'm', 'i', 'z', 'e']
}

/// Switches the button layout's kind; a switch to a custom layout keeps the
/// custom layout there is, or starts from the default one; `None` unsets the
/// setting.
pub fn write_button_layout_kind(
    layout: &mut Option<WindowButtonLayout>,
    kind: Option<WindowButtonLayoutKind>,
)
    ensures
        match kind {
            None => *final(layout) is None,
            Some(WindowButtonLayoutKind::PlatformDefault) => *final(layout) == Some(
                WindowButtonLayout::PlatformDefault,
            ),
            Some(WindowButtonLayoutKind::Standard) => *final(layout) == Some(
                WindowButtonLayout::Standard,
            ),
            Some(WindowButtonLayoutKind::Custom) => *final(layout) matches Some(
                WindowButtonLayout::Custom(custom),
            ) && custom@ == match *old(layout) {
                Some(WindowButtonLayout::Custom(current)) => current@,
                _ => default_custom_button_layout(),
            },
        },
{
    let kind = match kind {
        Some(kind) => kind,
        None => {
            *layout = None;
            return;
        },
    };
    let current_custom = match layout.take() {
        Some(WindowButtonLayout::Custom(current)) => Some(current),
        _ => None,
    };
    let next = match kind {
        WindowButtonLayoutKind::PlatformDefault => WindowButtonLayout::PlatformDefault,
        WindowButtonLayoutKind::Standard => WindowButtonLayout::Standard,
        WindowButtonLayoutKind::Custom => WindowButtonLayout::Custom(
            match current_custom {
                Some(current) => current,
                None => {
                    let default = chars_of("close:minimize,maximize");
                    proof {
                        reveal_strlit("close:minimize,maximize");
                        assert(default@ =~= default_custom_button_layout());
                    }
                    string_from_chars(&default)
                },
            },
        ),
    };
    *layout = Some(next);
}

/// Whether git is switched off, and its status and diff switches.
#[derive(Clone, Copy, Debug, PartialEq, Eq, Default)]
pub struct GitEnabledSettings {
    pub disable_git: Option<bool>,
    pub enable_status: Option<bool>,
    pub enable_diff: Option<bool>,
}

/// Which git settings the page shows: none where git is switched off (`0`),
/// the status and diff switches otherwise (`1`); nothing where the git
/// settings are not set.
pub fn git_enabled_discriminant(enabled: &Option<GitEnabledSettings>) -> (res: Option<usize>)
    ensures
        res == match *enabled {
            None => None,
            Some(e) => Some(
                if e.disable_git == Some(true) {
                    0usize
                } else {
                    1usize
                },
            ),
        },
{
    match enabled {
        None => None,
        Some(e) => {
            let disabled = match e.disable_git {
                Some(disabled) => disabled,
                None => false,
            };
            Some(if disabled { 0 } else { 1 })
        },
    }
}

/// Switching autosave to a kind stores a setting of exactly that kind; a
/// switch to saving after a delay keeps a delay there is and otherwise
/// starts from 1000 ms; a switch to the kind the setting has changes nothing.
pub proof fn lemma_autosave_switch(current: Option<AutosaveSetting>, mode: AutosaveMode)
    ensures
        (mode == AutosaveMode::Off) == (autosave_after_mode(current, mode)
            == AutosaveSetting::Off),
        (mode == AutosaveMode::AfterDelay) == (autosave_after_mode(
            current,
            mode,
        ) is AfterDelay),
        (mode == AutosaveMode::OnFocusChange) == (autosave_after_mode(current, mode)
            == AutosaveSetting::OnFocusChange),
        (mode == AutosaveMode::OnWindowChange) == (autosave_after_mode(current, mode)
            == AutosaveSetting::OnWindowChange),
        (autosave_after_mode(current, mode) matches AutosaveSetting::AfterDelay { milliseconds }
            ==> milliseconds == (match current {
            Some(AutosaveSetting::AfterDelay { milliseconds: kept }) => kept,
            _ => 1000u64,
        })),
        (current matches Some(setting) ==> ((setting == AutosaveSetting::Off && mode
            == AutosaveMode::Off) || (setting is AfterDelay && mode == AutosaveMode::AfterDelay)
            || (setting == AutosaveSetting::OnFocusChange && mode == AutosaveMode::OnFocusChange)
            || (setting == AutosaveSetting::OnWindowChange && mode
            == AutosaveMode::OnWindowChange) ==> autosave_after_mode(current, mode) == setting)),
{
}

/// Switching a light/dark pair to one theme keeps the theme the pair shows:
/// the light one in light mode, the dark one in dark mode, and by the
/// system's appearance where the mode follows the system; one theme becomes
/// a pair of it that follows the system, and switching back gives the theme
/// again; a setting of the asked kind stays.
pub proof fn lemma_theme_switch(
    name: String,
    light: String,
    dark: String,
    mode: ThemeAppearanceMode,
    system_is_light: bool,
    later_system_is_light: bool,
)
    ensures
        theme_after_kind(
            (ThemeSelection::Dynamic { mode: ThemeAppearanceMode::Light, light, dark }),
            ThemeSelectionKind::Static,
            system_is_light,
        ) == ThemeSelection::Static(light),
        theme_after_kind(
            (ThemeSelection::Dynamic { mode: ThemeAppearanceMode::Dark, light, dark }),
            ThemeSelectionKind::Static,
            system_is_light,
        ) == ThemeSelection::Static(dark),
        theme_after_kind(
            (ThemeSelection::Dynamic { mode: ThemeAppearanceMode::System, light, dark }),
            ThemeSelectionKind::Static,
            system_is_light,
        ) == ThemeSelection::Static(
            if system_is_light {
                light
            } else {
                dark
            },
        ),
        theme_after_kind(ThemeSelection::Static(name), ThemeSelectionKind::Dynamic, system_is_light)
            == (ThemeSelection::Dynamic { mode: ThemeAppearanceMode::System, light: name, dark: name }),
        theme_after_kind(
            theme_after_kind(
                ThemeSelection::Static(name),
                ThemeSelectionKind::Dynamic,
                system_is_light,
            ),
            ThemeSelectionKind::Static,
            later_system_is_light,
        ) == ThemeSelection::Static(name),
        theme_after_kind(ThemeSelection::Static(name), ThemeSelectionKind::Static, system_is_light)
            == ThemeSelection::Static(name),
        theme_after_kind(
            (ThemeSelection::Dynamic { mode, light, dark }),
            ThemeSelectionKind::Dynamic,
            system_is_light,
        ) == (ThemeSelection::Dynamic { mode, light, dark }),
{
}

} // verus!
