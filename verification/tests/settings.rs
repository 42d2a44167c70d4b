use zed_locale::settings::{
    autosave_mode, git_enabled_discriminant, language_settings_field, language_settings_field_mut,
    show_scrollbar_or_editor, write_autosave_delay, write_autosave_mode, write_button_layout_kind,
    write_helix_mode_inner, write_icon_theme_selection_kind, write_shell_kind,
    write_theme_selection_kind, write_vim_mode_inner, write_working_directory_kind,
    AutosaveMode, AutosaveSetting, GitEnabledSettings, LanguageSettingsField, ModalEditingSettings,
    Shell, ShellKind, ShowScrollbar, ThemeAppearanceMode, ThemeSelection, ThemeSelectionKind,
    WindowButtonLayout, WindowButtonLayoutKind, WorkingDirectory, WorkingDirectoryKind,
};

#[test]
fn test_write_vim_helix_mode() {
    // Enabling vim mode while `vim_mode` and `helix_mode` are not yet set
    // should only update the `vim_mode` setting.
    let mut settings = ModalEditingSettings::default();
    write_vim_mode_inner(&mut settings, Some(true));
    assert_eq!(settings.vim_mode, Some(true));
    assert_eq!(settings.helix_mode, None);

    // Enabling helix mode while `vim_mode` and `helix_mode` are not yet set
    // should only update the `helix_mode` setting.
    let mut settings = ModalEditingSettings::default();
    write_helix_mode_inner(&mut settings, Some(true));
    assert_eq!(settings.helix_mode, Some(true));
    assert_eq!(settings.vim_mode, None);

    // Disabling helix mode should only touch `helix_mode` setting when
    // `vim_mode` is not set.
    write_helix_mode_inner(&mut settings, Some(false));
    assert_eq!(settings.helix_mode, Some(false));
    assert_eq!(settings.vim_mode, None);

    // Enabling vim mode should update `vim_mode` but leave `helix_mode`
    // untouched.
    write_vim_mode_inner(&mut settings, Some(true));
    assert_eq!(settings.vim_mode, Some(true));
    assert_eq!(settings.helix_mode, Some(false));

    // Enabling helix mode should update `helix_mode` and disable
    // `vim_mode`.
    write_helix_mode_inner(&mut settings, Some(true));
    assert_eq!(settings.helix_mode, Some(true));
    assert_eq!(settings.vim_mode, Some(false));

    // Enabling vim mode should update `vim_mode` and disable
    // `helix_mode`.
    write_vim_mode_inner(&mut settings, Some(true));
    assert_eq!(settings.vim_mode, Some(true));
    assert_eq!(settings.helix_mode, Some(false));
}

#[test]
fn modes_are_never_both_on() {
    let mut settings = ModalEditingSettings {
        vim_mode: Some(true),
        helix_mode: None,
    };
    write_helix_mode_inner(&mut settings, None);
    assert_eq!(settings, ModalEditingSettings { vim_mode: Some(true), helix_mode: None });
    write_vim_mode_inner(&mut settings, None);
    assert_eq!(settings, ModalEditingSettings { vim_mode: None, helix_mode: None });
}

#[test]
fn scrollbar_falls_back_to_the_editor() {
    assert_eq!(
        show_scrollbar_or_editor(Some(ShowScrollbar::Never), Some(ShowScrollbar::Always)),
        Some(ShowScrollbar::Never)
    );
    assert_eq!(
        show_scrollbar_or_editor(None, Some(ShowScrollbar::Auto)),
        Some(ShowScrollbar::Auto)
    );
    assert_eq!(show_scrollbar_or_editor(None, None), None);
}

#[test]
fn language_settings_read_back_what_was_written() {
    let mut tab_size = LanguageSettingsField::new(Some(4u32));
    assert_eq!(language_settings_field(&tab_size, Some("Rust")), Some(4));
    assert_eq!(language_settings_field(&tab_size, None), Some(4));

    language_settings_field_mut(&mut tab_size, Some("Rust"), Some(2));
    assert_eq!(language_settings_field(&tab_size, Some("Rust")), Some(2));
    assert_eq!(language_settings_field(&tab_size, Some("Python")), Some(4));

    language_settings_field_mut(&mut tab_size, Some("Rust"), None);
    assert_eq!(language_settings_field(&tab_size, Some("Rust")), Some(4));

    language_settings_field_mut(&mut tab_size, None, Some(8));
    assert_eq!(language_settings_field(&tab_size, Some("Rust")), Some(8));
    assert_eq!(language_settings_field(&tab_size, Some("Go")), Some(8));

    language_settings_field_mut(&mut tab_size, Some("Go"), Some(3));
    assert_eq!(language_settings_field(&tab_size, Some("Go")), Some(3));
    assert_eq!(language_settings_field(&tab_size, None), Some(8));
}

#[test]
fn autosave_after_delay_keeps_or_defaults_its_delay() {
    let mut autosave = None;
    write_autosave_mode(&mut autosave, Some(AutosaveMode::AfterDelay));
    assert_eq!(autosave, Some(AutosaveSetting::AfterDelay { milliseconds: 1000 }));
    assert_eq!(autosave_mode(&autosave), Some(AutosaveMode::AfterDelay));

    write_autosave_delay(&mut autosave, Some(250));
    assert_eq!(autosave, Some(AutosaveSetting::AfterDelay { milliseconds: 250 }));
    write_autosave_mode(&mut autosave, Some(AutosaveMode::AfterDelay));
    assert_eq!(autosave, Some(AutosaveSetting::AfterDelay { milliseconds: 250 }));

    write_autosave_mode(&mut autosave, Some(AutosaveMode::OnFocusChange));
    assert_eq!(autosave, Some(AutosaveSetting::OnFocusChange));
    // A delay is ignored while autosave is of another kind.
    write_autosave_delay(&mut autosave, Some(5));
    assert_eq!(autosave, Some(AutosaveSetting::OnFocusChange));
    write_autosave_mode(&mut autosave, Some(AutosaveMode::AfterDelay));
    assert_eq!(autosave, Some(AutosaveSetting::AfterDelay { milliseconds: 1000 }));

    write_autosave_delay(&mut autosave, None);
    assert_eq!(autosave, None);
    assert_eq!(autosave_mode(&autosave), None);
    write_autosave_mode(&mut autosave, Some(AutosaveMode::Off));
    assert_eq!(autosave, Some(AutosaveSetting::Off));
    write_autosave_mode(&mut autosave, None);
    assert_eq!(autosave, None);
}

#[test]
fn theme_switches_between_one_theme_and_a_pair() {
    let default = ThemeSelection::Static("One Dark".to_string());
    let mut theme = None;
    write_theme_selection_kind(&mut theme, Some(ThemeSelectionKind::Dynamic), default.clone(), true);
    assert_eq!(
        theme,
        Some(ThemeSelection::Dynamic {
            mode: ThemeAppearanceMode::System,
            light: "One Dark".to_string(),
            dark: "One Dark".to_string(),
        })
    );

    let mut theme = Some(ThemeSelection::Dynamic {
        mode: ThemeAppearanceMode::System,
        light: "One Light".to_string(),
        dark: "One Dark".to_string(),
    });
    let mut other = theme.clone();
    write_theme_selection_kind(&mut theme, Some(ThemeSelectionKind::Static), default.clone(), true);
    assert_eq!(theme, Some(ThemeSelection::Static("One Light".to_string())));
    write_theme_selection_kind(&mut other, Some(ThemeSelectionKind::Static), default.clone(), false);
    assert_eq!(other, Some(ThemeSelection::Static("One Dark".to_string())));

    let mut dark = Some(ThemeSelection::Dynamic {
        mode: ThemeAppearanceMode::Dark,
        light: "A".to_string(),
        dark: "B".to_string(),
    });
    let kept = dark.clone();
    write_theme_selection_kind(&mut dark, Some(ThemeSelectionKind::Dynamic), default.clone(), true);
    assert_eq!(dark, kept);
    write_theme_selection_kind(&mut dark, Some(ThemeSelectionKind::Static), default.clone(), true);
    assert_eq!(dark, Some(ThemeSelection::Static("B".to_string())));
    write_theme_selection_kind(&mut dark, None, default, true);
    assert_eq!(dark, None);
}

#[test]
fn shell_kind_keeps_the_program() {
    let mut shell = None;
    write_shell_kind(&mut shell, Some(ShellKind::Program), Shell::System, false);
    assert_eq!(shell, Some(Shell::Program("sh".to_string())));
    let mut windows = None;
    write_shell_kind(&mut windows, Some(ShellKind::WithArguments), Shell::System, true);
    assert_eq!(
        windows,
        Some(Shell::WithArguments {
            program: "powershell.exe".to_string(),
            args: vec![],
            title_override: None,
        })
    );

    let mut shell = Some(Shell::WithArguments {
        program: "fish".to_string(),
        args: vec!["-l".to_string()],
        title_override: Some("Fish".to_string()),
    });
    let kept = shell.clone();
    write_shell_kind(&mut shell, Some(ShellKind::WithArguments), Shell::System, false);
    assert_eq!(shell, kept);
    write_shell_kind(&mut shell, Some(ShellKind::Program), Shell::System, false);
    assert_eq!(shell, Some(Shell::Program("fish".to_string())));
    write_shell_kind(&mut shell, Some(ShellKind::WithArguments), Shell::System, false);
    assert_eq!(
        shell,
        Some(Shell::WithArguments {
            program: "fish".to_string(),
            args: vec![],
            title_override: None,
        })
    );
    write_shell_kind(&mut shell, Some(ShellKind::System), Shell::System, false);
    assert_eq!(shell, Some(Shell::System));
    write_shell_kind(&mut shell, None, Shell::System, false);
    assert_eq!(shell, None);
}

#[test]
fn custom_button_layout_keeps_or_defaults() {
    let mut layout = None;
    write_button_layout_kind(&mut layout, Some(WindowButtonLayoutKind::Custom));
    assert_eq!(
        layout,
        Some(WindowButtonLayout::Custom("close:minimize,maximize".to_string()))
    );
    let mut layout = Some(WindowButtonLayout::Custom("minimize:close".to_string()));
    write_button_layout_kind(&mut layout, Some(WindowButtonLayoutKind::Custom));
    assert_eq!(layout, Some(WindowButtonLayout::Custom("minimize:close".to_string())));
    write_button_layout_kind(&mut layout, Some(WindowButtonLayoutKind::Standard));
    assert_eq!(layout, Some(WindowButtonLayout::Standard));
    write_button_layout_kind(&mut layout, Some(WindowButtonLayoutKind::PlatformDefault));
    assert_eq!(layout, Some(WindowButtonLayout::PlatformDefault));
    write_button_layout_kind(&mut layout, None);
    assert_eq!(layout, None);
}

#[test]
fn git_page_shows_switches_unless_git_is_off() {
    assert_eq!(git_enabled_discriminant(&None), None);
    assert_eq!(git_enabled_discriminant(&Some(GitEnabledSettings::default())), Some(1));
    let off = GitEnabledSettings { disable_git: Some(true), ..Default::default() };
    assert_eq!(git_enabled_discriminant(&Some(off)), Some(0));
    let on = GitEnabledSettings { disable_git: Some(false), ..Default::default() };
    assert_eq!(git_enabled_discriminant(&Some(on)), Some(1));
}

#[test]
fn icon_theme_switches_by_the_theme_rule() {
    let mut icon_theme = None;
    write_icon_theme_selection_kind(
        &mut icon_theme,
        Some(ThemeSelectionKind::Dynamic),
        "Zed (Default)".to_string(),
        false,
    );
    assert_eq!(
        icon_theme,
        Some(ThemeSelection::Dynamic {
            mode: ThemeAppearanceMode::System,
            light: "Zed (Default)".to_string(),
            dark: "Zed (Default)".to_string(),
        })
    );
    let mut icon_theme = Some(ThemeSelection::Dynamic {
        mode: ThemeAppearanceMode::System,
        light: "Light Icons".to_string(),
        dark: "Dark Icons".to_string(),
    });
    write_icon_theme_selection_kind(
        &mut icon_theme,
        Some(ThemeSelectionKind::Static),
        "Zed (Default)".to_string(),
        false,
    );
    assert_eq!(icon_theme, Some(ThemeSelection::Static("Dark Icons".to_string())));
}

#[test]
fn working_directory_keeps_a_fixed_directory() {
    let mut directory = None;
    write_working_directory_kind(&mut directory, Some(WorkingDirectoryKind::Always));
    assert_eq!(directory, Some(WorkingDirectory::Always { directory: String::new() }));
    let mut directory = Some(WorkingDirectory::Always { directory: "/tmp".to_string() });
    write_working_directory_kind(&mut directory, Some(WorkingDirectoryKind::Always));
    assert_eq!(directory, Some(WorkingDirectory::Always { directory: "/tmp".to_string() }));
    write_working_directory_kind(&mut directory, Some(WorkingDirectoryKind::AlwaysHome));
    assert_eq!(directory, Some(WorkingDirectory::AlwaysHome));
    write_working_directory_kind(&mut directory, Some(WorkingDirectoryKind::FirstProjectDirectory));
    assert_eq!(directory, Some(WorkingDirectory::FirstProjectDirectory));
    write_working_directory_kind(&mut directory, Some(WorkingDirectoryKind::CurrentFileDirectory));
    assert_eq!(directory, Some(WorkingDirectory::CurrentFileDirectory));
    write_working_directory_kind(&mut directory, Some(WorkingDirectoryKind::CurrentProjectDirectory));
    assert_eq!(directory, Some(WorkingDirectory::CurrentProjectDirectory));
    write_working_directory_kind(&mut directory, None);
    assert_eq!(directory, None);
}
