use roncad::document::{
    dialog_path, open_step, save_step, trim_text, OpenStep, SaveStep, MISSING_PATH_MESSAGE,
    close_step, dedupe_recent_files, default_project_filename, discard_step, document_label,
    document_label_from, normalize_project_save_path, push_recent_file, push_recent_file_with,
    request_step, save_file_name, settings_from_stored, viewport_title, viewport_title_from,
    AppSettings, CloseStep, DiscardChangesDialogState, DiscardStep, FileDialogMode,
    FileDialogState, PendingDocumentAction, RequestStep, SettingsError,
    APP_SETTINGS_SCHEMA_VERSION, MAX_RECENT_FILES,
};

#[test]
fn default_project_filename_normalizes_name() {
    assert_eq!(
        default_project_filename("My First Project"),
        "my_first_project.roncad.json"
    );
}

#[test]
fn document_label_prefers_filename() {
    assert_eq!(
        document_label("Untitled", Some("/tmp/bracket.roncad.json")),
        "bracket.roncad.json"
    );
}

#[test]
fn viewport_title_marks_dirty_documents() {
    assert_eq!(
        viewport_title("Untitled", Some("/tmp/bracket.roncad.json"), true),
        "bracket.roncad.json* - RONCAD"
    );
}

#[test]
fn normalize_project_save_path_appends_default_extension() {
    assert_eq!(
        normalize_project_save_path(String::from("/tmp/bracket")),
        String::from("/tmp/bracket.roncad.json")
    );
    assert_eq!(
        normalize_project_save_path(String::from("/tmp/bracket.json")),
        String::from("/tmp/bracket.json")
    );
}

#[test]
fn normalize_project_save_path_handles_bare_names_and_paths_without_a_name() {
    assert_eq!(
        normalize_project_save_path(String::from("bracket")),
        String::from("bracket.roncad.json")
    );
    assert_eq!(
        normalize_project_save_path(String::from("bracket.json")),
        String::from("bracket.json")
    );
    assert_eq!(normalize_project_save_path(String::new()), String::new());
    assert_eq!(normalize_project_save_path(String::from("/")), String::from("/"));
    assert_eq!(normalize_project_save_path(String::from("/tmp/..")), String::from("/tmp/.."));
}

#[test]
fn push_recent_file_deduplicates_and_caps_length() {
    let mut recent_files = vec![
        String::from("/tmp/a.roncad.json"),
        String::from("/tmp/b.roncad.json"),
        String::from("/tmp/c.roncad.json"),
    ];

    push_recent_file(&mut recent_files, String::from("/tmp/b.roncad.json"));
    assert_eq!(recent_files[0], String::from("/tmp/b.roncad.json"));
    assert_eq!(recent_files.len(), 3);

    for index in 0..(MAX_RECENT_FILES + 2) {
        push_recent_file(&mut recent_files, format!("/tmp/{index}.roncad.json"));
    }
    assert_eq!(recent_files.len(), MAX_RECENT_FILES);
}

#[test]
fn dedupe_recent_files_preserves_most_recent_order() {
    let recent_files = dedupe_recent_files(vec![
        String::from("/tmp/a.roncad.json"),
        String::from("/tmp/b.roncad.json"),
        String::from("/tmp/a.roncad.json"),
    ]);
    assert_eq!(
        recent_files,
        vec![
            String::from("/tmp/a.roncad.json"),
            String::from("/tmp/b.roncad.json"),
        ]
    );
}

#[test]
fn default_project_filename_collapses_and_trims_separators() {
    assert_eq!(default_project_filename("  --Bracket__v2!! "), "bracket_v2.roncad.json");
    assert_eq!(default_project_filename("???"), "untitled.roncad.json");
    assert_eq!(default_project_filename(""), "untitled.roncad.json");
    assert_eq!(default_project_filename("ABC"), "abc.roncad.json");
}

#[test]
fn document_label_falls_back_to_project_name() {
    assert_eq!(document_label("Untitled", None), "Untitled");
    assert_eq!(
        document_label_from("Project", Some(String::new())),
        "Project"
    );
    assert_eq!(
        document_label_from("Project", Some(String::from("part.json"))),
        "part.json"
    );
    assert_eq!(document_label_from("Project", None), "Project");
}

#[test]
fn viewport_title_of_clean_document_has_no_marker() {
    assert_eq!(viewport_title("Untitled", None, false), "Untitled - RONCAD");
    assert_eq!(viewport_title_from("a.json", true), "a.json* - RONCAD");
}

#[test]
fn save_file_name_only_extends_names_without_a_dot() {
    assert_eq!(save_file_name("bracket"), Some(String::from("bracket.roncad.json")));
    assert_eq!(save_file_name("bracket.json"), None);
    assert_eq!(save_file_name(".hidden"), None);
}

#[test]
fn push_recent_file_with_drops_flagged_entries_and_caps() {
    let mut recent = vec![String::from("a"), String::from("b"), String::from("c")];
    push_recent_file_with(&mut recent, String::from("B"), &[false, true, false]);
    assert_eq!(recent, vec![String::from("B"), String::from("a"), String::from("c")]);

    let mut full: Vec<String> = (0..MAX_RECENT_FILES).map(|i| format!("{i}")).collect();
    let flags = vec![false; MAX_RECENT_FILES];
    push_recent_file_with(&mut full, String::from("new"), &flags);
    assert_eq!(full.len(), MAX_RECENT_FILES);
    assert_eq!(full[0], "new");
    assert_eq!(full[MAX_RECENT_FILES - 1], format!("{}", MAX_RECENT_FILES - 2));
}

#[test]
fn settings_of_current_schema_are_accepted() {
    let settings = settings_from_stored(
        APP_SETTINGS_SCHEMA_VERSION,
        vec![String::from("/tmp/a.roncad.json")],
        Some(String::from("/tmp/a.roncad.json")),
    )
    .expect("current schema");
    assert_eq!(
        settings,
        AppSettings {
            recent_files: vec![String::from("/tmp/a.roncad.json")],
            last_project: Some(String::from("/tmp/a.roncad.json")),
        }
    );
    assert_eq!(AppSettings::default().recent_files.len(), 0);
    assert_eq!(AppSettings::default().last_project, None);
}

#[test]
fn settings_of_other_schema_are_refused() {
    assert_eq!(
        settings_from_stored(APP_SETTINGS_SCHEMA_VERSION + 1, Vec::new(), None),
        Err(SettingsError::UnsupportedSchemaVersion {
            found: APP_SETTINGS_SCHEMA_VERSION + 1,
            expected: APP_SETTINGS_SCHEMA_VERSION,
        })
    );
}

#[test]
fn pending_actions_have_their_dialog_text() {
    assert_eq!(PendingDocumentAction::Quit.heading(), "Quit RONCAD?");
    assert_eq!(PendingDocumentAction::OpenProject.heading(), "Open Another Project?");
    assert_eq!(
        PendingDocumentAction::OpenPath(String::from("/tmp/x")).heading(),
        "Open Another Project?"
    );
    assert_eq!(
        PendingDocumentAction::OpenProject.description(),
        "Save changes to the current project before opening a different file."
    );
}

#[test]
fn dialogs_start_without_error() {
    let dialog = FileDialogState::new(FileDialogMode::Open, String::from("/tmp"), None);
    assert_eq!(dialog.mode, FileDialogMode::Open);
    assert_eq!(dialog.path_text, "/tmp");
    assert!(dialog.error.is_none());
    let discard = DiscardChangesDialogState::new(PendingDocumentAction::Quit);
    assert_eq!(discard.action, PendingDocumentAction::Quit);
    assert!(discard.error.is_none());
}

#[test]
fn document_requests_ask_first_only_when_dirty() {
    assert_eq!(request_step(false, &PendingDocumentAction::Quit), RequestStep::Execute);
    assert_eq!(
        request_step(true, &PendingDocumentAction::Quit),
        RequestStep::AskFirst { cancel_close: true }
    );
    assert_eq!(
        request_step(true, &PendingDocumentAction::OpenProject),
        RequestStep::AskFirst { cancel_close: false }
    );
}

#[test]
fn discard_dialog_buttons_lead_to_their_steps() {
    assert_eq!(discard_step(true, true, true, true), DiscardStep::Close);
    assert_eq!(discard_step(false, true, true, true), DiscardStep::Discard);
    assert_eq!(discard_step(false, false, true, true), DiscardStep::SaveThenExecute);
    assert_eq!(discard_step(false, false, true, false), DiscardStep::AskSavePath);
    assert_eq!(discard_step(false, false, false, true), DiscardStep::Wait);
}

#[test]
fn window_close_is_guarded_while_dirty() {
    assert_eq!(close_step(true, true, false), CloseStep::AllowOnce);
    assert_eq!(close_step(false, false, false), CloseStep::Allow);
    assert_eq!(close_step(false, true, false), CloseStep::Hold { ask: true });
    assert_eq!(close_step(false, true, true), CloseStep::Hold { ask: false });
}

#[test]
fn file_dialog_wording_follows_its_mode() {
    assert_eq!(FileDialogMode::Open.heading(), "Open Project");
    assert_eq!(FileDialogMode::SaveAs.heading(), "Save Project As");
    assert_eq!(FileDialogMode::Open.confirm_label(), "Open");
    assert_eq!(FileDialogMode::SaveAs.confirm_label(), "Save");
}

#[test]
fn dialog_paths_are_trimmed_and_required() {
    assert_eq!(dialog_path("  /tmp/part.roncad.json \n"), Some(String::from("/tmp/part.roncad.json")));
    assert_eq!(dialog_path(" \t "), None);
    assert_eq!(dialog_path(""), None);
    assert_eq!(MISSING_PATH_MESSAGE, "Path is required.");
    assert_eq!(trim_text("\u{3000} a b \u{2003}"), "a b");
    assert_eq!(trim_text("ab"), "ab");
}

#[test]
fn shell_requests_follow_their_priorities() {
    assert_eq!(open_step(true, true, true), OpenStep::OpenPath);
    assert_eq!(open_step(false, true, true), OpenStep::OpenProject);
    assert_eq!(open_step(false, false, true), OpenStep::OpenByPath);
    assert_eq!(open_step(false, false, false), OpenStep::Nothing);
    assert_eq!(save_step(true, true, true, true), SaveStep::SaveAsWithPicker);
    assert_eq!(save_step(false, true, true, true), SaveStep::SaveAsByPath);
    assert_eq!(save_step(false, false, true, true), SaveStep::SaveToPath);
    assert_eq!(save_step(false, false, true, false), SaveStep::SaveAsWithPicker);
    assert_eq!(save_step(false, false, false, true), SaveStep::Nothing);
}

#[test]
fn normalizing_a_save_path_twice_changes_nothing_more() {
    let once = normalize_project_save_path(String::from("/tmp/bracket"));
    assert_eq!(normalize_project_save_path(once.clone()), once);
    assert_eq!(
        normalize_project_save_path(String::from("projects/part")),
        String::from("projects/part.roncad.json")
    );
}

#[test]
fn reopening_a_listed_file_moves_it_to_the_front() {
    let mut recent = vec![String::from("/a"), String::from("/b"), String::from("/c")];
    push_recent_file(&mut recent, String::from("/b"));
    assert_eq!(recent, vec![String::from("/b"), String::from("/a"), String::from("/c")]);
}

#[test]
fn dedupe_keeps_first_occurrences_up_to_the_cap() {
    let mut paths: Vec<String> = Vec::new();
    for i in 0..10 {
        paths.push(format!("/p{i}"));
        paths.push(String::from("/p0"));
    }
    let recent = dedupe_recent_files(paths);
    let expected: Vec<String> = (0..8).map(|i| format!("/p{i}")).collect();
    assert_eq!(recent, expected);
    assert_eq!(document_label("Untitled", Some("/")), "Untitled");
    assert_eq!(document_label("Untitled", Some("/tmp/..")), "Untitled");
}

#[test]
fn trimming_agrees_with_char_is_whitespace() {
    for c in (0u32..=0x3100).chain([0xfeff, 0x10ffff]).filter_map(char::from_u32) {
        let text = format!("{c}x{c}");
        let expected = if c.is_whitespace() { String::from("x") } else { text.clone() };
        assert_eq!(trim_text(&text), expected, "U+{:04X}", c as u32);
    }
}

#[test]
fn default_file_name_joins_alphanumeric_runs() {
    assert_eq!(default_project_filename("Body #2 (final)"), "body_2_final.roncad.json");
    assert_eq!(default_project_filename("__Ünïcode__"), "n_code.roncad.json");
    assert_eq!(default_project_filename("  "), "untitled.roncad.json");
}
