use gitgui::desktop::{
    editor_args_for, editor_argv, folder_name, native, pick_editor, program_key, program_key_of, split_command,
};

#[test]
fn splits_a_single_quoted_program_with_flags() {
    let cmd = "'C:/Program Files/Notepad++/notepad++.exe' -multiInst -nosession";
    let argv = split_command(cmd);
    assert_eq!(
        argv,
        vec![
            "C:/Program Files/Notepad++/notepad++.exe",
            "-multiInst",
            "-nosession"
        ]
    );
}

#[test]
fn splits_a_double_quoted_program() {
    let argv = split_command("\"C:\\tools\\my editor.exe\" --wait");
    assert_eq!(argv, vec!["C:\\tools\\my editor.exe", "--wait"]);
}

#[test]
fn an_empty_command_splits_to_nothing() {
    assert!(split_command("   ").is_empty());
    assert!(editor_argv("", "/tmp/f.rs", 4).is_none());
}

#[test]
fn notepad_plus_plus_gets_its_own_line_flag() {
    let cmd = "'C:/Program Files/Notepad++/notepad++.exe' -multiInst";
    let argv = editor_argv(cmd, "C:/repo/src/main.rs", 42).unwrap();
    assert_eq!(argv[0], "C:/Program Files/Notepad++/notepad++.exe");
    assert_eq!(argv[1], "-multiInst", "the configured flags are kept");
    assert_eq!(argv[2], "-n42");
    assert!(argv[3].ends_with("main.rs"));
}

#[test]
fn vscode_uses_goto_syntax() {
    let argv = editor_argv("code", "/repo/src/main.rs", 7).unwrap();
    assert_eq!(argv[0], "code");
    assert_eq!(argv[1], "-g");
    assert!(argv[2].ends_with("main.rs:7"), "got {:?}", argv[2]);
}

#[test]
fn vi_style_editors_use_a_plus_argument() {
    let argv = editor_argv("vim", "/repo/f.txt", 12).unwrap();
    assert_eq!(argv[1], "+12");
    assert!(argv[2].ends_with("f.txt"));
}

#[test]
fn jetbrains_editors_use_the_line_switch() {
    let argv = editor_argv("clion64.exe", "/repo/f.rs", 99).unwrap();
    assert_eq!(argv[1], "--line");
    assert_eq!(argv[2], "99");
}

#[test]
fn an_unknown_editor_is_just_handed_the_file() {
    let argv = editor_argv("mystery-editor", "/repo/f.rs", 5).unwrap();
    assert_eq!(argv.len(), 2, "no invented line flag: {argv:?}");
    assert!(argv[1].ends_with("f.rs"));
}

#[test]
fn native_rewrites_mixed_separators() {
    let text = native("C:/repo/root/src/file.rs");
    assert_eq!(text, "C:/repo/root/src/file.rs");
}

#[test]
fn native_leaves_a_clean_path_alone() {
    let clean = "/repo/src/file.rs";
    assert_eq!(native(clean), clean);
}

// ---------------------------------------------------------------------------
// Further cases
// ---------------------------------------------------------------------------

#[test]
fn an_empty_quoted_word_is_kept() {
    assert_eq!(split_command("vim '' -x"), vec!["vim", "", "-x"]);
    assert_eq!(split_command("  a\tb  "), vec!["a", "b"]);
}

#[test]
fn program_keys_drop_case_and_windows_extensions() {
    assert_eq!(program_key_of("Code.EXE"), "code");
    assert_eq!(program_key_of("run.cmd"), "run");
    assert_eq!(program_key_of("notepad++"), "notepad++");
    assert_eq!(program_key("/usr/bin/nvim"), "nvim");
}

#[test]
fn each_editor_family_gets_its_line_syntax() {
    let base = || vec!["ed".to_string()];
    assert_eq!(editor_args_for(base(), "subl", "f.rs", 3), vec!["ed", "f.rs:3"]);
    assert_eq!(editor_args_for(base(), "nano", "f.rs", 3), vec!["ed", "+3", "f.rs"]);
    assert_eq!(editor_args_for(base(), "codium", "f.rs", 3), vec!["ed", "-g", "f.rs:3"]);
    assert_eq!(editor_args_for(base(), "rider", "f.rs", 3), vec!["ed", "--line", "3", "f.rs"]);
    assert_eq!(editor_args_for(base(), "notepad++", "f.rs", 3), vec!["ed", "-n3", "f.rs"]);
    assert_eq!(editor_args_for(base(), "kak", "f.rs", 3), vec!["ed", "f.rs"]);
}

#[test]
fn the_most_specific_editor_setting_wins() {
    let s = |t: &str| Some(t.to_string());
    assert_eq!(pick_editor(s("code"), s("subl"), s("vim"), s("nano"), s("ed")).as_deref(), Some("code"));
    assert_eq!(pick_editor(None, s("subl"), s("vim"), None, None).as_deref(), Some("subl"));
    assert_eq!(pick_editor(s("   "), None, s("vim"), None, None).as_deref(), Some("vim"), "blank is unset");
    assert_eq!(pick_editor(None, None, None, s("nano"), s("ed")).as_deref(), Some("nano"));
    assert_eq!(pick_editor(None, None, None, None, s("ed")).as_deref(), Some("ed"));
    assert_eq!(pick_editor(None, None, s(""), None, None), None, "the system opener takes over");
}

#[test]
fn an_unquoted_command_splits_like_split_whitespace() {
    for cmd in ["code -w", "  vim  +3   file.txt ", "subl\t--wait\n", "", "   ", "idea64"] {
        let expected: Vec<String> = cmd.split_whitespace().map(str::to_string).collect();
        assert_eq!(split_command(cmd), expected, "{cmd:?}");
    }
}

#[test]
fn a_plain_program_name_is_its_own_key() {
    assert_eq!(program_key("code"), "code");
    assert_eq!(program_key("Notepad++.EXE"), "notepad++");
    assert_eq!(program_key("/usr/bin/nvim"), "nvim");
    let argv = editor_argv("code --wait", "/r/f.txt", 3).unwrap();
    assert_eq!(argv[..3], ["code", "--wait", "-g"]);
    assert!(argv[3].ends_with("f.txt:3"));
}

#[test]
fn native_keeps_the_file_name_at_the_end() {
    assert!(native("a//b/./c.rs").ends_with("c.rs"));
    assert!(!native(".").is_empty());
    assert_eq!(native(""), "");
}

#[test]
fn the_editor_is_handed_the_chosen_file() {
    let argv = editor_argv("vim", "/repo/src/lib.rs", 3).unwrap();
    assert_eq!(argv, vec!["vim", "+3", "/repo/src/lib.rs"]);
}

#[test]
fn a_folder_is_shown_by_its_last_component() {
    assert_eq!(folder_name("/home/me/project"), "project");
    assert_eq!(folder_name("project"), "project");
    assert_eq!(folder_name("/"), "/");
}
