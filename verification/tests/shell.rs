use sam_toolkit::shell::{
    commands, levenshtein, suggest, CommandRunOutcome, Launch, LineEditor, PromptReply, Shell,
    ShellKey, ShellOutput,
};

fn shell() -> Shell {
    Shell::new(vec!["samlang".to_string(), "website".to_string()])
}

fn text(outcome: CommandRunOutcome) -> String {
    match outcome {
        CommandRunOutcome::RenderText(ShellOutput::Text(text)) => text,
        _ => panic!("expected plain text"),
    }
}

#[test]
fn blank_lines_do_nothing_and_are_not_recorded() {
    let mut shell = shell();
    assert_eq!(shell.execute("   "), CommandRunOutcome::RenderText(ShellOutput::Empty));
    assert!(shell.history().is_empty());
}

#[test]
fn commands_are_recorded_trimmed() {
    let mut shell = shell();
    shell.execute("  echo hi  ");
    shell.execute("pwd");
    assert_eq!(shell.history(), &vec!["echo hi".to_string(), "pwd".to_string()]);
    match shell.execute("history") {
        CommandRunOutcome::RenderText(ShellOutput::History(lines)) => {
            assert_eq!(lines, vec!["echo hi", "pwd", "history"]);
        }
        _ => panic!("expected the history"),
    }
}

#[test]
fn echo_pwd_and_whoami_print_text() {
    let mut shell = shell();
    assert_eq!(text(shell.execute("echo  hello   world")), "hello world\n");
    assert_eq!(text(shell.execute("echo")), "\n");
    assert_eq!(text(shell.execute("pwd")), "/home/sam\n");
    assert_eq!(text(shell.execute("whoami")), "sam\n");
}

#[test]
fn cd_moves_between_directories() {
    let mut shell = shell();
    assert_eq!(shell.execute("cd projects/"), CommandRunOutcome::RenderText(ShellOutput::Empty));
    assert_eq!(text(shell.execute("pwd")), "/home/sam/projects\n");
    assert_eq!(
        shell.execute("cd samlang"),
        CommandRunOutcome::RenderText(ShellOutput::NotADirectory("samlang".to_string()))
    );
    assert_eq!(text(shell.execute("pwd")), "/home/sam/projects\n");
    shell.execute("cd ..");
    assert_eq!(text(shell.execute("pwd")), "/home/sam\n");
    shell.execute("cd ../..");
    assert_eq!(text(shell.execute("pwd")), "/home/sam\n");
    shell.execute("cd ./projects");
    shell.execute("cd");
    assert_eq!(text(shell.execute("pwd")), "/home/sam\n");
}

#[test]
fn ls_lists_directories() {
    let mut shell = shell();
    match shell.execute("ls") {
        CommandRunOutcome::RenderText(ShellOutput::Listing(entries)) => {
            assert_eq!(entries.len(), 6);
            assert_eq!(entries[0], ("projects/".to_string(), true));
            assert_eq!(entries[5], ("timeline.txt".to_string(), false));
        }
        _ => panic!("expected a listing"),
    }
    assert_eq!(
        shell.execute("ls projects"),
        CommandRunOutcome::RenderText(ShellOutput::Listing(vec![
            ("samlang".to_string(), false),
            ("website".to_string(), false)
        ]))
    );
    assert_eq!(
        shell.execute("ls nowhere"),
        CommandRunOutcome::RenderText(ShellOutput::NoSuchDirectory("nowhere".to_string()))
    );
}

#[test]
fn cat_finds_files() {
    let mut shell = shell();
    assert_eq!(shell.execute("cat"), CommandRunOutcome::RenderText(ShellOutput::CatUsage));
    assert_eq!(
        shell.execute("cat about.txt"),
        CommandRunOutcome::RenderText(ShellOutput::File(vec!["about.txt".to_string()]))
    );
    assert_eq!(
        shell.execute("cat projects/website"),
        CommandRunOutcome::RenderText(ShellOutput::File(vec![
            "projects".to_string(),
            "website".to_string()
        ]))
    );
    assert_eq!(
        shell.execute("cat projects"),
        CommandRunOutcome::RenderText(ShellOutput::NoSuchFile("projects".to_string()))
    );
}

#[test]
fn dev_sam_launches_the_app() {
    let mut shell = shell();
    assert_eq!(shell.execute("dev-sam"), CommandRunOutcome::LaunchApp(Launch { touch: false }));
    assert_eq!(
        shell.execute("dev-sam --touch"),
        CommandRunOutcome::LaunchApp(Launch { touch: true })
    );
    assert_eq!(shell.execute("clear"), CommandRunOutcome::Clear);
    assert_eq!(shell.execute("help"), CommandRunOutcome::RenderText(ShellOutput::Help));
}

#[test]
fn unknown_commands_get_the_closest_suggestion() {
    let mut shell = shell();
    assert_eq!(
        shell.execute("lss"),
        CommandRunOutcome::RenderText(ShellOutput::Unknown {
            command: "lss".to_string(),
            suggestion: Some("ls")
        })
    );
    assert_eq!(
        shell.execute("frobnicate"),
        CommandRunOutcome::RenderText(ShellOutput::Unknown {
            command: "frobnicate".to_string(),
            suggestion: None
        })
    );
    // "ca" is one edit from both "cat" and "cd"; the earlier one wins.
    assert_eq!(suggest("ca"), Some("cat"));
    assert_eq!(suggest("hlep"), Some("help"));
    assert_eq!(commands().len(), 10);
}

#[test]
fn levenshtein_counts_edits() {
    assert_eq!(levenshtein("", ""), 0);
    assert_eq!(levenshtein("abc", ""), 3);
    assert_eq!(levenshtein("", "ab"), 2);
    assert_eq!(levenshtein("kitten", "sitting"), 3);
    assert_eq!(levenshtein("flaw", "lawn"), 2);
    assert_eq!(levenshtein("héllo", "hello"), 1);
}

#[test]
fn tab_completes_commands_and_paths() {
    let mut shell = shell();
    assert_eq!(shell.tab_complete("c"), "cat\ncd\nclear");
    assert_eq!(shell.tab_complete("  who"), "whoami");
    assert_eq!(shell.tab_complete("ls "), "");
    assert_eq!(shell.tab_complete("ls pro"), "projects/");
    assert_eq!(shell.tab_complete("cat projects/s"), "projects/samlang");
    assert_eq!(shell.tab_complete("cat ./projects/w"), "./projects/website");
    assert_eq!(shell.tab_complete("echo pro"), "");
    assert_eq!(shell.tab_complete("cat nowhere/x"), "");
    shell.execute("cd projects");
    assert_eq!(shell.tab_complete("cat "), "");
    assert_eq!(shell.tab_complete("cat w"), "website");
    assert_eq!(shell.tab_complete("cd ../r"), "../readme.md\n../resume.pdf");
}

#[test]
fn the_line_editor_edits_at_the_cursor() {
    let mut shell = shell();
    let mut editor = LineEditor::new();
    for c in "ecoh".chars() {
        assert_eq!(editor.handle_key(ShellKey::Char(c), &mut shell), PromptReply::Prompt);
    }
    editor.handle_key(ShellKey::Left, &mut shell);
    editor.handle_key(ShellKey::Left, &mut shell);
    editor.handle_key(ShellKey::Delete, &mut shell);
    assert_eq!((editor.line.as_str(), editor.cursor), ("ech", 2));
    editor.handle_key(ShellKey::Backspace, &mut shell);
    editor.handle_key(ShellKey::Char('c'), &mut shell);
    assert_eq!((editor.line.as_str(), editor.cursor), ("ech", 2));
    editor.handle_key(ShellKey::End, &mut shell);
    editor.handle_key(ShellKey::Char('o'), &mut shell);
    editor.handle_key(ShellKey::Home, &mut shell);
    assert_eq!((editor.line.as_str(), editor.cursor), ("echo", 0));
    editor.handle_key(ShellKey::Control('e'), &mut shell);
    assert_eq!(editor.cursor, 4);
    for c in " é".chars() {
        editor.handle_key(ShellKey::Char(c), &mut shell);
    }
    assert_eq!(
        editor.handle_key(ShellKey::Enter, &mut shell),
        PromptReply::Submitted(CommandRunOutcome::RenderText(ShellOutput::Text("é\n".to_string())))
    );
    assert_eq!((editor.line.as_str(), editor.cursor, editor.history_index), ("", 0, 1));
}

#[test]
fn the_line_editor_walks_the_history() {
    let mut shell = shell();
    let mut editor = LineEditor::new();
    shell.execute("pwd");
    shell.execute("whoami");
    editor.history_index = 2;
    editor.handle_key(ShellKey::Up, &mut shell);
    assert_eq!(editor.line, "whoami");
    editor.handle_key(ShellKey::Up, &mut shell);
    editor.handle_key(ShellKey::Up, &mut shell);
    assert_eq!(editor.line, "pwd");
    editor.handle_key(ShellKey::Down, &mut shell);
    editor.handle_key(ShellKey::Down, &mut shell);
    assert_eq!((editor.line.as_str(), editor.history_index), ("", 2));
}

#[test]
fn the_line_editor_completes_and_controls() {
    let mut shell = shell();
    let mut editor = LineEditor::new();
    editor.set_line("cd pro".to_string());
    assert_eq!(editor.handle_key(ShellKey::Tab, &mut shell), PromptReply::Prompt);
    assert_eq!(editor.line, "cd projects/");
    editor.set_line("wh".to_string());
    editor.handle_key(ShellKey::Tab, &mut shell);
    assert_eq!(editor.line, "whoami ");
    editor.set_line("c".to_string());
    assert_eq!(
        editor.handle_key(ShellKey::Tab, &mut shell),
        PromptReply::Candidates(vec!["cat".to_string(), "cd".to_string(), "clear".to_string()])
    );
    editor.set_line("xyz".to_string());
    assert_eq!(editor.handle_key(ShellKey::Tab, &mut shell), PromptReply::Nothing);
    editor.cursor = 1;
    assert_eq!(editor.handle_key(ShellKey::Control('u'), &mut shell), PromptReply::Prompt);
    assert_eq!((editor.line.as_str(), editor.cursor), ("yz", 0));
    assert_eq!(editor.handle_key(ShellKey::Control('l'), &mut shell), PromptReply::ClearScreen);
    assert_eq!(editor.handle_key(ShellKey::Control('c'), &mut shell), PromptReply::Interrupted);
    assert_eq!(editor.line, "");
    assert_eq!(editor.handle_key(ShellKey::Other, &mut shell), PromptReply::Nothing);
    editor.opening_line(true);
    assert_eq!(editor.line, "dev-sam --touch");
    editor.after_dev_sam_app_exit();
    assert_eq!(editor.line, "");
}
