use pelagos::terminal::{
    escape_applescript, interactive_command, iterm_script, linux_launcher, linux_terminal_candidates,
    mac_launcher, program_args, shell_quote, terminal_choice, terminal_script, TerminalLauncher,
};

#[test]
fn shell_quote_wraps_and_escapes() {
    assert_eq!(shell_quote("alpine:latest"), "'alpine:latest'");
    assert_eq!(shell_quote("it's"), "'it'\\''s'");
    assert_eq!(shell_quote(""), "''");
    assert_eq!(shell_quote("a b;$c"), "'a b;$c'");
}

#[test]
fn escape_applescript_escapes_backslashes_then_quotes() {
    assert_eq!(escape_applescript("plain"), "plain");
    assert_eq!(escape_applescript("say \"hi\""), "say \\\"hi\\\"");
    assert_eq!(escape_applescript("a\\b"), "a\\\\b");
    assert_eq!(escape_applescript("\\\""), "\\\\\\\"");
}

#[test]
fn interactive_command_line() {
    // The interactive run of the manual test plan.
    let cmd = interactive_command(
        "pelagos",
        "alpine:latest",
        Some("itest"),
        &vec!["/bin/sh".to_string()],
        &vec![],
        &vec![],
    );
    assert_eq!(cmd, "'pelagos' run --tty --interactive --name 'itest' 'alpine:latest' '/bin/sh'");
    let cmd = interactive_command(
        "/opt/homebrew/bin/pelagos",
        "nginx",
        None,
        &vec![],
        &vec!["8080:80".to_string()],
        &vec!["~/site:/www:ro".to_string()],
    );
    assert_eq!(
        cmd,
        "'/opt/homebrew/bin/pelagos' run --tty --interactive -p '8080:80' -n pasta -v '~/site:/www:ro' 'nginx'"
    );
}

#[test]
fn scripts() {
    assert_eq!(
        terminal_script("'p' run \"x\""),
        "tell application \"Terminal\"\n\tdo script (\":\" & linefeed & \"'p' run \\\"x\\\"\")\n\tactivate\nend tell"
    );
    assert_eq!(
        iterm_script("ls"),
        "tell application \"iTerm\" to create window with default profile command \"ls\""
    );
    assert_eq!(program_args("ls -l"), vec!["-e", "sh", "-c", "ls -l"]);
}

#[test]
fn mac_terminal_choice() {
    assert!(matches!(mac_launcher(Some("wezterm".into()), "iTerm.app"),
        TerminalLauncher::Program(p) if p == "wezterm"));
    assert!(matches!(mac_launcher(None, "iTerm.app"), TerminalLauncher::ITerm));
    assert!(matches!(mac_launcher(None, "kitty"), TerminalLauncher::Program(p) if p == "kitty"));
    assert!(matches!(mac_launcher(None, "ghostty"), TerminalLauncher::Program(p) if p == "ghostty"));
    assert!(matches!(mac_launcher(None, "alacritty"),
        TerminalLauncher::Program(p) if p == "alacritty"));
    assert!(matches!(mac_launcher(None, "Apple_Terminal"), TerminalLauncher::AppleTerminal));
    assert!(matches!(mac_launcher(None, ""), TerminalLauncher::AppleTerminal));
}

#[test]
fn linux_terminal_choice() {
    assert!(matches!(linux_launcher(Some("foot".into())),
        Ok(TerminalLauncher::Program(p)) if p == "foot"));
    let candidates = linux_terminal_candidates();
    assert_eq!(candidates, vec!["x-terminal-emulator", "gnome-terminal", "xfce4-terminal", "xterm"]);
    match linux_launcher(None) {
        Ok(TerminalLauncher::Program(p)) => assert!(candidates.contains(&p)),
        Ok(other) => panic!("unexpected {other:?}"),
        Err(m) => assert_eq!(m, "no terminal emulator found — set $PELAGOS_TERMINAL"),
    }
}

#[test]
fn first_terminal_found_is_chosen() {
    let prog = |r: Result<TerminalLauncher, String>| match r {
        Ok(TerminalLauncher::Program(p)) => p,
        other => panic!("unexpected {other:?}"),
    };
    assert_eq!(prog(terminal_choice(None, &vec![false, true, true, false])), "gnome-terminal");
    assert_eq!(prog(terminal_choice(None, &vec![true, false, false, true])), "x-terminal-emulator");
    assert_eq!(prog(terminal_choice(None, &vec![false, false, false, true])), "xterm");
    assert_eq!(prog(terminal_choice(Some("foot".into()), &vec![true, true, true, true])), "foot");
    assert_eq!(
        terminal_choice(None, &vec![false, false, false, false]).unwrap_err(),
        "no terminal emulator found — set $PELAGOS_TERMINAL"
    );
}

/// Splits a simple command line into words the way a POSIX shell does for
/// blanks, single quotes and backslash escapes.
fn shell_split(line: &str) -> Vec<String> {
    let mut words = Vec::new();
    let mut cur = String::new();
    let mut started = false;
    let mut quoted = false;
    let mut chars = line.chars();
    while let Some(c) = chars.next() {
        if quoted {
            if c == '\'' {
                quoted = false;
            } else {
                cur.push(c);
            }
        } else if c == '\'' {
            quoted = true;
            started = true;
        } else if c == '\\' {
            cur.push(chars.next().expect("escaped character"));
            started = true;
        } else if c == ' ' || c == '\t' {
            if started {
                words.push(std::mem::take(&mut cur));
                started = false;
            }
        } else {
            cur.push(c);
            started = true;
        }
    }
    assert!(!quoted);
    if started {
        words.push(cur);
    }
    words
}

#[test]
fn command_line_splits_back_into_words() {
    let args = vec!["sh".to_string(), "-c".to_string(), "echo 'hi' && ls $HOME".to_string(), "".to_string()];
    let ports = vec!["8080:80".to_string()];
    let volumes = vec!["~/it's here:/data:ro".to_string()];
    let cmd = interactive_command("/opt/my bin/pelagos", "alpine:3.19", Some("we'ird"), &args, &ports, &volumes);
    assert_eq!(
        shell_split(&cmd),
        vec![
            "/opt/my bin/pelagos", "run", "--tty", "--interactive", "--name", "we'ird", "-p", "8080:80",
            "-n", "pasta", "-v", "~/it's here:/data:ro", "alpine:3.19", "sh", "-c",
            "echo 'hi' && ls $HOME", ""
        ]
    );
}
