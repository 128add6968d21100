use seela::config::{config_candidates, Config, Folders, FzfConfig, Pane, SplitDirection, Window};
use seela::tmux::{
    attach_args, compose_confirm_line, compose_run_line, has_session_args, leaf_commands,
    new_session_args, plan_exec, select_window_args, session_name_for, split_args, split_flag,
    step_calls, window_args, window_split_flag, ExecStep, ExecTask, Pause,
};

fn task(commands: &[&str]) -> ExecTask {
    ExecTask {
        pane_id: "%3".to_string(),
        commands: commands.iter().map(|s| s.to_string()).collect(),
        path: "/home/u/app".to_string(),
        session_name: "app".to_string(),
        window_name: "editor".to_string(),
    }
}

fn line(step: &ExecStep) -> (bool, String) {
    match step {
        ExecStep::RunLine(reset, l) => (*reset, l.clone()),
        other => panic!("not a line: {:?}", other),
    }
}

#[test]
fn session_names_replace_dots() {
    assert_eq!(session_name_for("/home/u/my.app"), Some("my_app".to_string()));
    assert_eq!(session_name_for("/home/u/.dotfiles/"), Some("_dotfiles".to_string()));
    assert_eq!(session_name_for("/"), None);
}

#[test]
fn tmux_commands_are_spelled_out() {
    assert_eq!(has_session_args("app"), vec!["has-session", "-t", "app"]);
    assert_eq!(new_session_args("app", "/p"), vec!["new-session", "-d", "-s", "app", "-c", "/p"]);
    assert_eq!(
        window_args(0, "app", "editor", "/p"),
        vec!["new-session", "-d", "-s", "app", "-n", "editor", "-c", "/p", "-P", "-F", "#{pane_id}"]
    );
    assert_eq!(
        window_args(1, "app", "logs", "/p"),
        vec!["new-window", "-t", "app", "-n", "logs", "-c", "/p", "-P", "-F", "#{pane_id}"]
    );
    assert_eq!(
        split_args("-v", "30%", "%1", "/p"),
        vec!["split-window", "-d", "-v", "-l", "30%", "-t", "%1", "-c", "/p", "-P", "-F", "#{pane_id}"]
    );
    assert_eq!(select_window_args("app", "editor"), vec!["select-window", "-t", "app:editor"]);
    assert_eq!(attach_args("app", true), vec!["switch-client", "-t", "app"]);
    assert_eq!(attach_args("app", false), vec!["attach-session", "-t", "app"]);
}

#[test]
fn split_flags() {
    assert_eq!(split_flag(Some(SplitDirection::Vertical)), "-h");
    assert_eq!(split_flag(Some(SplitDirection::Horizontal)), "-v");
    assert_eq!(split_flag(None), "-v");
    assert_eq!(window_split_flag(), "-h");
}

#[test]
fn only_leaf_panes_with_commands_run_them() {
    let leaf = Pane { split: None, panes: vec![], commands: Some(vec!["nvim".to_string()]) };
    assert_eq!(leaf_commands(&leaf), Some(vec!["nvim".to_string()]));
    let empty = Pane { split: None, panes: vec![], commands: Some(vec![]) };
    assert_eq!(leaf_commands(&empty), None);
    let none = Pane { split: None, panes: vec![], commands: None };
    assert_eq!(leaf_commands(&none), None);
    let parent = Pane { split: Some(SplitDirection::Vertical), panes: vec![leaf.clone()], commands: Some(vec!["x".to_string()]) };
    assert_eq!(leaf_commands(&parent), None);
}

#[test]
fn window_index_finds_the_first_named_window() {
    let w = |n: &str| Window { name: n.to_string(), panes: vec![] };
    let config = Config {
        folders: Folders { search_dirs: vec![], force_include: None, exclude_paths: None },
        fzf: FzfConfig::default(),
        windows: vec![w("editor"), w("logs"), w("editor")],
        custom_sessions: vec![],
        default_session: None,
        project_types: vec![],
    };
    assert_eq!(config.window_index("editor"), Some(0));
    assert_eq!(config.window_index("logs"), Some(1));
    assert_eq!(config.window_index("shell"), None);
}

#[test]
fn plain_lines_are_typed_as_they_stand() {
    let t = task(&["  nvim .", "git status"]);
    assert_eq!(line(&plan_exec(&t, 0, None)), (true, "  nvim .".to_string()));
    assert_eq!(line(&plan_exec(&t, 1, None)), (false, "git status".to_string()));
}

#[test]
fn blank_lines_are_skipped() {
    let t = task(&["   "]);
    assert!(matches!(plan_exec(&t, 0, None), ExecStep::Skip));
}

#[test]
fn wait_operators_pause() {
    let t = task(&["@wait 2", "@wait-milli 250", "@wait-ms 40", "@wait soon", "@wait  3"]);
    assert!(matches!(plan_exec(&t, 0, None), ExecStep::WaitSecs(2)));
    assert!(matches!(plan_exec(&t, 1, None), ExecStep::WaitMillis(250)));
    assert!(matches!(plan_exec(&t, 2, None), ExecStep::WaitMillis(40)));
    assert_eq!(line(&plan_exec(&t, 3, None)), (false, "@wait soon".to_string()));
    assert_eq!(line(&plan_exec(&t, 4, None)), (false, "@wait  3".to_string()));
}

#[test]
fn send_key_operators_send_keys() {
    let t = task(&["@send-key C-l", "@sk Enter"]);
    match plan_exec(&t, 0, None) {
        ExecStep::SendKey(k) => assert_eq!(k, "C-l"),
        other => panic!("{:?}", other),
    }
    match plan_exec(&t, 1, None) {
        ExecStep::SendKey(k) => assert_eq!(k, "Enter"),
        other => panic!("{:?}", other),
    }
}

#[test]
fn run_operator_sets_the_environment() {
    let t = task(&["@run cargo watch"]);
    assert_eq!(
        line(&plan_exec(&t, 0, None)),
        (
            true,
            "SEELA_SESSION_PATH=\"/home/u/app\" SEELA_SESSION_NAME=\"app\" SEELA_WINDOW_NAME=\"editor\" SEELA_PANE_ID=\"%3\" cargo watch".to_string()
        )
    );
}

#[test]
fn run_operator_quotes_each_value() {
    let mut t = task(&["@run ls"]);
    t.path = "/home/u/it's here".to_string();
    t.window_name = "it's".to_string();
    t.session_name = "a\"b".to_string();
    assert_eq!(
        line(&plan_exec(&t, 0, None)).1,
        "SEELA_SESSION_PATH=\"/home/u/it's here\" SEELA_SESSION_NAME=\"a\\\"b\" SEELA_WINDOW_NAME=\"it's\" SEELA_PANE_ID=\"%3\" ls"
    );
}

#[test]
fn confirm_operator_runs_this_program() {
    let t = task(&["ls", "@confirm make \"all\""]);
    assert_eq!(
        line(&plan_exec(&t, 1, Some("/bin/seela"))),
        (false, "/bin/seela --run-command \"make \\\"all\\\"\"".to_string())
    );
    assert_eq!(line(&plan_exec(&t, 1, None)), (false, "@confirm make \"all\"".to_string()));
}

#[test]
fn unknown_operators_are_typed() {
    let t = task(&["@nothing here", "@run"]);
    assert_eq!(line(&plan_exec(&t, 0, None)), (true, "@nothing here".to_string()));
    assert_eq!(line(&plan_exec(&t, 1, None)), (false, "@run".to_string()));
}

#[test]
fn composed_lines() {
    assert_eq!(compose_confirm_line("/x", "\"a\""), "/x --run-command \"a\"");
    assert_eq!(
        compose_run_line("P", "S", "W", "I", "cmd"),
        "SEELA_SESSION_PATH=P SEELA_SESSION_NAME=S SEELA_WINDOW_NAME=W SEELA_PANE_ID=I cmd"
    );
}

#[test]
fn a_first_line_resets_the_pane() {
    let calls = step_calls("%3", &ExecStep::RunLine(true, "ls".to_string()));
    let view: Vec<(Pause, Vec<String>, Pause)> =
        calls.into_iter().map(|c| (c.before, c.args, c.after)).collect();
    let s = |v: &[&str]| v.iter().map(|x| x.to_string()).collect::<Vec<_>>();
    assert_eq!(
        view,
        vec![
            (Pause::NoPause, s(&["send-keys", "-t", "%3", "-R", "C-c"]), Pause::KeyDelay),
            (Pause::NoPause, s(&["send-keys", "-t", "%3", "C-u"]), Pause::KeyDelay),
            (Pause::NoPause, s(&["send-keys", "-t", "%3", "-l", "ls"]), Pause::KeyDelay),
            (Pause::NoPause, s(&["send-keys", "-t", "%3", "C-m"]), Pause::ActionDelay),
        ]
    );
    assert_eq!(step_calls("%3", &ExecStep::RunLine(false, "ls".to_string())).len(), 3);
}

#[test]
fn keys_wait_for_the_key_delay() {
    let calls = step_calls("%3", &ExecStep::SendKey("Enter".to_string()));
    assert_eq!(calls.len(), 1);
    assert_eq!(calls[0].before, Pause::KeyDelay);
    assert_eq!(calls[0].args, vec!["send-keys", "-t", "%3", "Enter"]);
    assert_eq!(calls[0].after, Pause::NoPause);
    assert!(step_calls("%3", &ExecStep::WaitSecs(1)).is_empty());
    assert!(step_calls("%3", &ExecStep::Skip).is_empty());
}

#[test]
fn config_file_is_looked_for_in_order() {
    assert_eq!(
        config_candidates(Some("my.toml"), Some("/s"), Some("/x/"), Some("/home/u")),
        vec!["my.toml", "/s/config.toml", "/x/seela/config.toml", "/home/u/.config/seela/config.toml"]
    );
    assert_eq!(config_candidates(None, None, None, Some("/h")), vec!["/h/.config/seela/config.toml"]);
    assert!(config_candidates(None, None, None, None).is_empty());
}
