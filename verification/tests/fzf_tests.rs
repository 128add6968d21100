use seela::config::{preview, preview_command, FzfConfig};
use seela::fzf::{fzf_args, parse_selection, preview_binary, warn_preview_fallback};

fn cfg(preview: bool, command: &str, opts: Option<&str>) -> FzfConfig {
    FzfConfig { preview, preview_command: command.to_string(), fzf_opts: opts.map(|s| s.to_string()) }
}

#[test]
fn defaults_preview_with_tree() {
    assert!(preview());
    assert_eq!(preview_command(), "tree -C -L 2 {}");
    let d = FzfConfig::default();
    assert!(d.preview);
    assert_eq!(d.preview_command, "tree -C -L 2 {}");
    assert!(d.fzf_opts.is_none());
}

#[test]
fn preview_binary_is_the_first_word() {
    assert_eq!(preview_binary("tree -C -L 2 {}"), "tree");
    assert_eq!(preview_binary("  bat --color=always {}"), "bat");
    assert_eq!(preview_binary("   "), "");
}

#[test]
fn available_preview_is_passed_on() {
    let c = cfg(true, "tree -C {}", Some("--height 40% --layout=reverse"));
    assert_eq!(fzf_args(&c, true), vec!["--preview", "tree -C {}", "--height", "40%", "--layout=reverse"]);
    assert!(!warn_preview_fallback(&c, true));
}

#[test]
fn missing_preview_falls_back_to_ls() {
    let c = cfg(true, "nothere {}", None);
    assert_eq!(fzf_args(&c, false), vec!["--preview", "ls {}"]);
    assert!(warn_preview_fallback(&c, false));
}

#[test]
fn blank_or_disabled_preview_gives_no_preview() {
    assert_eq!(fzf_args(&cfg(true, "  ", None), false), Vec::<String>::new());
    assert!(!warn_preview_fallback(&cfg(true, "  ", None), false));
    assert_eq!(fzf_args(&cfg(false, "tree", Some("-m")), true), vec!["-m"]);
    assert!(!warn_preview_fallback(&cfg(false, "tree", None), false));
}

#[test]
fn selection_is_trimmed_output() {
    assert_eq!(parse_selection("/home/u/app\n"), Some("/home/u/app".to_string()));
    assert_eq!(parse_selection("\n"), None);
    assert_eq!(parse_selection(""), None);
}
