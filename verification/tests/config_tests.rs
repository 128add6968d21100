use seela::config::{types_found, Config, Folders, FzfConfig, Pane, ProjectType, Session, SplitDirection, expand_path};

#[test]
fn test_get_session_for_path() {
    let config = Config {
        folders: Folders {
            search_dirs: vec!["~/projects".to_string()],
            force_include: None,
            exclude_paths: None,
        },
        fzf: FzfConfig::default(),
        windows: vec![],
        custom_sessions: vec![
            Session {
                name: Some("Rust Project".to_string()),
                paths: Some(vec!["~/projects/rust".to_string()]),
                types: None,
                windows: vec!["editor".to_string()],
                window_focus: None,
            },
            Session {
                name: Some("Python Project".to_string()),
                paths: Some(vec!["~/projects/python".to_string()]),
                types: None,
                windows: vec!["ide".to_string()],
                window_focus: None,
            },
        ],
        default_session: Some(Session {
            name: Some("Default".to_string()),
            paths: None,
            types: None,
            windows: vec!["shell".to_string()],
            window_focus: None,
        }),
        project_types: vec![],
    };

    let rust_path = expand_path("~/projects/rust/my-rust-app");
    let rust_session = config.get_session_for_path(&rust_path).unwrap();
    assert_eq!(rust_session.windows[0], "editor");

    let python_path = expand_path("~/projects/python/my-python-app");
    let python_session = config.get_session_for_path(&python_path).unwrap();
    assert_eq!(python_session.windows[0], "ide");

    let other_path = expand_path("~/projects/other/my-other-app");
    let default_session = config.get_session_for_path(&other_path).unwrap();
    assert_eq!(default_session.windows[0], "shell");
}

#[test]
fn test_longest_prefix_matching() {
    let config = Config {
        folders: Folders {
            search_dirs: vec![],
            force_include: None,
            exclude_paths: None,
        },
        fzf: FzfConfig::default(),
        windows: vec![],
        custom_sessions: vec![
            Session {
                name: Some("Short".to_string()),
                paths: Some(vec!["~/projects".to_string()]),
                types: None,
                windows: vec!["short".to_string()],
                window_focus: None,
            },
            Session {
                name: Some("Long".to_string()),
                paths: Some(vec!["~/projects/specific".to_string()]),
                types: None,
                windows: vec!["long".to_string()],
                window_focus: None,
            },
        ],
        default_session: None,
        project_types: vec![],
    };

    let path = expand_path("~/projects/specific/my-app");
    let session = config.get_session_for_path(&path).unwrap();
    assert_eq!(session.name.as_ref().unwrap(), "Long");

    let path = expand_path("~/projects/general/my-app");
    let session = config.get_session_for_path(&path).unwrap();
    assert_eq!(session.name.as_ref().unwrap(), "Short");
}

#[test]
fn hierarchy_and_types_with_given_findings() {
    let project = "/work/area/my-project".to_string();
    let config = Config {
        folders: Folders { search_dirs: vec![], force_include: None, exclude_paths: None },
        fzf: FzfConfig::default(),
        windows: vec![],
        project_types: vec![
            ProjectType {
                name: "rust".to_string(),
                files: vec!["Cargo.toml".to_string()],
            }
        ],
        custom_sessions: vec![
            Session {
                name: Some("Prefix Match".to_string()),
                paths: Some(vec!["/work/area".to_string()]),
                types: None,
                windows: vec!["prefix".to_string()],
                window_focus: None,
            },
            Session {
                name: Some("Type Match".to_string()),
                paths: None,
                types: Some(vec!["rust".to_string()]),
                windows: vec!["type".to_string()],
                window_focus: None,
            },
            Session {
                name: Some("Exact Match".to_string()),
                paths: Some(vec![project.clone()]),
                types: None,
                windows: vec!["exact".to_string()],
                window_focus: None,
            },
        ],
        default_session: None,
    };
    let expanded = vec![
        vec!["/work/area".to_string()],
        vec![],
        vec![project.clone()],
    ];
    let rust_found = vec![true];

    // 1. Exact match wins over type match
    assert_eq!(config.choose_session(&project, &expanded, &rust_found), Some(2));

    // 2. Without the exact match, type match wins over prefix match
    let mut config2 = config.clone();
    config2.custom_sessions.pop();
    let expanded2 = vec![vec!["/work/area".to_string()], vec![]];
    assert_eq!(config2.choose_session(&project, &expanded2, &rust_found), Some(1));

    // 3. Where the type is not found, the prefix match is chosen
    assert_eq!(config2.choose_session(&project, &expanded2, &vec![false]), Some(0));

    // 4. Without the type match either, the prefix match is chosen
    config2.custom_sessions.remove(1);
    let expanded3 = vec![vec!["/work/area".to_string()]];
    assert_eq!(config2.choose_session(&project, &expanded3, &rust_found), Some(0));

    // 5. Nothing matches: no custom session
    assert_eq!(config2.choose_session("/elsewhere/x", &expanded3, &rust_found), None);
}

fn typed(types: &[(&str, &[&str])]) -> Config {
    Config {
        folders: Folders { search_dirs: vec![], force_include: None, exclude_paths: None },
        fzf: FzfConfig::default(),
        windows: vec![],
        project_types: types
            .iter()
            .map(|(n, fs)| ProjectType {
                name: n.to_string(),
                files: fs.iter().map(|f| f.to_string()).collect(),
            })
            .collect(),
        custom_sessions: vec![],
        default_session: None,
    }
}

#[test]
fn probe_paths_join_each_file_to_the_project() {
    let config = typed(&[("rust", &["Cargo.toml"]), ("node", &["package.json", "/abs/yarn.lock"]), ("none", &[])]);
    assert_eq!(
        config.probe_paths("/w/app/"),
        vec![
            vec!["/w/app/Cargo.toml".to_string()],
            vec!["/w/app/package.json".to_string(), "/abs/yarn.lock".to_string()],
            vec![],
        ]
    );
}

#[test]
fn a_type_is_found_where_any_of_its_files_is() {
    let found = vec![vec![false, true], vec![false, false], vec![], vec![true]];
    assert_eq!(types_found(&found), vec![true, false, false, true]);
    assert_eq!(types_found(&vec![]), Vec::<bool>::new());
}

#[test]
fn a_project_type_decides_only_where_its_file_exists() {
    let mut config = typed(&[("rust", &["Cargo.toml"])]);
    config.custom_sessions = vec![Session {
        name: Some("Rust".to_string()),
        paths: None,
        types: Some(vec!["rust".to_string()]),
        windows: vec!["editor".to_string()],
        window_focus: None,
    }];
    config.default_session = Some(Session {
        name: Some("Default".to_string()),
        paths: None,
        types: None,
        windows: vec!["shell".to_string()],
        window_focus: None,
    });
    let session = config.get_session_for_path("/no/such/seela/dir").unwrap();
    assert_eq!(session.name.as_deref(), Some("Default"));
}

fn leaf(commands: &[&str]) -> Pane {
    Pane {
        split: None,
        panes: vec![],
        commands: Some(commands.iter().map(|s| s.to_string()).collect()),
    }
}

fn shape(p: &Pane) -> String {
    let split = match p.split {
        None => "-",
        Some(SplitDirection::Vertical) => "v",
        Some(SplitDirection::Horizontal) => "h",
    };
    let kids: Vec<String> = p.panes.iter().map(shape).collect();
    format!("{}{:?}[{}]", split, p.commands, kids.join(","))
}

#[test]
fn cloning_a_pane_copies_the_whole_tree() {
    let tree = Pane {
        split: Some(SplitDirection::Vertical),
        panes: vec![
            leaf(&["vim"]),
            Pane {
                split: Some(SplitDirection::Horizontal),
                panes: vec![leaf(&["cargo watch"]), leaf(&[])],
                commands: None,
            },
        ],
        commands: None,
    };
    let copy = tree.clone();
    assert_eq!(shape(&copy), shape(&tree));
    assert_eq!(copy.panes[1].panes[0].commands, Some(vec!["cargo watch".to_string()]));
}
