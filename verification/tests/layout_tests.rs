use seela::config::{Pane, SplitDirection, Window};
use seela::layout::{plan_window, LayoutOp};

fn leaf(cmds: &[&str]) -> Pane {
    Pane { split: None, panes: vec![], commands: Some(cmds.iter().map(|s| s.to_string()).collect()) }
}

fn parent(split: Option<SplitDirection>, panes: Vec<Pane>) -> Pane {
    Pane { split, panes, commands: None }
}

fn show(ops: &[LayoutOp]) -> Vec<String> {
    ops.iter()
        .map(|op| match op {
            LayoutOp::Split { target, flag, at, child } => format!("split {target} {flag} {at:?} {child}"),
            LayoutOp::Run { slot, commands } => format!("run {slot} {commands:?}"),
        })
        .collect()
}

#[test]
fn top_level_panes_split_side_by_side_in_a_chain() {
    let w = Window {
        name: "editor".to_string(),
        panes: vec![leaf(&["nvim"]), leaf(&["bacon"]), Pane { split: None, panes: vec![], commands: None }],
    };
    assert_eq!(
        show(&plan_window(&w)),
        vec![
            "split 0 -h [] 1",
            "split 1 -h [] 2",
            "run 0 [\"nvim\"]",
            "run 1 [\"bacon\"]",
        ]
    );
}

#[test]
fn nested_panes_split_before_their_children_are_set_up() {
    let w = Window {
        name: "dev".to_string(),
        panes: vec![parent(
            Some(SplitDirection::Vertical),
            vec![
                leaf(&["nvim"]),
                parent(Some(SplitDirection::Horizontal), vec![leaf(&["ls -la"]), leaf(&["git status"])]),
            ],
        )],
    };
    assert_eq!(
        show(&plan_window(&w)),
        vec![
            "split 0 -h [0] 1",
            "run 0 [\"nvim\"]",
            "split 1 -v [0, 1] 1",
            "run 1 [\"ls -la\"]",
            "run 2 [\"git status\"]",
        ]
    );
}

#[test]
fn unset_split_direction_is_top_to_bottom() {
    let w = Window {
        name: "w".to_string(),
        panes: vec![parent(None, vec![leaf(&["a"]), leaf(&["b"])])],
    };
    assert_eq!(
        show(&plan_window(&w)),
        vec!["split 0 -v [0] 1", "run 0 [\"a\"]", "run 1 [\"b\"]"]
    );
}
