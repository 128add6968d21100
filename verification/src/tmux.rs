//! The tmux side of opening a project: the session's name, the tmux
//! commands that build and enter it, and how each `exec` line of a pane is
//! carried out (including the `@run`, `@confirm`, `@wait`, `@wait-milli`,
//! `@wait-ms`, `@send-key` and `@sk` operators).
use vstd::prelude::*;
use crate::config::{first_from, Config, Pane, SplitDirection, Window};
use crate::path::{file_name, file_name_spec};
use crate::text::{chars_of, parse_u64, parse_u64_spec, same_text, string_of_range, text_of, trim, trim_bounds};

verus! {

/// `s` with every `.` made `_`.
pub open spec fn underscore_dots(s: Seq<char>) -> Seq<char> {
    s.map_values(|c: char| if c == '.' { '_' } else { c })
}

/// The tmux session name for the project at `path`: its last component,
/// with `.` made `_`; none where the path has no final name.
pub open spec fn session_name_spec(path: Seq<char>) -> Option<Seq<char>> {
    match file_name_spec(path) {
        Some(n) => Some(underscore_dots(n)),
        None => None,
    }
}

/// The tmux session name for the project at `path`.
pub fn session_name_for(path: &str) -> (r: Option<String>)
    ensures
        r matches Some(x) ==> session_name_spec(path@) == Some(x@),
        r is None ==> session_name_spec(path@) is None,
{
    match file_name(path) {
        None => None,
        Some(n) => {
            let v = chars_of(n.as_str());
            let mut out: Vec<char> = Vec::new();
            let mut i: usize = 0;
            while i < v.len()
                invariant
                    i <= v.len(),
                    out@ == underscore_dots(v@.take(i as int)),
                decreases v.len() - i,
            {
                let c = v[i];
                out.push(if c == '.' { '_' } else { c });
                assert(underscore_dots(v@.take(i + 1)) =~= underscore_dots(v@.take(i as int)).push(
                    if c == '.' { '_' } else { c },
                ));
                i = i + 1;
            }
            assert(v@.take(v.len() as int) =~= v@);
            Some(string_of_range(&out, 0, out.len()))
        },
    }
}

/// A session name never holds a `.`.
pub proof fn lemma_session_name_has_no_dot(path: Seq<char>)
    ensures
        session_name_spec(path) matches Some(n) ==> forall|i: int| 0 <= i < n.len() ==> n[i] != '.',
{
}

/// The session name is the path's final component with each `.` made `_`
/// and every other character kept: as long as the component, and at each
/// place `_` where the component has `.`, the component's own character
/// elsewhere. A path without a final component has no session name.
pub proof fn lemma_session_name_replaces_only_dots(path: Seq<char>)
    ensures
        session_name_spec(path) is Some <==> file_name_spec(path) is Some,
        session_name_spec(path) matches Some(n) ==> {
            let f = file_name_spec(path)->0;
            &&& n.len() == f.len()
            &&& forall|i: int|
                0 <= i < f.len() ==> #[trigger] n[i] == if f[i] == '.' {
                    '_'
                } else {
                    f[i]
                }
        },
{
}

fn word(s: &str) -> (r: String)
    ensures
        r@ == s@,
{
    String::from_str(s)
}

/// `tmux has-session -t <session>`.
pub fn has_session_args(session: &str) -> (r: Vec<String>)
    ensures
        text_of(r@) == seq!["has-session"@, "-t"@, session@],
{
    let mut r: Vec<String> = Vec::new();
    r.push(word("has-session"));
    r.push(word("-t"));
    r.push(word(session));
    assert(text_of(r@) =~= seq!["has-session"@, "-t"@, session@]);
    r
}

/// `tmux new-session -d -s <session> -c <path>`: a plain session, where no
/// session layout applies.
pub fn new_session_args(session: &str, path: &str) -> (r: Vec<String>)
    ensures
        text_of(r@) == seq!["new-session"@, "-d"@, "-s"@, session@, "-c"@, path@],
{
    let mut r: Vec<String> = Vec::new();
    r.push(word("new-session"));
    r.push(word("-d"));
    r.push(word("-s"));
    r.push(word(session));
    r.push(word("-c"));
    r.push(word(path));
    assert(text_of(r@) =~= seq!["new-session"@, "-d"@, "-s"@, session@, "-c"@, path@]);
    r
}

/// The tmux command that opens window number `index` of a session layout,
/// printing its first pane's id: the first window opens the session.
pub open spec fn window_args_spec(
    index: int,
    session: Seq<char>,
    window: Seq<char>,
    path: Seq<char>,
) -> Seq<Seq<char>> {
    if index == 0 {
        seq![
            "new-session"@,
            "-d"@,
            "-s"@,
            session,
            "-n"@,
            window,
            "-c"@,
            path,
            "-P"@,
            "-F"@,
            "#{pane_id}"@,
        ]
    } else {
        seq![
            "new-window"@,
            "-t"@,
            session,
            "-n"@,
            window,
            "-c"@,
            path,
            "-P"@,
            "-F"@,
            "#{pane_id}"@,
        ]
    }
}

/// The tmux command that opens window number `index` of a session layout.
pub fn window_args(index: usize, session: &str, window: &str, path: &str) -> (r: Vec<String>)
    ensures
        text_of(r@) == window_args_spec(index as int, session@, window@, path@),
{
    let mut r: Vec<String> = Vec::new();
    if index == 0 {
        r.push(word("new-session"));
        r.push(word("-d"));
        r.push(word("-s"));
    } else {
        r.push(word("new-window"));
        r.push(word("-t"));
    }
    r.push(word(session));
    r.push(word("-n"));
    r.push(word(window));
    r.push(word("-c"));
    r.push(word(path));
    r.push(word("-P"));
    r.push(word("-F"));
    r.push(word("#{pane_id}"));
    assert(text_of(r@) =~= window_args_spec(index as int, session@, window@, path@));
    r
}

/// `tmux split-window -d <flag> -l <size> -t <target> -c <path> -P -F
/// #{pane_id}`: splits `target`, leaving the new pane `size` large, and
/// prints the new pane's id.
pub fn split_args(flag: &str, size: &str, target: &str, path: &str) -> (r: Vec<String>)
    ensures
        text_of(r@) == seq![
            "split-window"@,
            "-d"@,
            flag@,
            "-l"@,
            size@,
            "-t"@,
            target@,
            "-c"@,
            path@,
            "-P"@,
            "-F"@,
            "#{pane_id}"@,
        ],
{
    let mut r: Vec<String> = Vec::new();
    r.push(word("split-window"));
    r.push(word("-d"));
    r.push(word(flag));
    r.push(word("-l"));
    r.push(word(size));
    r.push(word("-t"));
    r.push(word(target));
    r.push(word("-c"));
    r.push(word(path));
    r.push(word("-P"));
    r.push(word("-F"));
    r.push(word("#{pane_id}"));
    assert(text_of(r@) =~= seq![
        "split-window"@,
        "-d"@,
        flag@,
        "-l"@,
        size@,
        "-t"@,
        target@,
        "-c"@,
        path@,
        "-P"@,
        "-F"@,
        "#{pane_id}"@,
    ]);
    r
}

/// The split flag for a pane's children: side by side (`-h`) for a
/// vertical split, else top to bottom (`-v`).
pub open spec fn split_flag_spec(split: Option<SplitDirection>) -> Seq<char> {
    match split {
        Some(SplitDirection::Vertical) => "-h"@,
        _ => "-v"@,
    }
}

/// The split flag for a pane's children.
pub fn split_flag(split: Option<SplitDirection>) -> (r: String)
    ensures
        r@ == split_flag_spec(split),
{
    match split {
        Some(SplitDirection::Vertical) => word("-h"),
        _ => word("-v"),
    }
}

/// The split flag for a window's top-level panes: always side by side.
pub fn window_split_flag() -> (r: String)
    ensures
        r@ == "-h"@,
{
    word("-h")
}

/// `tmux select-window -t <session>:<window>`.
pub fn select_window_args(session: &str, window: &str) -> (r: Vec<String>)
    ensures
        text_of(r@) == seq!["select-window"@, "-t"@, session@ + ":"@ + window@],
{
    let mut r: Vec<String> = Vec::new();
    r.push(word("select-window"));
    r.push(word("-t"));
    r.push(word(session).concat(":").concat(window));
    assert(text_of(r@) =~= seq!["select-window"@, "-t"@, session@ + ":"@ + window@]);
    r
}

/// The tmux command that takes the user to `session`: from inside tmux,
/// `switch-client`; from outside, `attach-session`.
pub open spec fn attach_args_spec(session: Seq<char>, inside_tmux: bool) -> Seq<Seq<char>> {
    if inside_tmux {
        seq!["switch-client"@, "-t"@, session]
    } else {
        seq!["attach-session"@, "-t"@, session]
    }
}

/// The tmux command that takes the user to `session`.
pub fn attach_args(session: &str, inside_tmux: bool) -> (r: Vec<String>)
    ensures
        text_of(r@) == attach_args_spec(session@, inside_tmux),
{
    let mut r: Vec<String> = Vec::new();
    if inside_tmux {
        r.push(word("switch-client"));
    } else {
        r.push(word("attach-session"));
    }
    r.push(word("-t"));
    r.push(word(session));
    assert(text_of(r@) =~= attach_args_spec(session@, inside_tmux));
    r
}

/// The commands that a pane runs: those of a pane without children whose
/// command list is not empty.
pub open spec fn leaf_commands_spec(pane: Pane) -> Option<Seq<String>> {
    if pane.panes.len() == 0 {
        match pane.commands {
            Some(c) => if c.len() > 0 {
                Some(c@)
            } else {
                None
            },
            None => None,
        }
    } else {
        None
    }
}

/// The commands that `pane` runs, if it runs any.
pub fn leaf_commands(pane: &Pane) -> (r: Option<Vec<String>>)
    ensures
        r matches Some(c) ==> leaf_commands_spec(*pane) == Some(c@),
        r is None ==> leaf_commands_spec(*pane) is None,
{
    if pane.panes.len() > 0 {
        return None;
    }
    match &pane.commands {
        Some(c) => {
            if c.len() > 0 {
                let mut out: Vec<String> = Vec::new();
                let mut i: usize = 0;
                while i < c.len()
                    invariant
                        i <= c.len(),
                        out@ == c@.take(i as int),
                    decreases c.len() - i,
                {
                    out.push(c[i].clone());
                    assert(c@.take(i + 1) =~= c@.take(i as int).push(c@[i as int]));
                    i = i + 1;
                }
                assert(c@.take(c.len() as int) =~= c@);
                Some(out)
            } else {
                None
            }
        },
        None => None,
    }
}

/// The windows named `name`.
pub open spec fn named_pred(windows: Seq<Window>, name: Seq<char>) -> spec_fn(int) -> bool {
    |i: int| windows[i].name@ == name
}

impl Config {
    /// The position of the first window layout named `name`.
    pub fn window_index(&self, name: &str) -> (r: Option<usize>)
        ensures
            r matches Some(i) ==> first_from(
                named_pred(self.windows@, name@),
                0,
                self.windows.len() as int,
            ) == Some(i as int) && i < self.windows.len(),
            r is None ==> first_from(
                named_pred(self.windows@, name@),
                0,
                self.windows.len() as int,
            ) is None,
    {
        let ghost p = named_pred(self.windows@, name@);
        let n = self.windows.len();
        let mut i: usize = 0;
        while i < n
            invariant
                i <= n,
                n == self.windows.len(),
                p == named_pred(self.windows@, name@),
                first_from(p, 0, n as int) == first_from(p, i as int, n as int),
            decreases n - i,
        {
            if same_text(self.windows[i].name.as_str(), name) {
                assert(p(i as int));
                return Some(i);
            }
            i = i + 1;
        }
        None
    }
}

/// Commands to be sent to one pane once the layout stands.
pub struct ExecTask {
    pub pane_id: String,
    pub commands: Vec<String>,
    pub path: String,
    pub session_name: String,
    pub window_name: String,
}

/// What carrying out one line of a pane's commands comes to.
#[derive(Debug)]
pub enum ExecStep {
    /// A blank line: nothing.
    Skip,
    /// `@wait <seconds>`: pause.
    WaitSecs(u64),
    /// `@wait-milli <ms>` or `@wait-ms <ms>`: pause.
    WaitMillis(u64),
    /// `@send-key <key>` or `@sk <key>`: send the key to the pane.
    SendKey(String),
    /// Type the line into the pane and press Enter; the flag says whether
    /// to reset the pane first (for a pane's first line).
    RunLine(bool, String),
}

/// An `ExecStep`, stated over text.
pub enum PlannedStep {
    Skip,
    WaitSecs(u64),
    WaitMillis(u64),
    SendKey(Seq<char>),
    RunLine(bool, Seq<char>),
}

/// The text of a step.
pub open spec fn step_view(s: ExecStep) -> PlannedStep {
    match s {
        ExecStep::Skip => PlannedStep::Skip,
        ExecStep::WaitSecs(n) => PlannedStep::WaitSecs(n),
        ExecStep::WaitMillis(n) => PlannedStep::WaitMillis(n),
        ExecStep::SendKey(k) => PlannedStep::SendKey(k@),
        ExecStep::RunLine(reset, line) => PlannedStep::RunLine(reset, line@),
    }
}

/// How `format!("{:?}", s)` writes the string `s`: quoted, with special
/// characters escaped.
pub uninterp spec fn debug_quoted(s: Seq<char>) -> Seq<char>;

/// `format!("{:?}", s)`, the `Debug` form of a string. The contract names
/// the result (`debug_quoted`) without spelling out the escaping rules.
#[verifier::external_body]
fn quoted(s: &str) -> (r: String)
    ensures
        r@ == debug_quoted(s@),
{
    format!("{:?}", s)
}

/// How `format!("{:?}", Path::new(s).display())` writes the path `s`:
/// quoted, with special characters escaped by the rules of a path's `Debug`
/// form (kept apart from a string's, as the two are separate impls).
pub uninterp spec fn path_debug_quoted(s: Seq<char>) -> Seq<char>;

/// `format!("{:?}", Path::new(s).display())`, the `Debug` form of a path.
/// The contract names the result (`path_debug_quoted`) without spelling out
/// the escaping rules.
#[verifier::external_body]
fn quoted_path(s: &str) -> (r: String)
    ensures
        r@ == path_debug_quoted(s@),
{
    format!("{:?}", std::path::Path::new(s).display())
}

/// The line that `@run <command>` types: the command, after the session's
/// path and name, the window's name and the pane's id as environment
/// variables, each value quoted.
pub open spec fn run_line_spec(
    qpath: Seq<char>,
    qsession: Seq<char>,
    qwindow: Seq<char>,
    qpane: Seq<char>,
    command: Seq<char>,
) -> Seq<char> {
    "SEELA_SESSION_PATH="@ + qpath + " SEELA_SESSION_NAME="@ + qsession + " SEELA_WINDOW_NAME="@
        + qwindow + " SEELA_PANE_ID="@ + qpane + " "@ + command
}

/// The line that `@run` types, from the quoted values.
pub fn compose_run_line(
    qpath: &str,
    qsession: &str,
    qwindow: &str,
    qpane: &str,
    command: &str,
) -> (r: String)
    ensures
        r@ == run_line_spec(qpath@, qsession@, qwindow@, qpane@, command@),
{
    word("SEELA_SESSION_PATH=").concat(qpath).concat(" SEELA_SESSION_NAME=").concat(
        qsession,
    ).concat(" SEELA_WINDOW_NAME=").concat(qwindow).concat(" SEELA_PANE_ID=").concat(qpane).concat(
        " ",
    ).concat(command)
}

/// The line that `@confirm <command>` types: this program, asked to run the
/// quoted command once the user agrees.
pub open spec fn confirm_line_spec(exe: Seq<char>, qcommand: Seq<char>) -> Seq<char> {
    exe + " --run-command "@ + qcommand
}

/// The line that `@confirm` types, from the program's path and the quoted
/// command.
pub fn compose_confirm_line(exe: &str, qcommand: &str) -> (r: String)
    ensures
        r@ == confirm_line_spec(exe@, qcommand@),
{
    word(exe).concat(" --run-command ").concat(qcommand)
}

/// The position of the first space in `t` at or after `k`.
pub open spec fn space_from(t: Seq<char>, k: int) -> Option<int>
    decreases t.len() - k,
{
    if k >= t.len() {
        None
    } else if t[k] == ' ' {
        Some(k)
    } else {
        space_from(t, k + 1)
    }
}

/// What line number `index` of a pane's commands, `command`, comes to:
/// blank lines are skipped; a trimmed line `<operator> <value>` (split at
/// its first space) with a known operator is carried out as that operator
/// says; `@wait` and the millisecond waits need a number, and where there is
/// none, like every other line, the line is typed as it stands. `@confirm`
/// needs this program's path (`exe`); without it the line is typed as it
/// stands.
pub open spec fn plan_spec(
    command: Seq<char>,
    index: int,
    exe: Option<Seq<char>>,
    path: Seq<char>,
    session: Seq<char>,
    window: Seq<char>,
    pane: Seq<char>,
) -> PlannedStep {
    let t = trim(command);
    let plain = PlannedStep::RunLine(index == 0, command);
    if t.len() == 0 {
        PlannedStep::Skip
    } else {
        match space_from(t, 0) {
            None => plain,
            Some(k) => {
                let key = t.take(k);
                let val = t.skip(k + 1);
                if key == "@confirm"@ {
                    match exe {
                        Some(e) => PlannedStep::RunLine(
                            index == 0,
                            confirm_line_spec(e, debug_quoted(val)),
                        ),
                        None => plain,
                    }
                } else if key == "@run"@ {
                    PlannedStep::RunLine(
                        index == 0,
                        run_line_spec(
                            path_debug_quoted(path),
                            debug_quoted(session),
                            debug_quoted(window),
                            debug_quoted(pane),
                            val,
                        ),
                    )
                } else if key == "@wait"@ {
                    match parse_u64_spec(val) {
                        Some(n) => PlannedStep::WaitSecs(n),
                        None => plain,
                    }
                } else if key == "@wait-milli"@ || key == "@wait-ms"@ {
                    match parse_u64_spec(val) {
                        Some(n) => PlannedStep::WaitMillis(n),
                        None => plain,
                    }
                } else if key == "@send-key"@ || key == "@sk"@ {
                    PlannedStep::SendKey(val)
                } else {
                    plain
                }
            },
        }
    }
}

/// What line number `index` of `task`'s commands comes to; `exe` is this
/// program's path, where it is known.
pub fn plan_exec(task: &ExecTask, index: usize, exe: Option<&str>) -> (r: ExecStep)
    requires
        index < task.commands.len(),
    ensures
        step_view(r) == plan_spec(
            task.commands@[index as int]@,
            index as int,
            match exe {
                Some(e) => Some(e@),
                None => None,
            },
            task.path@,
            task.session_name@,
            task.window_name@,
            task.pane_id@,
        ),
{
    let command = task.commands[index].as_str();
    let v = chars_of(command);
    let (lo, hi) = trim_bounds(&v);
    let ghost t = trim(command@);
    assert(t == v@.subrange(lo as int, hi as int));
    if lo == hi {
        return ExecStep::Skip;
    }
    let mut k: usize = lo;
    while k < hi && v[k] != ' '
        invariant
            lo <= k <= hi <= v.len(),
            t == v@.subrange(lo as int, hi as int),
            space_from(t, 0) == space_from(t, k - lo),
        decreases hi - k,
    {
        k = k + 1;
    }
    let plain = ExecStep::RunLine(index == 0, task.commands[index].clone());
    if k == hi {
        return plain;
    }
    assert(space_from(t, 0) == Some(k - lo));
    let key = string_of_range(&v, lo, k);
    let val = string_of_range(&v, k + 1, hi);
    assert(key@ =~= t.take(k - lo));
    assert(val@ =~= t.skip(k - lo + 1));
    let key = key.as_str();
    if same_text(key, "@confirm") {
        match exe {
            Some(e) => {
                let q = quoted(val.as_str());
                ExecStep::RunLine(index == 0, compose_confirm_line(e, q.as_str()))
            },
            None => plain,
        }
    } else if same_text(key, "@run") {
        let qpath = quoted_path(task.path.as_str());
        let qsession = quoted(task.session_name.as_str());
        let qwindow = quoted(task.window_name.as_str());
        let qpane = quoted(task.pane_id.as_str());
        ExecStep::RunLine(
            index == 0,
            compose_run_line(
                qpath.as_str(),
                qsession.as_str(),
                qwindow.as_str(),
                qpane.as_str(),
                val.as_str(),
            ),
        )
    } else if same_text(key, "@wait") {
        match parse_u64(val.as_str()) {
            Some(n) => ExecStep::WaitSecs(n),
            None => plain,
        }
    } else if same_text(key, "@wait-milli") || same_text(key, "@wait-ms") {
        match parse_u64(val.as_str()) {
            Some(n) => ExecStep::WaitMillis(n),
            None => plain,
        }
    } else if same_text(key, "@send-key") || same_text(key, "@sk") {
        ExecStep::SendKey(val)
    } else {
        plain
    }
}

/// How long to pause around a tmux call.
#[derive(Clone, Copy, Debug, PartialEq, Eq, Structural)]
pub enum Pause {
    /// Not at all.
    NoPause,
    /// The delay between keys.
    KeyDelay,
    /// The delay after a major action (Enter).
    ActionDelay,
}

/// One tmux call, with the pauses before and after it.
pub struct TmuxCall {
    pub before: Pause,
    pub args: Vec<String>,
    pub after: Pause,
}

/// A tmux call, stated over text.
pub open spec fn call_view(c: TmuxCall) -> (Pause, Seq<Seq<char>>, Pause) {
    (c.before, text_of(c.args@), c.after)
}

/// The tmux calls, stated over text.
pub open spec fn calls_view(v: Seq<TmuxCall>) -> Seq<(Pause, Seq<Seq<char>>, Pause)> {
    v.map_values(|c: TmuxCall| call_view(c))
}

/// `send-keys -t <pane>` followed by `extra`.
pub open spec fn send_keys(pane: Seq<char>, extra: Seq<Seq<char>>) -> Seq<Seq<char>> {
    seq!["send-keys"@, "-t"@, pane] + extra
}

/// The tmux calls that carry out a step in `pane`: a key is sent after the
/// key delay; a line is typed by clearing the input (`C-u`), sending the
/// line literally (`-l`) and pressing Enter (`C-m`), each after the key
/// delay and the last followed by the action delay, and before all of it, on
/// a pane's first line, by resetting the pane (`-R C-c`). Other steps make
/// no tmux call.
pub open spec fn step_calls_spec(pane: Seq<char>, step: PlannedStep) -> Seq<
    (Pause, Seq<Seq<char>>, Pause),
> {
    match step {
        PlannedStep::SendKey(k) => seq![(Pause::KeyDelay, send_keys(pane, seq![k]), Pause::NoPause)],
        PlannedStep::RunLine(reset, line) => {
            let body = seq![
                (Pause::NoPause, send_keys(pane, seq!["C-u"@]), Pause::KeyDelay),
                (Pause::NoPause, send_keys(pane, seq!["-l"@, line]), Pause::KeyDelay),
                (Pause::NoPause, send_keys(pane, seq!["C-m"@]), Pause::ActionDelay),
            ];
            if reset {
                seq![(Pause::NoPause, send_keys(pane, seq!["-R"@, "C-c"@]), Pause::KeyDelay)]
                    + body
            } else {
                body
            }
        },
        _ => Seq::empty(),
    }
}

fn send_keys_call(before: Pause, pane: &str, extra: Vec<String>, after: Pause) -> (r: TmuxCall)
    ensures
        call_view(r) == (before, send_keys(pane@, text_of(extra@)), after),
{
    let mut args: Vec<String> = Vec::new();
    args.push(word("send-keys"));
    args.push(word("-t"));
    args.push(word(pane));
    let ghost head = text_of(args@);
    let mut extra = extra;
    let ghost e = text_of(extra@);
    args.append(&mut extra);
    assert(text_of(args@) =~= head + e);
    assert(head =~= seq!["send-keys"@, "-t"@, pane@]);
    TmuxCall { before, args, after }
}

fn one(s: &str) -> (r: Vec<String>)
    ensures
        text_of(r@) == seq![s@],
{
    let mut r: Vec<String> = Vec::new();
    r.push(word(s));
    assert(text_of(r@) =~= seq![s@]);
    r
}

fn two(a: &str, b: &str) -> (r: Vec<String>)
    ensures
        text_of(r@) == seq![a@, b@],
{
    let mut r: Vec<String> = Vec::new();
    r.push(word(a));
    r.push(word(b));
    assert(text_of(r@) =~= seq![a@, b@]);
    r
}

/// The tmux calls that carry out `step` in the pane `pane`.
pub fn step_calls(pane: &str, step: &ExecStep) -> (r: Vec<TmuxCall>)
    ensures
        calls_view(r@) == step_calls_spec(pane@, step_view(*step)),
{
    let mut r: Vec<TmuxCall> = Vec::new();
    match step {
        ExecStep::SendKey(k) => {
            r.push(send_keys_call(Pause::KeyDelay, pane, one(k.as_str()), Pause::NoPause));
            assert(calls_view(r@) =~= step_calls_spec(pane@, step_view(*step)));
        },
        ExecStep::RunLine(reset, line) => {
            if *reset {
                r.push(send_keys_call(Pause::NoPause, pane, two("-R", "C-c"), Pause::KeyDelay));
            }
            r.push(send_keys_call(Pause::NoPause, pane, one("C-u"), Pause::KeyDelay));
            r.push(send_keys_call(Pause::NoPause, pane, two("-l", line.as_str()), Pause::KeyDelay));
            r.push(send_keys_call(Pause::NoPause, pane, one("C-m"), Pause::ActionDelay));
            assert(calls_view(r@) =~= step_calls_spec(pane@, step_view(*step)));
        },
        _ => {
            assert(calls_view(r@) =~= step_calls_spec(pane@, step_view(*step)));
        },
    }
    r
}

} // verus!
