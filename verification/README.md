# seela

A tmux session manager: it finds projects (directories holding `.git`)
below the configured search directories, lets the user pick one with fzf,
and opens a tmux session for it laid out as the configuration says.

## Layout

- `src/` is the library, each function stated by its contract and proved:
  - `text.rs`: Unicode whitespace, trimming, splitting into words, parsing
    of unsigned decimals;
  - `path.rs`: paths read as their components, as `std::path::Path` reads
    them on Unix (equality, `starts_with`, `file_name`, `join`);
  - `config.rs`: the configuration model, tilde expansion of configured
    paths (made absolute, with one home and current directory for all of
    them), where the configuration file is looked for, and
    the choice of a project's session layout (exact path, then project
    type, then closest path, then the default session);
  - `run.rs`: the rules of the project walk (which directories are
    excluded, pruned, walked into or probed for `.git`, and what follows a
    probe), the list of
    projects without repeats, and the answer to the confirmation prompt;
  - `fzf.rs`: fzf's arguments and how its output is read;
  - `tmux.rs`: session names, the tmux commands that build a session, and
    what each `exec` line of a pane comes to (`@run`, `@confirm`, `@wait`,
    `@wait-milli`/`@wait-ms`, `@send-key`/`@sk`);
  - `layout.rs`: a window's panes as a list of split and run steps, each
    referring to a pane that exists by then, no two runs sharing a pane;
  - `cli.rs`: the command-line arguments.
- `app/` is the program around it: command-line parsing (clap), reading
  and parsing the configuration file (serde, toml), the directory walk
  (walkdir, one thread per search directory with rayon), running fzf and
  tmux, waiting between tmux commands, and the split sizes of panes, which
  are floating-point proportions of the configured ratios.
- `tests/` holds the tests.
