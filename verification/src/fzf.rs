//! The project picker's fzf invocation: its arguments, and how its output
//! is read.
use vstd::prelude::*;
use crate::config::FzfConfig;
use crate::text::{split_whitespace, text_of, trim, trimmed, words};

verus! {

/// The first whitespace-separated word of `s`, or nothing.
pub open spec fn first_word(s: Seq<char>) -> Seq<char> {
    if words(s).len() > 0 {
        words(s)[0]
    } else {
        Seq::empty()
    }
}

/// The program that a preview command runs: its first word.
pub fn preview_binary(command: &str) -> (r: String)
    ensures
        r@ == first_word(command@),
{
    let w = split_whitespace(command);
    if w.len() > 0 {
        assert(text_of(w@)[0] == w@[0]@);
        w[0].clone()
    } else {
        String::new()
    }
}

/// The preview arguments: the configured command where its program is
/// available; else `ls {}` where the command names a program at all; none
/// where the preview is off or the command is blank.
pub open spec fn preview_args_spec(
    preview: bool,
    command: Seq<char>,
    available: bool,
) -> Seq<Seq<char>> {
    if !preview {
        Seq::empty()
    } else if available {
        seq!["--preview"@, command]
    } else if first_word(command).len() > 0 {
        seq!["--preview"@, "ls {}"@]
    } else {
        Seq::empty()
    }
}

/// The arguments that fzf is run with: the preview arguments, then each
/// word of the extra options.
pub open spec fn fzf_args_spec(
    preview: bool,
    command: Seq<char>,
    opts: Option<Seq<char>>,
    available: bool,
) -> Seq<Seq<char>> {
    preview_args_spec(preview, command, available) + match opts {
        Some(o) => words(o),
        None => Seq::empty(),
    }
}

/// The extra options never depend on the preview: the arguments with
/// options `o` are those without any options, followed by every word of
/// `o` in order, whatever the preview arguments are (shown, fallen back to
/// `ls`, or none).
pub proof fn lemma_options_come_last(preview: bool, command: Seq<char>, o: Seq<char>, available: bool)
    ensures
        fzf_args_spec(preview, command, Some(o), available) == fzf_args_spec(
            preview,
            command,
            None,
            available,
        ) + words(o),
        fzf_args_spec(preview, command, Some(o), available).len() >= words(o).len(),
        fzf_args_spec(preview, command, Some(o), available).skip(
            fzf_args_spec(preview, command, Some(o), available).len() - words(o).len(),
        ) == words(o),
{
    let with = fzf_args_spec(preview, command, Some(o), available);
    let without = fzf_args_spec(preview, command, None, available);
    assert(without =~= preview_args_spec(preview, command, available));
    assert(with.skip(with.len() - words(o).len()) =~= words(o));
}

/// The text of an optional string.
pub open spec fn opt_text(s: Option<String>) -> Option<Seq<char>> {
    match s {
        Some(x) => Some(x@),
        None => None,
    }
}

/// The arguments to run fzf with, given whether the preview command's
/// program is available.
pub fn fzf_args(config: &FzfConfig, preview_available: bool) -> (r: Vec<String>)
    ensures
        text_of(r@) == fzf_args_spec(
            config.preview,
            config.preview_command@,
            opt_text(config.fzf_opts),
            preview_available,
        ),
{
    let mut r: Vec<String> = Vec::new();
    if config.preview {
        if preview_available {
            r.push(String::from_str("--preview"));
            r.push(config.preview_command.clone());
        } else {
            let binary = preview_binary(config.preview_command.as_str());
            if !binary.as_str().is_empty() {
                r.push(String::from_str("--preview"));
                r.push(String::from_str("ls {}"));
            }
        }
    }
    let ghost head = text_of(r@);
    assert(head == preview_args_spec(config.preview, config.preview_command@, preview_available));
    match &config.fzf_opts {
        None => {
            assert(head + Seq::<Seq<char>>::empty() =~= head);
        },
        Some(o) => {
            let w = split_whitespace(o.as_str());
            let mut i: usize = 0;
            while i < w.len()
                invariant
                    i <= w.len(),
                    text_of(r@) == head + text_of(w@).take(i as int),
                decreases w.len() - i,
            {
                let ghost old_r = r@;
                r.push(w[i].clone());
                assert(text_of(r@) =~= text_of(old_r).push(w@[i as int]@));
                assert(text_of(w@).take(i + 1) =~= text_of(w@).take(i as int).push(w@[i as int]@));
                assert(text_of(r@) =~= head + text_of(w@).take(i + 1));
                i = i + 1;
            }
            assert(text_of(w@).take(w.len() as int) =~= text_of(w@));
        },
    }
    r
}

/// Whether to warn that the preview command's program was not found and
/// `ls` previews instead.
pub fn warn_preview_fallback(config: &FzfConfig, preview_available: bool) -> (r: bool)
    ensures
        r == (config.preview && !preview_available && first_word(config.preview_command@).len()
            > 0),
{
    if config.preview && !preview_available {
        let binary = preview_binary(config.preview_command.as_str());
        !binary.as_str().is_empty()
    } else {
        false
    }
}

/// The project chosen in fzf's output: the output trimmed, or none where
/// that is empty.
pub open spec fn selection_spec(output: Seq<char>) -> Option<Seq<char>> {
    if trim(output).len() == 0 {
        None
    } else {
        Some(trim(output))
    }
}

/// The project that fzf's output names, if any.
pub fn parse_selection(output: &str) -> (r: Option<String>)
    ensures
        opt_text(r) == selection_spec(output@),
{
    let t = trimmed(output);
    if t.as_str().is_empty() {
        None
    } else {
        Some(t)
    }
}

} // verus!
