//! Reading the commands out of a model's answer, and the decisions around showing the
//! configuration, copying a command and running it.

use vstd::prelude::*;
use vstd::slice::slice_subrange;

use crate::text::{lines, lines_of, string_of, trim, trim_chars};

verus! {

/// `c` in lower case when it is an ASCII capital letter, else `c` itself.
pub open spec fn ascii_lower(c: char) -> char {
    if 'A' <= c <= 'Z' {
        ((c as u32) + 32) as char
    } else {
        c
    }
}

/// The marker that introduces a command in an answer.
pub open spec fn command_marker() -> Seq<char> {
    seq!['c', 'o', 'm', 'm', 'a', 'n', 'd', ':']
}

/// The line starts with `command:` in any letter case.
pub open spec fn has_command_marker(l: Seq<char>) -> bool {
    l.len() >= 8 && forall|i: int| 0 <= i < 8 ==> ascii_lower(#[trigger] l[i])
        == command_marker()[i]
}

/// The command a line gives: after a leading `command:` marker, the rest trimmed, when
/// it is not empty.
pub open spec fn command_in_line(l: Seq<char>) -> Option<Seq<char>> {
    if has_command_marker(l) && trim(l.skip(8)).len() > 0 {
        Some(trim(l.skip(8)))
    } else {
        None
    }
}

/// The commands given by marked lines, in order.
pub open spec fn marked_commands(ls: Seq<Seq<char>>) -> Seq<Seq<char>>
    decreases ls.len(),
{
    if ls.len() == 0 {
        Seq::empty()
    } else {
        marked_commands(ls.drop_last()) + match command_in_line(ls.last()) {
            Some(c) => seq![c],
            None => Seq::empty(),
        }
    }
}

/// The last line that is not blank.
pub open spec fn last_nonblank_line(ls: Seq<Seq<char>>) -> Option<Seq<char>>
    decreases ls.len(),
{
    if ls.len() == 0 {
        None
    } else if trim(ls.last()).len() > 0 {
        Some(ls.last())
    } else {
        last_nonblank_line(ls.drop_last())
    }
}

/// The commands in a response: those of the lines marked `Command:` (in any letter case);
/// when there are none, the last non-blank line, trimmed; none for a blank response.
pub open spec fn extracted_commands(response: Seq<char>) -> Seq<Seq<char>> {
    let ls = lines(response);
    if marked_commands(ls).len() > 0 {
        marked_commands(ls)
    } else {
        match last_nonblank_line(ls) {
            Some(l) => seq![trim(l)],
            None => Seq::empty(),
        }
    }
}

fn has_marker(l: &[char]) -> (b: bool)
    ensures
        b == has_command_marker(l@),
{
    if l.len() < 8 {
        return false;
    }
    let key: Vec<char> = vec!['c', 'o', 'm', 'm', 'a', 'n', 'd', ':'];
    assert(key@ == command_marker());
    let mut i: usize = 0;
    while i < 8
        invariant
            l@.len() >= 8,
            l@.len() == l.len(),
            key@ == command_marker(),
            i <= 8,
            forall|j: int| 0 <= j < i ==> ascii_lower(#[trigger] l@[j]) == command_marker()[j],
        decreases 8 - i,
    {
        let c = l[i];
        let lc = if 'A' <= c && c <= 'Z' {
            char_plus_32(c)
        } else {
            c
        };
        if lc != key[i] {
            return false;
        }
        i = i + 1;
    }
    true
}

fn char_plus_32(c: char) -> (r: char)
    requires
        'A' <= c <= 'Z',
    ensures
        r == ((c as u32) + 32) as char,
{
    let v = c as u32 + 32;
    if v == 97 { 'a' } else if v == 98 { 'b' } else if v == 99 { 'c' } else if v == 100 { 'd' }
    else if v == 101 { 'e' } else if v == 102 { 'f' } else if v == 103 { 'g' } else if v == 104 { 'h' }
    else if v == 105 { 'i' } else if v == 106 { 'j' } else if v == 107 { 'k' } else if v == 108 { 'l' }
    else if v == 109 { 'm' } else if v == 110 { 'n' } else if v == 111 { 'o' } else if v == 112 { 'p' }
    else if v == 113 { 'q' } else if v == 114 { 'r' } else if v == 115 { 's' } else if v == 116 { 't' }
    else if v == 117 { 'u' } else if v == 118 { 'v' } else if v == 119 { 'w' } else if v == 120 { 'x' }
    else if v == 121 { 'y' } else { 'z' }
}

/// Parses the commands out of a model's response: the text after each `Command:` line
/// marker (any letter case), trimmed, skipping empty ones; without any, the last
/// non-blank line, trimmed.
pub fn extract_commands(response: &str) -> (cmds: Vec<String>)
    ensures
        cmds@.map_values(|c: String| c@) == extracted_commands(response@),
{
    let ls = lines_of(response);
    let ghost all = ls@.map_values(|l: Vec<char>| l@);
    let mut commands: Vec<String> = Vec::new();
    let mut i: usize = 0;
    assert(all.take(0) =~= Seq::<Seq<char>>::empty());
    while i < ls.len()
        invariant
            i <= ls@.len(),
            all == ls@.map_values(|l: Vec<char>| l@),
            commands@.map_values(|c: String| c@) == marked_commands(all.take(i as int)),
        decreases ls@.len() - i,
    {
        let line = &ls[i];
        let ghost before = commands@.map_values(|c: String| c@);
        assert(all.take(i + 1).drop_last() =~= all.take(i as int));
        assert(all.take(i + 1).last() == line@);
        if has_marker(line.as_slice()) {
            let cmd = trim_chars(slice_subrange(line.as_slice(), 8, line.len()));
            if cmd.len() > 0 {
                commands.push(string_of(cmd.as_slice()));
                assert(commands@.map_values(|c: String| c@) =~= before.push(trim(line@.skip(8))));
            } else {
                assert(before + Seq::<Seq<char>>::empty() =~= before);
            }
        } else {
            assert(before + Seq::<Seq<char>>::empty() =~= before);
        }
        i = i + 1;
    }
    assert(all.take(ls@.len() as int) =~= all);
    if commands.len() == 0 {
        let mut j = ls.len();
        assert(all.take(j as int) =~= all);
        while j > 0
            invariant
                j <= ls@.len(),
                all == ls@.map_values(|l: Vec<char>| l@),
                all == lines(response@),
                commands@.len() == 0,
                marked_commands(all).len() == 0,
                last_nonblank_line(all) == last_nonblank_line(all.take(j as int)),
            decreases j,
        {
            let line = &ls[j - 1];
            assert(all.take(j as int).last() == line@);
            assert(all.take(j as int).drop_last() =~= all.take(j - 1));
            let t = trim_chars(line.as_slice());
            if t.len() > 0 {
                commands.push(string_of(t.as_slice()));
                assert(commands@.map_values(|c: String| c@) =~= seq![trim(line@)]);
                return commands;
            }
            j = j - 1;
        }
        assert(commands@.map_values(|c: String| c@) =~= Seq::<Seq<char>>::empty());
    }
    commands
}

} // verus!

verus! {

/// Where the API key of a provider comes from, as the configuration report shows it.
#[derive(Debug, Clone, Copy, PartialEq, Eq, Structural)]
pub enum KeySource {
    /// The provider's environment variable holds a key.
    Environment,
    /// The configuration file holds a key.
    ConfigFile,
    /// No key is set.
    Unset,
}

/// The source of a provider's key: its environment variable when it is set and not
/// empty, else the stored key when it is not empty.
pub open spec fn key_source_of(env_value: Option<Seq<char>>, stored: Seq<char>) -> KeySource {
    if env_value matches Some(v) && v.len() > 0 {
        KeySource::Environment
    } else if stored.len() > 0 {
        KeySource::ConfigFile
    } else {
        KeySource::Unset
    }
}

/// Reports where a provider's key comes from, without showing the key.
pub fn key_source(env_value: Option<&str>, stored: &str) -> (k: KeySource)
    ensures
        k == key_source_of(
            match env_value {
                Some(v) => Some(v@),
                None => None,
            },
            stored@,
        ),
{
    match env_value {
        Some(v) => if !v.is_empty() {
            return KeySource::Environment;
        },
        None => {},
    }
    if !stored.is_empty() {
        KeySource::ConfigFile
    } else {
        KeySource::Unset
    }
}

/// A way to put text on the system clipboard.
#[derive(Debug, Clone, Copy, PartialEq, Eq, Structural)]
pub enum ClipboardTool {
    /// The Wayland `wl-copy` program.
    WlCopy,
    /// The X11 `xclip` program.
    Xclip,
    /// The clipboard library, which on Linux may lose the text when the program exits.
    Arboard,
}

/// The clipboard tools to try, in order, until one succeeds.
pub open spec fn clipboard_plan(linux: bool, wayland: bool) -> Seq<ClipboardTool> {
    if linux && wayland {
        seq![ClipboardTool::WlCopy, ClipboardTool::Xclip, ClipboardTool::Arboard]
    } else if linux {
        seq![ClipboardTool::Xclip, ClipboardTool::Arboard]
    } else {
        seq![ClipboardTool::Arboard]
    }
}

/// The clipboard tools to try, in order: on Linux the command-line tools first, as they
/// keep the text after the program exits (`wl-copy` only under Wayland), then the
/// clipboard library.
pub fn clipboard_tools(linux: bool, wayland: bool) -> (ts: Vec<ClipboardTool>)
    ensures
        ts@ == clipboard_plan(linux, wayland),
{
    let mut ts: Vec<ClipboardTool> = Vec::new();
    if linux {
        if wayland {
            ts.push(ClipboardTool::WlCopy);
        }
        ts.push(ClipboardTool::Xclip);
    }
    ts.push(ClipboardTool::Arboard);
    proof {
        if linux && wayland {
            assert(ts@ =~= clipboard_plan(linux, wayland));
        } else if linux {
            assert(ts@ =~= clipboard_plan(linux, wayland));
        } else {
            assert(ts@ =~= clipboard_plan(linux, wayland));
        }
    }
    ts
}

/// What to do with the commands found in an answer.
#[derive(Debug, PartialEq, Eq)]
pub enum CommandChoice {
    /// There is no command.
    Nothing,
    /// There are several: the user picks one.
    Choose,
    /// There is exactly this one.
    Only(String),
}

/// The first step after commands are found: nothing, a menu, or the single command.
pub fn command_choice(commands: &Vec<String>) -> (c: CommandChoice)
    ensures
        commands@.len() == 0 ==> c is Nothing,
        commands@.len() > 1 ==> c is Choose,
        commands@.len() == 1 ==> (c matches CommandChoice::Only(s) && s@ == commands@[0]@),
{
    if commands.len() == 0 {
        CommandChoice::Nothing
    } else if commands.len() > 1 {
        CommandChoice::Choose
    } else {
        CommandChoice::Only(commands[0].clone())
    }
}

/// What follows once a command is chosen.
#[derive(Debug, Clone, Copy, PartialEq, Eq, Structural)]
pub struct CommandActions {
    /// Remember it as the last command.
    pub save: bool,
    /// Copy it to the clipboard.
    pub copy: bool,
    /// Ask whether to run it, and run it if the user agrees.
    pub confirm_run: bool,
}

/// The actions for a chosen command: none for an empty one; otherwise it is remembered,
/// copied when copying is on, and offered for running when execution was asked for.
pub fn command_actions(command: &str, should_copy: bool, should_execute: bool) -> (a:
    CommandActions)
    ensures
        a.save == (command@.len() > 0),
        a.copy == (command@.len() > 0 && should_copy),
        a.confirm_run == (command@.len() > 0 && should_execute),
{
    let chosen = !command.is_empty();
    CommandActions { save: chosen, copy: chosen && should_copy, confirm_run: chosen && should_execute }
}

} // verus!

verus! {

/// The lines among `ls` that give a command, each as the command it gives.
proof fn lemma_marked_commands_are_the_marked_lines(ls: Seq<Seq<char>>)
    ensures
        marked_commands(ls) == ls.filter(
            |l: Seq<char>| has_command_marker(l) && trim(l.skip(8)).len() > 0,
        ).map_values(|l: Seq<char>| trim(l.skip(8))),
    decreases ls.len(),
{
    reveal(Seq::filter);
    let p = |l: Seq<char>| has_command_marker(l) && trim(l.skip(8)).len() > 0;
    let f = |l: Seq<char>| trim(l.skip(8));
    if ls.len() == 0 {
        assert(ls.filter(p).map_values(f) =~= Seq::<Seq<char>>::empty());
    } else {
        lemma_marked_commands_are_the_marked_lines(ls.drop_last());
        let before = ls.drop_last().filter(p);
        if p(ls.last()) {
            assert(ls.filter(p) == before.push(ls.last()));
            assert(before.push(ls.last()).map_values(f) =~= before.map_values(f) + seq![
                f(ls.last()),
            ]);
        } else {
            assert(ls.filter(p) == before);
            assert(before.map_values(f) + Seq::<Seq<char>>::empty() =~= before.map_values(f));
        }
    }
}

/// Law: every line of the answer that starts with `command:` (in any letter case) and has
/// text after the marker gives one command, its text trimmed, in the order of the lines,
/// and nothing else is a command; there are as many commands as such lines, however many.
/// Only when there is no such line does the last non-blank line stand in.
pub proof fn lemma_every_marked_line_gives_a_command(response: Seq<char>)
    ensures
        ({
            let marked = lines(response).filter(
                |l: Seq<char>| has_command_marker(l) && trim(l.skip(8)).len() > 0,
            );
            &&& marked.len() > 0 ==> extracted_commands(response).len() == marked.len()
            &&& marked.len() > 0 ==> forall|i: int|
                0 <= i < marked.len() ==> #[trigger] extracted_commands(response)[i] == trim(
                    marked[i].skip(8),
                )
            &&& marked.len() == 0 ==> extracted_commands(response).len() <= 1
        }),
{
    lemma_marked_commands_are_the_marked_lines(lines(response));
}

} // verus!

verus! {

/// The last non-blank line is the line at the last index whose text is not blank.
proof fn lemma_last_nonblank_line_is_last(ls: Seq<Seq<char>>)
    ensures
        last_nonblank_line(ls) is None <==> forall|j: int| 0 <= j < ls.len() ==> trim(
            #[trigger] ls[j],
        ).len() == 0,
        last_nonblank_line(ls) is Some ==> exists|j: int|
            0 <= j < ls.len() && #[trigger] trim(ls[j]).len() > 0 && last_nonblank_line(ls)
                == Some(ls[j]) && forall|k: int| j < k < ls.len() ==> trim(#[trigger] ls[k]).len()
                == 0,
    decreases ls.len(),
{
    if ls.len() > 0 {
        let init = ls.drop_last();
        lemma_last_nonblank_line_is_last(init);
        if trim(ls.last()).len() > 0 {
            assert(ls[ls.len() - 1] == ls.last());
        } else {
            assert forall|j: int| 0 <= j < init.len() implies init[j] == ls[j] by {}
            if last_nonblank_line(init) is Some {
                let j = choose|j: int|
                    0 <= j < init.len() && #[trigger] trim(init[j]).len() > 0 && last_nonblank_line(
                        init,
                    ) == Some(init[j]) && forall|k: int|
                        j < k < init.len() ==> trim(#[trigger] init[k]).len() == 0;
                assert(init[j] == ls[j]);
                assert forall|k: int| j < k < ls.len() implies trim(#[trigger] ls[k]).len() == 0 by {
                    if k < init.len() {
                        assert(init[k] == ls[k]);
                    }
                }
            } else {
                assert forall|j: int| 0 <= j < ls.len() implies trim(#[trigger] ls[j]).len() == 0 by {
                    if j < init.len() {
                        assert(init[j] == ls[j]);
                    }
                }
            }
        }
    }
}

/// Without lines that give a command there are no marked commands.
proof fn lemma_no_marked_lines(ls: Seq<Seq<char>>)
    requires
        forall|i: int|
            0 <= i < ls.len() ==> !(has_command_marker(#[trigger] ls[i]) && trim(ls[i].skip(8)).len()
                > 0),
    ensures
        marked_commands(ls).len() == 0,
    decreases ls.len(),
{
    if ls.len() > 0 {
        let init = ls.drop_last();
        assert forall|i: int| 0 <= i < init.len() implies !(has_command_marker(#[trigger] init[i])
            && trim(init[i].skip(8)).len() > 0) by {
            assert(init[i] == ls[i]);
        }
        lemma_no_marked_lines(init);
        assert(ls[ls.len() - 1] == ls.last());
    }
}

/// Law: an answer without any `command:` line gives at most one command: the last line
/// that is not blank, trimmed (every later line being blank), or none when every line is
/// blank.
pub proof fn lemma_unmarked_answer_gives_last_line(response: Seq<char>)
    requires
        forall|i: int|
            0 <= i < lines(response).len() ==> !(has_command_marker(#[trigger] lines(response)[i])
                && trim(lines(response)[i].skip(8)).len() > 0),
    ensures
        (forall|j: int| 0 <= j < lines(response).len() ==> trim(#[trigger] lines(response)[j]).len()
            == 0) ==> extracted_commands(response).len() == 0,
        (exists|j: int| 0 <= j < lines(response).len() && trim(#[trigger] lines(response)[j]).len()
            > 0) ==> exists|j: int|
            0 <= j < lines(response).len() && #[trigger] trim(lines(response)[j]).len() > 0
                && extracted_commands(response) == seq![trim(lines(response)[j])] && forall|k: int|
                j < k < lines(response).len() ==> trim(#[trigger] lines(response)[k]).len() == 0,
{
    let ls = lines(response);
    lemma_no_marked_lines(ls);
    lemma_last_nonblank_line_is_last(ls);
}

} // verus!
