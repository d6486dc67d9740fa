//! Environment description and the prompts sent to the language model.

use vstd::prelude::*;
use vstd::slice::slice_subrange;

use crate::text::{chars_start_with, lines, lines_of, starts_with, string_of, trim, trim_chars};

verus! {

/// A double or single quote.
pub open spec fn is_quote(c: char) -> bool {
    c == '"' || c == '\''
}

/// `s` without the quotes at its start and at its end.
pub open spec fn strip_quotes(s: Seq<char>) -> Seq<char> {
    strip_quotes_end(strip_quotes_start(s))
}

/// `s` without the quotes at its start.
pub open spec fn strip_quotes_start(s: Seq<char>) -> Seq<char>
    decreases s.len(),
{
    if s.len() > 0 && is_quote(s[0]) {
        strip_quotes_start(s.drop_first())
    } else {
        s
    }
}

/// `s` without the quotes at its end.
pub open spec fn strip_quotes_end(s: Seq<char>) -> Seq<char>
    decreases s.len(),
{
    if s.len() > 0 && is_quote(s.last()) {
        strip_quotes_end(s.drop_last())
    } else {
        s
    }
}

/// The distribution name that a line of `/etc/os-release` gives: for a `PRETTY_NAME=`
/// line, its value trimmed, without surrounding quotes and trimmed again, if not empty.
pub open spec fn distro_of_line(l: Seq<char>) -> Option<Seq<char>> {
    if starts_with(l, "PRETTY_NAME="@) {
        let t = trim(strip_quotes(trim(l.skip(12))));
        if t.len() > 0 {
            Some(t)
        } else {
            None
        }
    } else {
        None
    }
}

/// The first distribution name among lines.
pub open spec fn first_distro(ls: Seq<Seq<char>>) -> Option<Seq<char>>
    decreases ls.len(),
{
    if ls.len() == 0 {
        None
    } else {
        match distro_of_line(ls[0]) {
            Some(t) => Some(t),
            None => first_distro(ls.drop_first()),
        }
    }
}

fn strip_quotes_chars(s: &[char]) -> (r: Vec<char>)
    ensures
        r@ == strip_quotes(s@),
{
    let mut start: usize = 0;
    assert(s@.skip(0) =~= s@);
    while start < s.len() && (s[start] == '"' || s[start] == '\'')
        invariant
            start <= s@.len(),
            s@.len() == s.len(),
            strip_quotes_start(s@) == strip_quotes_start(s@.skip(start as int)),
        decreases s@.len() - start,
    {
        assert(s@.skip(start as int).drop_first() =~= s@.skip(start + 1));
        start = start + 1;
    }
    let mut end: usize = s.len();
    assert(s@.skip(start as int) =~= s@.subrange(start as int, end as int));
    while end > start && (s[end - 1] == '"' || s[end - 1] == '\'')
        invariant
            start <= end <= s@.len(),
            s@.len() == s.len(),
            start < s@.len() ==> !is_quote(s@[start as int]),
            strip_quotes(s@) == strip_quotes_end(s@.subrange(start as int, end as int)),
        decreases end,
    {
        assert(s@.subrange(start as int, end as int).drop_last() =~= s@.subrange(
            start as int,
            end - 1,
        ));
        end = end - 1;
    }
    let mut r: Vec<char> = Vec::new();
    crate::text::extend_chars(&mut r, slice_subrange(s, start, end));
    assert(r@ =~= s@.subrange(start as int, end as int));
    r
}

/// Finds the distribution's display name in the contents of `/etc/os-release`: the value
/// of the first `PRETTY_NAME=` line that is not empty once trimmed and stripped of quotes.
pub fn parse_linux_distro(content: &str) -> (r: Option<String>)
    ensures
        r is None <==> first_distro(lines(content@)) is None,
        r matches Some(d) ==> first_distro(lines(content@)) == Some(d@),
{
    let ls = lines_of(content);
    let ghost all = ls@.map_values(|l: Vec<char>| l@);
    let key: Vec<char> = vec!['P', 'R', 'E', 'T', 'T', 'Y', '_', 'N', 'A', 'M', 'E', '='];
    proof {
        reveal_strlit("PRETTY_NAME=");
    }
    assert(key@ == "PRETTY_NAME="@);
    let mut i: usize = 0;
    assert(all.skip(0) =~= all);
    while i < ls.len()
        invariant
            i <= ls@.len(),
            all == ls@.map_values(|l: Vec<char>| l@),
            all == lines(content@),
            key@ == "PRETTY_NAME="@,
            key@.len() == 12,
            first_distro(all) == first_distro(all.skip(i as int)),
        decreases ls@.len() - i,
    {
        let line = &ls[i];
        assert(all.skip(i as int)[0] == line@);
        assert(all.skip(i as int).drop_first() =~= all.skip(i + 1));
        if chars_start_with(line.as_slice(), key.as_slice()) {
            let value = trim_chars(slice_subrange(line.as_slice(), 12, line.len()));
            let unquoted = strip_quotes_chars(value.as_slice());
            let t = trim_chars(unquoted.as_slice());
            if t.len() > 0 {
                return Some(string_of(t.as_slice()));
            }
        }
        i = i + 1;
    }
    None
}

/// The operating system as described to the model: its name, with the distribution in
/// parentheses when one is known.
pub open spec fn os_label(os_name: Seq<char>, distro: Seq<char>) -> Seq<char> {
    if distro.len() == 0 {
        os_name
    } else {
        os_name + " ("@ + distro + ")"@
    }
}

/// Describes the operating system: its name, followed by the distribution in
/// parentheses when `distro` is not empty.
pub fn os_context_label(os_name: &str, distro: &str) -> (s: String)
    ensures
        s@ == os_label(os_name@, distro@),
{
    if distro.is_empty() {
        String::from_str(os_name)
    } else {
        let mut s = String::from_str(os_name);
        s.append(" (");
        s.append(distro);
        s.append(")");
        s
    }
}

} // verus!

verus! {

/// The prompt that asks for a command answering `question`.
pub open spec fn command_prompt(os: Seq<char>, shell: Seq<char>, cwd: Seq<char>, question: Seq<
    char,
>) -> Seq<char> {
    "Context:\n- Operating System: "@ + os + "\n- Shell: "@ + shell + "\n- Current Directory: "@
        + cwd + "\n\nTask: Provide the most common command line command for this query. \
        If there are other very distinct or necessary alternative ways, you may list them as well, each on a new line starting with 'Command: '. \
        Otherwise, provide just the single raw command.\n\n\
        Ensure the command is compatible with the specified OS and Shell. \
        Do not include any markdown formatting, backticks, or explanations. \
        Query: "@ + question
}

/// Builds the prompt for asking a command-line question, in the context of the operating
/// system `os`, the shell `shell` and the current directory `cwd`.
pub fn build_command_prompt(os: &str, shell: &str, cwd: &str, question: &str) -> (p: String)
    ensures
        p@ == command_prompt(os@, shell@, cwd@, question@),
{
    let mut p = String::from_str("Context:\n- Operating System: ");
    p.append(os);
    p.append("\n- Shell: ");
    p.append(shell);
    p.append("\n- Current Directory: ");
    p.append(cwd);
    p.append(
        "\n\nTask: Provide the most common command line command for this query. \
        If there are other very distinct or necessary alternative ways, you may list them as well, each on a new line starting with 'Command: '. \
        Otherwise, provide just the single raw command.\n\n\
        Ensure the command is compatible with the specified OS and Shell. \
        Do not include any markdown formatting, backticks, or explanations. \
        Query: ",
    );
    p.append(question);
    p
}

/// The prompt that asks to refine `last_command` following `refinement`.
pub open spec fn refine_prompt(
    os: Seq<char>,
    shell: Seq<char>,
    cwd: Seq<char>,
    last_command: Seq<char>,
    refinement: Seq<char>,
) -> Seq<char> {
    "Context:\n- Operating System: "@ + os + "\n- Shell: "@ + shell + "\n- Current Directory: "@
        + cwd + "\n- Previous Command: "@ + last_command
        + "\n\nTask: Based on the previous command and the following refinement instruction, provide the most direct updated command line command. \
        If there are other very distinct or necessary alternative refinements, you may list them as well, each on a new line starting with 'Command: '. \
        Otherwise, provide just the single raw command.\n\n\
        Instruction: "@ + refinement + "\n\
        Ensure the command is compatible with the specified OS and Shell. \
        Do not include any markdown formatting, backticks, or explanations."@
}

/// Builds the prompt for refining the previously generated command.
pub fn build_refine_prompt(os: &str, shell: &str, cwd: &str, last_command: &str, refinement: &str) -> (p:
    String)
    ensures
        p@ == refine_prompt(os@, shell@, cwd@, last_command@, refinement@),
{
    let mut p = String::from_str("Context:\n- Operating System: ");
    p.append(os);
    p.append("\n- Shell: ");
    p.append(shell);
    p.append("\n- Current Directory: ");
    p.append(cwd);
    p.append("\n- Previous Command: ");
    p.append(last_command);
    p.append(
        "\n\nTask: Based on the previous command and the following refinement instruction, provide the most direct updated command line command. \
        If there are other very distinct or necessary alternative refinements, you may list them as well, each on a new line starting with 'Command: '. \
        Otherwise, provide just the single raw command.\n\n\
        Instruction: ",
    );
    p.append(refinement);
    p.append(
        "\n\
        Ensure the command is compatible with the specified OS and Shell. \
        Do not include any markdown formatting, backticks, or explanations.",
    );
    p
}

/// The prompt that asks to explain `command`.
pub open spec fn explain_prompt(os: Seq<char>, command: Seq<char>) -> Seq<char> {
    "Context:\n- Operating System: "@ + os
        + "\n\nTask: Provide a concise, high-signal technical breakdown of this command. \
        Assume the user is an expert CLI user. Focus on flag functions and non-obvious behavior. \
        No introductory fluff or basic definitions. \
        Command: "@ + command
}

/// Builds the prompt for explaining a command, on the operating system `os`.
pub fn build_explain_prompt(os: &str, command: &str) -> (p: String)
    ensures
        p@ == explain_prompt(os@, command@),
{
    let mut p = String::from_str("Context:\n- Operating System: ");
    p.append(os);
    p.append(
        "\n\nTask: Provide a concise, high-signal technical breakdown of this command. \
        Assume the user is an expert CLI user. Focus on flag functions and non-obvious behavior. \
        No introductory fluff or basic definitions. \
        Command: ",
    );
    p.append(command);
    p
}

/// The prompt that asks to diagnose `error_output` and fix the command.
pub open spec fn fix_prompt(os: Seq<char>, shell: Seq<char>, cwd: Seq<char>, error_output: Seq<
    char,
>) -> Seq<char> {
    "Context:\n- Operating System: "@ + os + "\n- Shell: "@ + shell + "\n- Current Directory: "@
        + cwd + "\n\nTask: The following error occurred. \
        1. Shortly explain what went wrong (max 2 sentences). \
        2. Provide the fixed raw command line command. \
        Ensure the command is compatible with the specified OS and Shell.\n\n\
        Error Output:\n"@ + error_output + "\n\n\
        Format your response exactly like this:\n\
        Explanation: [Your short explanation]\n\
        Command: [The raw command]"@
}

/// Builds the prompt for diagnosing and fixing a command given its error output.
pub fn build_fix_prompt(os: &str, shell: &str, cwd: &str, error_output: &str) -> (p: String)
    ensures
        p@ == fix_prompt(os@, shell@, cwd@, error_output@),
{
    let mut p = String::from_str("Context:\n- Operating System: ");
    p.append(os);
    p.append("\n- Shell: ");
    p.append(shell);
    p.append("\n- Current Directory: ");
    p.append(cwd);
    p.append(
        "\n\nTask: The following error occurred. \
        1. Shortly explain what went wrong (max 2 sentences). \
        2. Provide the fixed raw command line command. \
        Ensure the command is compatible with the specified OS and Shell.\n\n\
        Error Output:\n",
    );
    p.append(error_output);
    p.append(
        "\n\n\
        Format your response exactly like this:\n\
        Explanation: [Your short explanation]\n\
        Command: [The raw command]",
    );
    p
}

} // verus!

verus! {

/// Law: the distribution is taken from the first line that names one, and from no other:
/// when some line names a distribution, the result is what the earliest such line names,
/// every line before it naming none; when no line names one, there is none.
pub proof fn lemma_first_named_distro_wins(ls: Seq<Seq<char>>)
    ensures
        first_distro(ls) is None <==> forall|j: int| 0 <= j < ls.len() ==> distro_of_line(
            #[trigger] ls[j],
        ) is None,
        first_distro(ls) is Some ==> exists|j: int|
            0 <= j < ls.len() && first_distro(ls) == #[trigger] distro_of_line(ls[j]) && forall|
                k: int,
            | 0 <= k < j ==> distro_of_line(#[trigger] ls[k]) is None,
    decreases ls.len(),
{
    if ls.len() > 0 {
        let rest = ls.drop_first();
        lemma_first_named_distro_wins(rest);
        assert forall|j: int| 0 <= j < rest.len() implies rest[j] == ls[j + 1] by {}
        if distro_of_line(ls[0]) is Some {
        } else if first_distro(rest) is Some {
            let j = choose|j: int|
                0 <= j < rest.len() && first_distro(rest) == #[trigger] distro_of_line(rest[j])
                    && forall|k: int| 0 <= k < j ==> distro_of_line(#[trigger] rest[k]) is None;
            assert(distro_of_line(ls[j + 1]) == distro_of_line(rest[j]));
            assert forall|k: int| 0 <= k < j + 1 implies distro_of_line(#[trigger] ls[k]) is None by {
                if k > 0 {
                    assert(ls[k] == rest[k - 1]);
                }
            }
        } else {
            assert forall|j: int| 0 <= j < ls.len() implies distro_of_line(#[trigger] ls[j]) is None by {
                if j > 0 {
                    assert(ls[j] == rest[j - 1]);
                }
            }
        }
    }
}

} // verus!
