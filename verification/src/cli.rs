//! Decisions of the command-line entry point: which front end runs, the
//! banner for a resumed session, and the lines the plain prompt loop runs.

use crate::text::{copy_chars, decimal_seq, is_white_space, push_decimal, strings_view};
use vstd::prelude::*;

verus! {

/// The front end a command line selects.
#[derive(Clone, Debug)]
pub enum Flow {
    /// Newline-delimited JSON over standard input and output.
    JsonStream,
    /// The full-screen terminal interface.
    Tui,
    /// The plain prompt: run this prompt once, or read prompts line by line
    /// when it is empty.
    Plain(String),
}

/// The words of a prompt joined by single spaces.
pub open spec fn join_words(parts: Seq<Seq<char>>) -> Seq<char>
    decreases parts.len(),
{
    if parts.len() == 0 {
        Seq::empty()
    } else if parts.len() == 1 {
        parts[0]
    } else {
        join_words(parts.drop_last()) + seq![' '] + parts.last()
    }
}

pub fn join_prompt(parts: &Vec<String>) -> (s: String)
    ensures
        s@ == join_words(strings_view(parts@)),
{
    let mut s = String::new();
    let mut i: usize = 0;
    while i < parts.len()
        invariant
            i <= parts@.len(),
            s@ == join_words(strings_view(parts@).take(i as int)),
        decreases parts@.len() - i,
    {
        if i > 0 {
            crate::text::push_char(&mut s, ' ');
        }
        s.append(parts[i].as_str());
        proof {
            let w = strings_view(parts@);
            assert(w.take(i + 1).drop_last() =~= w.take(i as int));
            if i == 0 {
                assert(w.take(1) =~= seq![w[0]]);
                assert(join_words(w.take(1)) == w[0]);
                assert(s@ =~= w[0]);
            }
        }
        i = i + 1;
    }
    proof {
        assert(strings_view(parts@).take(parts@.len() as int) =~= strings_view(parts@));
    }
    s
}

/// The flow the flags and terminals select, once resuming and a session
/// id were found compatible: JSON streaming when asked for, the terminal
/// interface when no prompt is given and both standard input and output are
/// terminals, the plain prompt otherwise.
pub open spec fn flow_spec(json_stream: bool, prompt: Seq<char>, stdin_is_terminal: bool, stdout_is_terminal: bool) -> int {
    if json_stream { 0 } else if prompt.len() == 0 && stdin_is_terminal && stdout_is_terminal { 1 } else { 2 }
}

pub fn choose_flow(json_stream: bool, prompt_parts: &Vec<String>, stdin_is_terminal: bool, stdout_is_terminal: bool) -> (flow: Flow)
    ensures
        match flow {
            Flow::JsonStream => flow_spec(json_stream, join_words(strings_view(prompt_parts@)), stdin_is_terminal, stdout_is_terminal) == 0,
            Flow::Tui => flow_spec(json_stream, join_words(strings_view(prompt_parts@)), stdin_is_terminal, stdout_is_terminal) == 1,
            Flow::Plain(p) => flow_spec(json_stream, join_words(strings_view(prompt_parts@)), stdin_is_terminal, stdout_is_terminal) == 2
                && p@ == join_words(strings_view(prompt_parts@)),
        },
{
    if json_stream {
        return Flow::JsonStream;
    }
    let prompt = join_prompt(prompt_parts);
    if prompt.as_str().is_empty() && stdin_is_terminal && stdout_is_terminal {
        Flow::Tui
    } else {
        Flow::Plain(prompt)
    }
}

/// Resuming a session and naming a new session id cannot be combined.
pub fn check_session_flags(resume: bool, session_id: bool) -> (r: Result<(), String>)
    ensures
        r is Ok <==> !(resume && session_id),
        r matches Err(m) ==> m@ == "Cannot use --resume and --session-id together"@,
{
    if resume && session_id {
        Err(copy_chars("Cannot use --resume and --session-id together"))
    } else {
        Ok(())
    }
}

/// What the banner of a resumed session reports.
#[derive(Clone, Debug)]
pub struct SessionSummary {
    pub id: String,
    pub forked_from: Option<String>,
    pub message_count: usize,
    pub model: String,
}

pub open spec fn resume_banner_spec(id: Seq<char>, forked_from: Option<Seq<char>>, count: nat, model: Seq<char>, fork: bool) -> Seq<char> {
    if fork {
        "Forked session "@ + id + " from "@ + match forked_from {
            Some(f) => f,
            None => "?"@,
        } + " ("@ + decimal_seq(count) + " messages, "@ + model + " model)"@
    } else {
        "Resumed session "@ + id + " ("@ + decimal_seq(count) + " messages, "@ + model + " model)"@
    }
}

/// The banner shown when a session is resumed or forked.
pub fn resume_banner(session: &SessionSummary, fork_session: bool) -> (s: String)
    ensures
        s@ == resume_banner_spec(
            session.id@,
            match session.forked_from {
                Some(f) => Some(f@),
                None => None,
            },
            session.message_count as nat,
            session.model@,
            fork_session,
        ),
{
    let mut s = if fork_session { copy_chars("Forked session ") } else { copy_chars("Resumed session ") };
    s.append(session.id.as_str());
    if fork_session {
        s.append(" from ");
        match &session.forked_from {
            Some(f) => s.append(f.as_str()),
            None => s.append("?"),
        }
    }
    s.append(" (");
    push_decimal(&mut s, session.message_count as u64);
    s.append(" messages, ");
    s.append(session.model.as_str());
    s.append(" model)");
    s
}

pub open spec fn trim_start_spec(s: Seq<char>) -> Seq<char>
    decreases s.len(),
{
    if s.len() > 0 && is_white_space(s[0]) { trim_start_spec(s.drop_first()) } else { s }
}

pub open spec fn trim_end_spec(s: Seq<char>) -> Seq<char>
    decreases s.len(),
{
    if s.len() > 0 && is_white_space(s.last()) { trim_end_spec(s.drop_last()) } else { s }
}

/// `s` without leading and trailing whitespace, as `str::trim` gives it.
pub open spec fn trim_spec(s: Seq<char>) -> Seq<char> {
    trim_end_spec(trim_start_spec(s))
}

pub fn trim(s: &str) -> (t: String)
    ensures
        t@ == trim_spec(s@),
{
    let chars = crate::text::chars_of(s);
    let mut start: usize = 0;
    proof {
        assert(chars@.subrange(0, chars@.len() as int) =~= chars@);
    }
    while start < chars.len() && crate::text::char_is_whitespace(chars[start])
        invariant
            start <= chars@.len(),
            trim_start_spec(chars@) == trim_start_spec(chars@.subrange(start as int, chars@.len() as int)),
        decreases chars@.len() - start,
    {
        proof {
            let rest = chars@.subrange(start as int, chars@.len() as int);
            assert(rest.drop_first() =~= chars@.subrange(start + 1, chars@.len() as int));
        }
        start = start + 1;
    }
    let ghost front = chars@.subrange(start as int, chars@.len() as int);
    proof {
        assert(trim_start_spec(front) == front);
    }
    let mut end: usize = chars.len();
    while end > start && crate::text::char_is_whitespace(chars[end - 1])
        invariant
            start <= end <= chars@.len(),
            front == chars@.subrange(start as int, chars@.len() as int),
            trim_end_spec(front) == trim_end_spec(chars@.subrange(start as int, end as int)),
        decreases end - start,
    {
        proof {
            let cur = chars@.subrange(start as int, end as int);
            assert(cur.drop_last() =~= chars@.subrange(start as int, end - 1));
        }
        end = end - 1;
    }
    let mut t = String::new();
    let mut k: usize = start;
    while k < end
        invariant
            start <= k <= end,
            end <= chars@.len(),
            t@ == chars@.subrange(start as int, k as int),
        decreases end - k,
    {
        crate::text::push_char(&mut t, chars[k]);
        proof {
            assert(chars@.subrange(start as int, k + 1) =~= chars@.subrange(start as int, k as int).push(chars@[k as int]));
        }
        k = k + 1;
    }
    proof {
        let kept = chars@.subrange(start as int, end as int);
        assert(trim_end_spec(kept) == kept);
    }
    t
}

/// The prompt a line of the plain loop runs, or `None` to stop: the line
/// without surrounding whitespace, unless nothing remains.
pub fn repl_prompt(line: &str) -> (p: Option<String>)
    ensures
        match p {
            Some(t) => t@ == trim_spec(line@) && t@.len() > 0,
            None => trim_spec(line@).len() == 0,
        },
{
    let t = trim(line);
    if t.as_str().is_empty() { None } else { Some(t) }
}

} // verus!

verus! {

/// The terminal interface runs only when it can: without JSON streaming,
/// without a prompt, and with both standard input and standard output
/// terminals; JSON streaming wins whenever it is asked for, and every other
/// case is the plain prompt. So a piped standard input never gets the
/// terminal interface.
pub proof fn law_tui_needs_terminals(json_stream: bool, prompt: Seq<char>, stdin_is_terminal: bool, stdout_is_terminal: bool)
    ensures
        ({
            let f = flow_spec(json_stream, prompt, stdin_is_terminal, stdout_is_terminal);
            &&& (f == 0) == json_stream
            &&& (f == 1) == (!json_stream && prompt.len() == 0 && stdin_is_terminal && stdout_is_terminal)
            &&& !stdin_is_terminal ==> f != 1
            &&& f == 0 || f == 1 || f == 2
        }),
{
}

} // verus!
