//! Command lines as Windows programs read them.
use vstd::prelude::*;
use vstd::string::{StrSliceExecFns, StringExecFns};

use crate::strings::{chars_of, lower, lower_text, lowered, only_capital_letters_are_lowered, push_char, same_text};
use crate::windows::path_laws::{a_name_on_a_drive_is_the_last_one, is_drive_directory, is_plain_file_name};
use crate::windows::paths::{windows_file_name, windows_name};
use crate::windows::wide::{encode_wide, utf16};

verus! {

// ---------------------------------------------------------------------------
// Quoting
// ---------------------------------------------------------------------------

/// Whether a character makes quotes necessary.
pub open spec fn needs_quotes(c: char) -> bool {
    c == ' ' || c == '\t' || c == '\n' || c == '\x0b' || c == '"'
}

/// How many backslashes a text starts with.
pub open spec fn backslashes(text: Seq<char>) -> nat
    decreases text.len(),
{
    if text.len() > 0 && text[0] == '\\' { 1 + backslashes(text.drop_first()) } else { 0 }
}

/// A run of one character.
pub open spec fn run_of(c: char, count: nat) -> Seq<char> {
    Seq::new(count, |i: int| c)
}

/// A text as it stands between quotes: backslashes are doubled in front of a
/// quote and at the end, and a quote is escaped by one more.
pub open spec fn escaped(text: Seq<char>) -> Seq<char>
    decreases text.len(),

{
    let run = backslashes(text);
    if run >= text.len() {
        run_of('\\', 2 * run)
    } else if text[run as int] == '"' {
        run_of('\\', 2 * run + 1).push('"') + escaped(text.skip((run + 1) as int))
    } else {
        run_of('\\', run).push(text[run as int]) + escaped(text.skip((run + 1) as int))
    }
}

/// An argument as it stands in a command line.
pub open spec fn quoted(arg: Seq<char>) -> Seq<char> {
    if arg.len() > 0 && forall|i: int| 0 <= i < arg.len() ==> !needs_quotes(#[trigger] arg[i]) {
        arg
    } else {
        seq!['"'] + escaped(arg) + seq!['"']
    }
}

fn push_run(out: &mut String, c: char, count: usize)
    ensures
        final(out)@ == old(out)@ + run_of(c, count as nat),
{
    assert(out@ + run_of(c, 0) =~= out@);
    for at in 0..count
        invariant
            out@ == old(out)@ + run_of(c, at as nat),
    {
        push_char(out, c);
        assert(out@ =~= old(out)@ + run_of(c, (at + 1) as nat));
    }
}

fn count_backslashes(chars: &Vec<char>, from: usize) -> (end: usize)
    requires
        from <= chars@.len(),
    ensures
        end == from + backslashes(chars@.skip(from as int)),
        from <= end <= chars@.len(),
{
    let mut at: usize = from;
    while at < chars.len() && chars[at] == '\\'
        invariant
            from <= at <= chars@.len(),
            backslashes(chars@.skip(from as int)) == at - from + backslashes(
                chars@.skip(at as int),
            ),
        decreases chars@.len() - at,
    {
        assert(chars@.skip(at as int).drop_first() =~= chars@.skip(at + 1));
        at += 1;
    }
    at
}

/// An argument as it stands in a command line.
pub fn quote(arg: &str) -> (text: String)
    ensures
        text@ == quoted(arg@),
{
    let chars = chars_of(arg);
    let mut plain = chars.len() > 0;
    for at in 0..chars.len()
        invariant
            chars@ == arg@,
            plain ==> forall|i: int| 0 <= i < at ==> !needs_quotes(#[trigger] arg@[i]),
            !plain ==> arg@.len() == 0 || exists|i: int|
                0 <= i < arg@.len() && needs_quotes(#[trigger] arg@[i]),
            plain ==> arg@.len() > 0,
    {
        let c = chars[at];
        if c == ' ' || c == '\t' || c == '\n' || c == '\x0b' || c == '"' {
            assert(needs_quotes(arg@[at as int]));
            plain = false;
        }
    }
    if plain {
        return arg.to_owned();
    }
    let mut out = String::new();
    push_char(&mut out, '"');
    assert(out@ =~= seq!['"']);
    let mut at: usize = 0;
    assert(arg@.skip(0) =~= arg@);
    let mut done = false;
    while !done
        invariant
            chars@ == arg@,
            at <= chars@.len(),
            !done ==> seq!['"'] + escaped(arg@) == out@ + escaped(arg@.skip(at as int)),
            done ==> seq!['"'] + escaped(arg@) == out@,
        decreases chars@.len() - at, if done { 0int } else { 1int },
    {
        let ghost before = out@;
        let ghost left = arg@.skip(at as int);
        let end = count_backslashes(&chars, at);
        let run: usize = end - at;
        if end == chars.len() {
            push_twice(&mut out, run);
            done = true;
        } else if chars[end] == '"' {
            push_twice(&mut out, run);
            push_char(&mut out, '\\');
            push_char(&mut out, '"');
            proof {
                let piece = run_of('\\', (2 * run + 1) as nat).push('"');
                assert(out@ =~= before + piece);
                assert(left.skip(run + 1) =~= arg@.skip(end + 1));
                assert(before + (piece + escaped(arg@.skip(end + 1))) =~= out@ + escaped(
                    arg@.skip(end + 1),
                ));
            }
            at = end + 1;
        } else {
            push_run(&mut out, '\\', run);
            push_char(&mut out, chars[end]);
            proof {
                let piece = run_of('\\', run as nat).push(chars@[end as int]);
                assert(out@ =~= before + piece);
                assert(left.skip(run + 1) =~= arg@.skip(end + 1));
                assert(before + (piece + escaped(arg@.skip(end + 1))) =~= out@ + escaped(
                    arg@.skip(end + 1),
                ));
            }
            at = end + 1;
        }
    }
    push_char(&mut out, '"');
    assert(out@ =~= seq!['"'] + escaped(arg@) + seq!['"']);
    out
}

fn push_twice(out: &mut String, run: usize)
    ensures
        final(out)@ == old(out)@ + run_of('\\', 2 * run as nat),
{
    push_run(out, '\\', run);
    push_run(out, '\\', run);
    assert(out@ =~= old(out)@ + run_of('\\', 2 * run as nat));
}

// ---------------------------------------------------------------------------
// How a program takes a command line apart
// ---------------------------------------------------------------------------

/// The argument at the front of a command line and what follows it, by the rules
/// of the C runtime. `inside` tells whether a quote is open.
///
/// Backslashes mean themselves unless a quote follows: then two stand for one,
/// and an odd one makes the quote a plain character. Inside quotes two quotes
/// stand for one. A space or tab outside quotes ends the argument.
pub open spec fn read_arg(line: Seq<char>, inside: bool) -> (Seq<char>, Seq<char>)
    decreases line.len(),
{
    let run = backslashes(line);
    if line.len() == 0 {
        (Seq::empty(), Seq::empty())
    } else if run < line.len() && line[run as int] == '"' {
        let after = line.skip((run + 1) as int);
        if run % 2 == 1 {
            prepend(run_of('\\', run / 2).push('"'), read_arg(after, inside))
        } else if inside && after.len() > 0 && after[0] == '"' {
            prepend(run_of('\\', run / 2).push('"'), read_arg(after.skip(1), inside))
        } else {
            prepend(run_of('\\', run / 2), read_arg(after, !inside))
        }
    } else if 0 < run <= line.len() {
        prepend(run_of('\\', run), read_arg(line.skip(run as int), inside))
    } else if !inside && (line[0] == ' ' || line[0] == '\t') {
        (Seq::empty(), line)
    } else {
        prepend(seq![line[0]], read_arg(line.skip(1), inside))
    }
}

pub open spec fn prepend(front: Seq<char>, read: (Seq<char>, Seq<char>)) -> (
    Seq<char>,
    Seq<char>,
) {
    (front + read.0, read.1)
}

/// A command line without the blanks in front.
pub open spec fn skip_blanks(line: Seq<char>) -> Seq<char>
    decreases line.len(),
{
    if line.len() > 0 && (line[0] == ' ' || line[0] == '\t') {
        skip_blanks(line.drop_first())
    } else {
        line
    }
}

/// The arguments of a command line after the program.
pub open spec fn read_args(line: Seq<char>) -> Seq<Seq<char>>
    decreases line.len(),
{
    let start = skip_blanks(line);
    if start.len() == 0 {
        Seq::empty()
    } else {
        let (arg, rest) = read_arg(start, false);
        if rest.len() < line.len() {
            seq![arg] + read_args(rest)
        } else {
            seq![arg]
        }
    }
}

/// Arguments in a command line: each quoted as needed, with a space in front.
pub open spec fn written_args(args: Seq<Seq<char>>) -> Seq<char>
    decreases args.len(),
{
    if args.len() == 0 {
        Seq::empty()
    } else {
        seq![' '] + quoted(args[0]) + written_args(args.drop_first())
    }
}

proof fn lemma_backslashes_bound(text: Seq<char>)
    ensures
        backslashes(text) <= text.len(),
        forall|i: int| 0 <= i < backslashes(text) ==> text[i] == '\\',
        backslashes(text) < text.len() ==> text[backslashes(text) as int] != '\\',
    decreases text.len(),
{
    if text.len() > 0 && text[0] == '\\' {
        let rest = text.drop_first();
        lemma_backslashes_bound(rest);
        assert forall|i: int| 0 <= i < backslashes(text) implies text[i] == '\\' by {
            if i > 0 {
                assert(rest[i - 1] == '\\');
            }
        }
    }
}

/// A run of backslashes in front of something else is counted as it is.
proof fn lemma_backslashes_of_run(count: nat, rest: Seq<char>)
    requires
        rest.len() == 0 || rest[0] != '\\',
    ensures
        backslashes(run_of('\\', count) + rest) == count,
    decreases count,
{
    let text = run_of('\\', count) + rest;
    if count == 0 {
        assert(text =~= rest);
    } else {
        assert(text.drop_first() =~= run_of('\\', (count - 1) as nat) + rest);
        lemma_backslashes_of_run((count - 1) as nat, rest);
    }
}

proof fn lemma_starts_with_run(text: Seq<char>)
    ensures
        text =~= run_of('\\', backslashes(text)) + text.skip(backslashes(text) as int),
{
    lemma_backslashes_bound(text);
}

spec fn ends_argument(rest: Seq<char>) -> bool {
    rest.len() == 0 || rest[0] == ' '
}

proof fn lemma_read_end(rest: Seq<char>)
    requires
        ends_argument(rest),
    ensures
        read_arg(rest, false) == (Seq::<char>::empty(), rest),
{
    if rest.len() == 0 {
        assert(rest =~= Seq::<char>::empty());
    }
}

/// What stands between quotes is read as the text that was escaped.
proof fn lemma_read_escaped(text: Seq<char>, rest: Seq<char>)
    requires
        ends_argument(rest),
    ensures
        read_arg(escaped(text) + seq!['"'] + rest, true) == (text, rest),
    decreases text.len(),
{
    let run = backslashes(text);
    let line = escaped(text) + seq!['"'] + rest;
    lemma_backslashes_bound(text);
    lemma_starts_with_run(text);
    if run >= text.len() {
        let tail = seq!['"'] + rest;
        assert(line =~= run_of('\\', 2 * run) + tail);
        lemma_backslashes_of_run(2 * run, tail);
        assert(line[(2 * run) as int] == '"');
        assert(line.skip((2 * run + 1) as int) =~= rest);
        lemma_read_end(rest);
        assert((2 * run) / 2 == run);
        assert(run_of('\\', run) + Seq::<char>::empty() =~= text);
    } else {
        let after = text.skip((run + 1) as int);
        let tail = escaped(after) + seq!['"'] + rest;
        lemma_read_escaped(after, rest);
        let c = text[run as int];
        if c == '"' {
            assert(line =~= run_of('\\', 2 * run + 1) + (seq!['"'] + tail));
            lemma_backslashes_of_run(2 * run + 1, seq!['"'] + tail);
            assert(line[(2 * run + 1) as int] == '"');
            assert(line.skip((2 * run + 2) as int) =~= tail);
            assert((2 * run + 1) % 2 == 1 && (2 * run + 1) / 2 == run);
            assert(run_of('\\', run).push('"') + after =~= text);
        } else {
            assert(line =~= run_of('\\', run) + (seq![c] + tail));
            lemma_backslashes_of_run(run, seq![c] + tail);
            assert(line[run as int] == c);
            assert(line.skip(run as int) =~= seq![c] + tail);
            let single = seq![c] + tail;
            assert(backslashes(single) == 0);
            assert(single.skip(1) =~= tail);
            assert(read_arg(single, true) == prepend(seq![c], read_arg(tail, true)));
            if run > 0 {
                assert(run_of('\\', run) + (seq![c] + after) =~= text);
            } else {
                assert(line =~= single);
                assert(seq![c] + after =~= text);
            }
        }
    }
}

/// An argument without anything special is read as it stands.
proof fn lemma_read_plain(arg: Seq<char>, rest: Seq<char>)
    requires
        forall|i: int| 0 <= i < arg.len() ==> !needs_quotes(#[trigger] arg[i]),
        ends_argument(rest),
    ensures
        read_arg(arg + rest, false) == (arg, rest),
    decreases arg.len(),
{
    let line = arg + rest;
    lemma_read_end(rest);
    if arg.len() == 0 {
        assert(line =~= rest);
        assert(arg =~= Seq::<char>::empty());
    } else {
        let run = backslashes(arg);
        lemma_backslashes_bound(arg);
        lemma_starts_with_run(arg);
        let after = arg.skip(run as int);
        assert(line =~= run_of('\\', run) + (after + rest));
        assert(after.len() > 0 ==> after[0] == arg[run as int]);
        lemma_backslashes_of_run(run, after + rest);
        if run > 0 {
            assert forall|i: int| 0 <= i < after.len() implies !needs_quotes(
                #[trigger] after[i],
            ) by {
                assert(after[i] == arg[run + i]);
            }
            lemma_read_plain(after, rest);
            assert(line.skip(run as int) =~= after + rest);
            if run < line.len() {
                assert(line[run as int] == (after + rest)[0]);
                if after.len() > 0 {
                    assert(!needs_quotes(arg[run as int]));
                }
            }
        } else {
            let next = arg.skip(1);
            assert forall|i: int| 0 <= i < next.len() implies !needs_quotes(
                #[trigger] next[i],
            ) by {
                assert(next[i] == arg[1 + i]);
            }
            lemma_read_plain(next, rest);
            assert(line[0] == arg[0]);
            assert(!needs_quotes(arg[0]));
            assert(line.skip(1) =~= next + rest);
            assert(seq![arg[0]] + next =~= arg);
        }
    }
}

/// A quoted argument is read back, whatever argument follows.
proof fn lemma_read_quoted(arg: Seq<char>, rest: Seq<char>)
    requires
        ends_argument(rest),
    ensures
        read_arg(quoted(arg) + rest, false) == (arg, rest),
        quoted(arg).len() > 0,
        quoted(arg)[0] != ' ' && quoted(arg)[0] != '\t',
{
    if arg.len() > 0 && forall|i: int| 0 <= i < arg.len() ==> !needs_quotes(#[trigger] arg[i]) {
        lemma_read_plain(arg, rest);
        assert(!needs_quotes(arg[0]));
    } else {
        let line = quoted(arg) + rest;
        let after = escaped(arg) + seq!['"'] + rest;
        assert(line =~= seq!['"'] + after);
        assert(backslashes(line) == 0);
        assert(line.skip(1) =~= after);
        lemma_read_escaped(arg, rest);
        assert(run_of('\\', 0) + arg =~= arg);
    }
}

/// Whatever the arguments are, a program reads back exactly the arguments that
/// were written.
pub proof fn written_args_are_read_back(args: Seq<Seq<char>>)
    ensures
        read_args(written_args(args)) == args,
    decreases args.len(),
{
    let line = written_args(args);
    if args.len() == 0 {
        assert(args =~= Seq::<Seq<char>>::empty());
    } else {
        let rest = written_args(args.drop_first());
        let body = quoted(args[0]) + rest;
        assert(line =~= seq![' '] + body);
        if args.len() > 1 {
            assert(rest[0] == ' ');
        }
        lemma_read_quoted(args[0], rest);
        assert(body[0] == quoted(args[0])[0]);
        assert(line.drop_first() =~= body);
        assert(skip_blanks(body) == body);
        assert(skip_blanks(line) == body);
        written_args_are_read_back(args.drop_first());
        assert(seq![args[0]] + args.drop_first() =~= args);
    }
}

// ---------------------------------------------------------------------------
// The whole line
// ---------------------------------------------------------------------------

/// Whether a program is the command interpreter, by its name in any case.
pub open spec fn names_cmd(program: Seq<char>) -> bool {
    let name = windows_name(lowered(program));
    name == Some("cmd"@) || name == Some("cmd.exe"@)
}

pub fn is_cmd_exe(program: &str) -> (is: bool)
    ensures
        is == names_cmd(program@),
{
    match windows_file_name(lower_text(program).as_str()) {
        Some(name) => same_text(name.as_str(), "cmd") || same_text(name.as_str(), "cmd.exe"),
        None => false,
    }
}

/// Whether an argument tells the command interpreter that a script follows.
pub open spec fn starts_script(arg: Seq<char>) -> bool {
    lowered(arg) == "/c"@ || lowered(arg) == "/k"@
}

pub fn is_cmd_script_switch(arg: &str) -> (is: bool)
    ensures
        is == starts_script(arg@),
{
    let folded = lower_text(arg);
    same_text(folded.as_str(), "/c") || same_text(folded.as_str(), "/k")
}

/// Texts with one space between them.
pub open spec fn spaced(list: Seq<Seq<char>>) -> Seq<char>
    decreases list.len(),
{
    if list.len() == 0 {
        Seq::empty()
    } else if list.len() == 1 {
        list[0]
    } else {
        list[0] + seq![' '] + spaced(list.drop_first())
    }
}

/// The arguments of the command interpreter. What follows `/c` or `/k` is its
/// own language: it goes in one pair of quotes, untouched.
pub open spec fn written_cmd_args(args: Seq<Seq<char>>) -> Seq<char>
    decreases args.len(),
{
    if args.len() == 0 {
        Seq::empty()
    } else if starts_script(args[0]) {
        let script = spaced(args.drop_first());
        seq![' '] + args[0] + if script.len() > 0 {
            seq![' ', '"'] + script + seq!['"']
        } else {
            Seq::empty()
        }
    } else {
        seq![' '] + quoted(args[0]) + written_cmd_args(args.drop_first())
    }
}

/// A program and its arguments in one line.
pub open spec fn command_line_text(program: Seq<char>, args: Seq<Seq<char>>) -> Seq<char> {
    quoted(program) + if names_cmd(program) { written_cmd_args(args) } else { written_args(args) }
}

pub open spec fn arg_texts(args: Seq<String>) -> Seq<Seq<char>> {
    args.map_values(|arg: String| arg@)
}

fn join_from(args: &Vec<String>, from: usize) -> (text: String)
    requires
        from <= args@.len(),
    ensures
        text@ == spaced(arg_texts(args@).skip(from as int)),
{
    let ghost all = arg_texts(args@);
    let mut text = String::new();
    let mut at: usize = from;
    assert(text@ + spaced(all.skip(at as int)) =~= spaced(all.skip(at as int)));
    while at < args.len()
        invariant
            from <= at <= args@.len(),
            all == arg_texts(args@),
            spaced(all.skip(from as int)) == text@ + spaced(all.skip(at as int)),
        decreases args@.len() - at,
    {
        let ghost before = text@;
        let ghost left = all.skip(at as int);
        assert(left[0] == args@[at as int]@);
        assert(left.drop_first() =~= all.skip(at + 1));
        text.append(args[at].as_str());
        if at + 1 < args.len() {
            push_char(&mut text, ' ');
            assert(text@ =~= before + (left[0] + seq![' ']));
            assert(before + (left[0] + seq![' '] + spaced(all.skip(at + 1))) =~= text@ + spaced(
                all.skip(at + 1),
            ));
        } else {
            assert(left.len() == 1);
            assert(all.skip(at + 1).len() == 0);
            assert(text@ + spaced(all.skip(at + 1)) =~= text@);
        }
        at += 1;
    }
    assert(text@ + spaced(all.skip(at as int)) =~= text@);
    text
}

/// The line that starts a program, in UTF-16 and closed by a zero.
pub fn build_command_line(program: &str, args: &Vec<String>) -> (line: Vec<u16>)
    ensures
        line@ == utf16(command_line_text(program@, arg_texts(args@))).push(0),
{
    let text = compose_command_line(program, args);
    let mut line: Vec<u16> = Vec::new();
    encode_wide(text.as_str(), &mut line);
    line.push(0);
    assert(line@ =~= utf16(text@).push(0));
    line
}

/// The line that starts a program.
pub fn compose_command_line(program: &str, args: &Vec<String>) -> (line: String)
    ensures
        line@ == command_line_text(program@, arg_texts(args@)),
{
    let cmd = is_cmd_exe(program);
    let ghost all = arg_texts(args@);
    let mut line = quote(program);
    let mut at: usize = 0;
    assert(all.skip(0) =~= all);
    while at < args.len()
        invariant
            at <= args@.len(),
            cmd == names_cmd(program@),
            all == arg_texts(args@),
            cmd ==> command_line_text(program@, all) == line@ + written_cmd_args(
                all.skip(at as int),
            ),
            !cmd ==> command_line_text(program@, all) == line@ + written_args(all.skip(at as int)),
        decreases args@.len() - at,
    {
        let ghost before = line@;
        let ghost left = all.skip(at as int);
        assert(left[0] == args@[at as int]@);
        assert(left.drop_first() =~= all.skip(at + 1));
        push_char(&mut line, ' ');
        if cmd && is_cmd_script_switch(args[at].as_str()) {
            line.append(args[at].as_str());
            let script = join_from(args, at + 1);
            if script.as_str().unicode_len() > 0 {
                push_char(&mut line, ' ');
                push_char(&mut line, '"');
                line.append(script.as_str());
                push_char(&mut line, '"');
                assert(line@ =~= before + (seq![' '] + left[0] + (seq![' ', '"'] + script@ + seq![
                    '"',
                ])));
            } else {
                assert(line@ =~= before + (seq![' '] + left[0] + Seq::<char>::empty()));
            }
            return line;
        }
        let word = quote(args[at].as_str());
        line.append(word.as_str());
        proof {
            assert(line@ =~= before + (seq![' '] + quoted(left[0])));
            assert(before + (seq![' '] + quoted(left[0]) + written_args(all.skip(at + 1)))
                =~= line@ + written_args(all.skip(at + 1)));
            assert(before + (seq![' '] + quoted(left[0]) + written_cmd_args(all.skip(at + 1)))
                =~= line@ + written_cmd_args(all.skip(at + 1)));
        }
        at += 1;
    }
    proof {
        assert(line@ + written_args(all.skip(at as int)) =~= line@);
        assert(line@ + written_cmd_args(all.skip(at as int)) =~= line@);
    }
    line
}

/// An argument that holds nothing to be quoted stands as it is, and any other stands between
/// quotation marks.
pub proof fn only_arguments_that_need_it_are_quoted(arg: Seq<char>)
    ensures
        arg.len() > 0 && !arg.contains(' ') && !arg.contains('\t') && !arg.contains('\n')
            && !arg.contains('\x0b') && !arg.contains('"') ==> quoted(arg) == arg,
        arg.len() == 0 || arg.contains(' ') || arg.contains('\t') || arg.contains('\n')
            || arg.contains('\x0b') || arg.contains('"') ==> {
            &&& quoted(arg).len() >= arg.len() + 2
            &&& quoted(arg)[0] == '"'
            &&& quoted(arg).last() == '"'
        },
{
    lemma_escaped_is_no_shorter(arg);
    if arg.len() > 0 && !arg.contains(' ') && !arg.contains('\t') && !arg.contains('\n')
        && !arg.contains('\x0b') && !arg.contains('"') {
        assert forall|i: int| 0 <= i < arg.len() implies !needs_quotes(#[trigger] arg[i]) by {
            assert(arg.contains(arg[i]));
        }
    } else if arg.len() > 0 {
        let c = if arg.contains(' ') {
            ' '
        } else if arg.contains('\t') {
            '\t'
        } else if arg.contains('\n') {
            '\n'
        } else if arg.contains('\x0b') {
            '\x0b'
        } else {
            '"'
        };
        let i = choose|i: int| 0 <= i < arg.len() && arg[i] == c;
        assert(needs_quotes(arg[i]));
    }
}

proof fn lemma_escaped_is_no_shorter(text: Seq<char>)
    ensures
        escaped(text).len() >= text.len(),
    decreases text.len(),
{
    let run = backslashes(text);
    if run < text.len() {
        lemma_escaped_is_no_shorter(text.skip((run + 1) as int));
    }
}

/// To the command interpreter, what follows `/c` or `/k` goes as one script, as it is and
/// between quotation marks; what comes before goes as to any program.
pub proof fn scripts_are_passed_as_they_are(
    options: Seq<Seq<char>>,
    flag: Seq<char>,
    script: Seq<Seq<char>>,
)
    requires
        forall|i: int| 0 <= i < options.len() ==> !starts_script(#[trigger] options[i]),
        starts_script(flag),
    ensures
        written_cmd_args(options) == written_args(options),
        written_cmd_args(options + seq![flag] + script) == written_args(options) + seq![' '] + flag
            + if spaced(script).len() > 0 {
            seq![' ', '"'] + spaced(script) + seq!['"']
        } else {
            Seq::empty()
        },
    decreases options.len(),
{
    let all = options + seq![flag] + script;
    if options.len() == 0 {
        assert(all[0] == flag);
        assert(all.drop_first() =~= script);
        assert(written_cmd_args(all) =~= written_args(options) + seq![' '] + flag
            + if spaced(script).len() > 0 {
            seq![' ', '"'] + spaced(script) + seq!['"']
        } else {
            Seq::empty()
        });
    } else {
        let rest = options.drop_first();
        assert forall|i: int| 0 <= i < rest.len() implies !starts_script(#[trigger] rest[i]) by {
            assert(rest[i] == options[i + 1]);
        }
        scripts_are_passed_as_they_are(rest, flag, script);
        assert(all[0] == options[0]);
        assert(!starts_script(options[0]));
        assert(all.drop_first() =~= rest + seq![flag] + script);
        assert(written_cmd_args(all) =~= written_args(options) + seq![' '] + flag
            + if spaced(script).len() > 0 {
            seq![' ', '"'] + spaced(script) + seq!['"']
        } else {
            Seq::empty()
        });
    }
}

/// A script starts at `/c` or `/k`, in either case, and at nothing else.
pub proof fn scripts_start_at_two_flags(arg: Seq<char>)
    ensures
        starts_script(arg) <==> arg == seq!['/', 'c'] || arg == seq!['/', 'C'] || arg == seq!['/', 'k']
            || arg == seq!['/', 'K'],
{
    reveal_strlit("/c");
    reveal_strlit("/k");
    assert("/c"@ =~= seq!['/', 'c']);
    assert("/k"@ =~= seq!['/', 'k']);
    only_capital_letters_are_lowered(arg);
    if starts_script(arg) {
        assert(arg.len() == 2);
        let first = lowered(arg)[0];
        let second = lowered(arg)[1];
        assert(first == lower(arg[0]) && second == lower(arg[1]));
        lemma_lower_is(arg[0]);
        lemma_lower_is(arg[1]);
        assert(arg =~= seq![arg[0], arg[1]]);
    } else {
        if arg == seq!['/', 'c'] || arg == seq!['/', 'C'] {
            assert(lowered(arg) =~= seq!['/', 'c']);
        }
        if arg == seq!['/', 'k'] || arg == seq!['/', 'K'] {
            assert(lowered(arg) =~= seq!['/', 'k']);
        }
    }
}

proof fn lemma_lower_is(c: char)
    ensures
        lower(c) == '/' ==> c == '/',
        lower(c) == 'c' ==> c == 'c' || c == 'C',
        lower(c) == 'k' ==> c == 'k' || c == 'K',
{
}

/// The arguments of a script stand with one space between two of them.
pub proof fn script_words_stand_apart(first: Seq<Seq<char>>, second: Seq<Seq<char>>)
    ensures
        first.len() > 0 && second.len() > 0 ==> spaced(first + second) == spaced(first) + seq![' ']
            + spaced(second),
    decreases first.len(),
{
    if first.len() > 0 && second.len() > 0 {
        let both = first + second;
        assert(both[0] == first[0]);
        if first.len() == 1 {
            assert(both.drop_first() =~= second);
        } else {
            script_words_stand_apart(first.drop_first(), second);
            assert(both.drop_first() =~= first.drop_first() + second);
            assert(spaced(both) =~= spaced(first) + seq![' '] + spaced(second));
        }
    }
}

/// A line starts with the program, quoted as any argument is.
pub proof fn lines_start_with_the_program(program: Seq<char>, args: Seq<Seq<char>>)
    ensures
        command_line_text(program, args).len() >= quoted(program).len(),
        command_line_text(program, args).take(quoted(program).len() as int) == quoted(program),
        args.len() == 0 ==> command_line_text(program, args) == quoted(program),
        args.len() > 0 ==> command_line_text(program, args).len() > quoted(program).len()
            && command_line_text(program, args)[quoted(program).len() as int] == ' ',
{
    assert(command_line_text(program, args).take(quoted(program).len() as int) =~= quoted(
        program,
    ));
    if args.len() == 0 {
        assert(command_line_text(program, args) =~= quoted(program));
    }
}

/// The command interpreter is known by its name, in any case, with its extension or without, and
/// wherever on a drive it lies.
pub proof fn the_interpreter_is_known_by_its_name(
    directory: Seq<char>,
    separator: char,
    name: Seq<char>,
)
    requires
        is_drive_directory(directory),
        is_plain_file_name(name),
        separator == '\\' || separator == '/',
    ensures
        names_cmd(directory + seq![separator] + name) <==> lowered(name) == "cmd"@ || lowered(name)
            == "cmd.exe"@,
{
    let low = lowered(directory);
    let short = lowered(name);
    assert(lowered(directory + seq![separator] + name) =~= low + seq![separator] + short);
    only_capital_letters_are_lowered(directory);
    only_capital_letters_are_lowered(name);
    assert(low[0] == lower(directory[0]) && low[1] == lower(directory[1]) && low[2] == lower(
        directory[2],
    ));
    assert(low.last() == lower(directory.last()));
    lemma_lower_keeps(directory[0]);
    lemma_lower_keeps(directory.last());
    assert(is_drive_directory(low));
    assert forall|c: char| c == '\\' || c == '/' implies !#[trigger] short.contains(c) by {
        if short.contains(c) {
            let i = choose|i: int| 0 <= i < short.len() && short[i] == c;
            lemma_lower_keeps(name[i]);
            assert(short[i] == lower(name[i]));
            assert(name[i] == c);
        }
    }
    assert(short != seq!['.'] && short != seq!['.', '.']) by {
        lemma_lower_keeps(name[0]);
        assert(short[0] == lower(name[0]));
        if short == seq!['.'] {
            assert(name =~= seq!['.']);
        }
        if short == seq!['.', '.'] {
            lemma_lower_keeps(name[1]);
            assert(short[1] == lower(name[1]));
            assert(name =~= seq!['.', '.']);
        }
    }
    a_name_on_a_drive_is_the_last_one(low, separator, short);
}

proof fn lemma_lower_keeps(c: char)
    ensures
        lower(c) == '\\' <==> c == '\\',
        lower(c) == '/' <==> c == '/',
        lower(c) == '.' <==> c == '.',
        'a' <= c <= 'z' || 'A' <= c <= 'Z' ==> 'a' <= lower(c) <= 'z',
{
}

} // verus!
