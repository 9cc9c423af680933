//! Tokenizing a line typed at the interactive prompt into command arguments.
use vstd::prelude::*;
use crate::text::{
    char_vec_views, chars_eq, chars_eq_str, chars_of, is_whitespace, is_ws, slice_chars, string_views,
    strings_from,
};

verus! {

/// Why a prompt line yields no command.
#[derive(Debug, Clone, Copy, PartialEq, Eq, Structural)]
pub enum ShellError {
    /// A `'` or `"` was opened and never closed.
    UnclosedQuote,
    /// Nothing is left once the launcher name and global flags are removed.
    EmptyCommand,
}

impl ShellError {
    /// The text that the command line shows for this error.
    pub open spec fn spec_message(self) -> Seq<char> {
        match self {
            ShellError::UnclosedQuote => "unclosed quote in command"@,
            ShellError::EmptyCommand => "enter a command after the prompt; use /help for examples"@,
        }
    }

    /// The text that the command line shows for this error.
    pub fn message(&self) -> (s: String)
        ensures
            s@ == self.spec_message(),
    {
        match self {
            ShellError::UnclosedQuote => String::from_str("unclosed quote in command"),
            ShellError::EmptyCommand => String::from_str(
                "enter a command after the prompt; use /help for examples",
            ),
        }
    }
}

/// The tokenizer's state after a prefix of the line.
pub struct ShellScan {
    pub args: Seq<Seq<char>>,
    pub current: Seq<char>,
    pub quote: Option<char>,
    pub escaped: bool,
}

pub open spec fn shell_scan_start() -> ShellScan {
    ShellScan { args: Seq::empty(), current: Seq::empty(), quote: None, escaped: false }
}

pub open spec fn is_quote(c: char) -> bool {
    c == '\'' || c == '"'
}

/// One character of input: a backslash escapes the next character, quotes group
/// text (a quote closes only the kind that opened it), and unquoted whitespace
/// ends the current argument.
pub open spec fn shell_step(st: ShellScan, c: char) -> ShellScan {
    if st.escaped {
        ShellScan { current: st.current.push(c), escaped: false, ..st }
    } else if c == '\\' {
        ShellScan { escaped: true, ..st }
    } else if is_quote(c) && st.quote == Some(c) {
        ShellScan { quote: None, ..st }
    } else if is_quote(c) && st.quote is None {
        ShellScan { quote: Some(c), ..st }
    } else if is_ws(c) && st.quote is None {
        if st.current.len() > 0 {
            ShellScan { args: st.args.push(st.current), current: Seq::empty(), ..st }
        } else {
            st
        }
    } else {
        ShellScan { current: st.current.push(c), ..st }
    }
}

/// The state after reading all of `cs` from `st`.
pub open spec fn shell_scan_from(st: ShellScan, cs: Seq<char>) -> ShellScan
    decreases cs.len(),
{
    if cs.len() == 0 {
        st
    } else {
        shell_step(shell_scan_from(st, cs.drop_last()), cs.last())
    }
}

/// A leading `/` (the slash-command form) removed.
pub open spec fn strip_slash(s: Seq<char>) -> Seq<char> {
    if s.len() > 0 && s[0] == '/' {
        s.drop_first()
    } else {
        s
    }
}

/// The raw arguments of a line, before the launcher name and flags are dropped.
pub open spec fn raw_tokens(input: Seq<char>) -> Result<Seq<Seq<char>>, ShellError> {
    let st = shell_scan_from(shell_scan_start(), strip_slash(input));
    let current = if st.escaped {
        st.current.push('\\')
    } else {
        st.current
    };
    if st.quote is Some {
        Err(ShellError::UnclosedQuote)
    } else if current.len() > 0 {
        Ok(st.args.push(current))
    } else {
        Ok(st.args)
    }
}

/// The global flag that the prompt ignores.
pub open spec fn is_animation_flag(t: Seq<char>) -> bool {
    t == "--no-animation"@
}

/// Every argument but the global `--no-animation` flag, in order.
pub open spec fn without_flag(ts: Seq<Seq<char>>) -> Seq<Seq<char>>
    decreases ts.len(),
{
    if ts.len() == 0 {
        ts
    } else if is_animation_flag(ts.last()) {
        without_flag(ts.drop_last())
    } else {
        without_flag(ts.drop_last()).push(ts.last())
    }
}

pub open spec fn ends_with(s: Seq<char>, p: Seq<char>) -> bool {
    p.len() <= s.len() && s.skip(s.len() - p.len()) == p
}

/// The program's own name, bare or as a path.
pub open spec fn is_launcher(t: Seq<char>) -> bool {
    t == "crypton-sweep"@ || ends_with(t, "/crypton-sweep"@)
}

/// The arguments that a prompt line stands for: the tokens of the line (after an
/// optional leading `/`), without `--no-animation`, and without a leading launcher
/// name; at least one must remain.
pub open spec fn shell_args(input: Seq<char>) -> Result<Seq<Seq<char>>, ShellError> {
    match raw_tokens(input) {
        Err(e) => Err(e),
        Ok(ts) => {
            let kept = without_flag(ts);
            let cmd = if kept.len() > 0 && is_launcher(kept[0]) {
                kept.drop_first()
            } else {
                kept
            };
            if cmd.len() == 0 {
                Err(ShellError::EmptyCommand)
            } else {
                Ok(cmd)
            }
        },
    }
}

/// Whether `s` ends with the string slice `p` (executable).
pub fn ends_with_str(s: &[char], p: &str) -> (b: bool)
    ensures
        b == ends_with(s@, p@),
{
    let pc = chars_of(p);
    if pc.len() > s.len() {
        return false;
    }
    let tail = slice_chars(s, s.len() - pc.len(), s.len());
    chars_eq(&tail, &pc)
}

/// Splits a prompt line into command arguments, shell-style.
pub fn shell_command_args(input: &str) -> (r: Result<Vec<String>, ShellError>)
    ensures
        match r {
            Ok(v) => shell_args(input@) == Ok::<Seq<Seq<char>>, ShellError>(string_views(v@)),
            Err(e) => shell_args(input@) == Err::<Seq<Seq<char>>, ShellError>(e),
        },
{
    let all = chars_of(input);
    let start: usize = if all.len() > 0 && all[0] == '/' {
        1
    } else {
        0
    };
    let cmd = slice_chars(&all, start, all.len());
    assert(cmd@ == strip_slash(input@));

    let mut args: Vec<Vec<char>> = Vec::new();
    let mut current: Vec<char> = Vec::new();
    let mut quote: Option<char> = None;
    let mut escaped = false;
    let mut i: usize = 0;
    while i < cmd.len()
        invariant
            i <= cmd.len(),
            ({
                let st = shell_scan_from(shell_scan_start(), cmd@.take(i as int));
                &&& char_vec_views(args@) == st.args
                &&& current@ == st.current
                &&& quote == st.quote
                &&& escaped == st.escaped
            }),
        decreases cmd.len() - i,
    {
        let c = cmd[i];
        proof {
            assert(cmd@.take(i + 1).drop_last() == cmd@.take(i as int));
        }
        let ghost old_args = char_vec_views(args@);
        if escaped {
            current.push(c);
            escaped = false;
        } else if c == '\\' {
            escaped = true;
        } else if (c == '\'' || c == '"') && quote == Some(c) {
            quote = None;
        } else if (c == '\'' || c == '"') && quote.is_none() {
            quote = Some(c);
        } else if is_whitespace(c) && quote.is_none() {
            if current.len() > 0 {
                let done = current;
                args.push(done);
                current = Vec::new();
                assert(char_vec_views(args@) == old_args.push(done@));
            }
        } else {
            current.push(c);
        }
        i = i + 1;
    }
    assert(cmd@.take(i as int) == cmd@);
    if escaped {
        current.push('\\');
    }
    if quote.is_some() {
        return Err(ShellError::UnclosedQuote);
    }
    if current.len() > 0 {
        let ghost before = char_vec_views(args@);
        let done = current;
        args.push(done);
        assert(char_vec_views(args@) == before.push(done@));
    }
    // `args` now holds the raw tokens.
    let ghost raw = char_vec_views(args@);
    assert(raw_tokens(input@) == Ok::<Seq<Seq<char>>, ShellError>(raw));

    let mut kept: Vec<Vec<char>> = Vec::new();
    let mut j: usize = 0;
    while j < args.len()
        invariant
            j <= args.len(),
            raw == char_vec_views(args@),
            char_vec_views(kept@) == without_flag(raw.take(j as int)),
        decreases args.len() - j,
    {
        proof {
            assert(raw.take(j + 1).drop_last() == raw.take(j as int));
            assert(raw.take(j + 1).last() == args@[j as int]@);
        }
        if !chars_eq_str(args[j].as_slice(), "--no-animation") {
            let ghost before = char_vec_views(kept@);
            kept.push(args[j].clone());
            assert(char_vec_views(kept@) == before.push(args@[j as int]@));
        }
        j = j + 1;
    }
    assert(raw.take(j as int) == raw);
    let ghost kept_v = char_vec_views(kept@);
    if kept.len() > 0 && (chars_eq_str(kept[0].as_slice(), "crypton-sweep") || ends_with_str(
        kept[0].as_slice(),
        "/crypton-sweep",
    )) {
        kept.remove(0);
        assert(char_vec_views(kept@) == kept_v.drop_first());
    }
    if kept.len() == 0 {
        return Err(ShellError::EmptyCommand);
    }
    let out = strings_from(&kept);
    Ok(out)
}

/// The slash form and the direct form of a command are the same command: a line
/// typed with a leading `/` gives the arguments of the line without it.
pub proof fn lemma_slash_form(line: Seq<char>)
    requires
        !(line.len() > 0 && line[0] == '/'),
    ensures
        shell_args(seq!['/'] + line) == shell_args(line),
{
    assert((seq!['/'] + line).drop_first() =~= line);
}

proof fn lemma_scan_concat(st: ShellScan, a: Seq<char>, b: Seq<char>)
    ensures
        shell_scan_from(st, a + b) == shell_scan_from(shell_scan_from(st, a), b),
    decreases b.len(),
{
    if b.len() == 0 {
        assert(a + b =~= a);
    } else {
        lemma_scan_concat(st, a, b.drop_last());
        assert((a + b).drop_last() =~= a + b.drop_last());
        assert((a + b).last() == b.last());
    }
}

/// Arguments already collected before a stretch of input stay in front of it.
proof fn lemma_scan_keeps_args(st: ShellScan, front: Seq<Seq<char>>, cs: Seq<char>)
    ensures
        ({
            let r = shell_scan_from(st, cs);
            shell_scan_from(ShellScan { args: front + st.args, ..st }, cs) == ShellScan {
                args: front + r.args,
                ..r
            }
        }),
    decreases cs.len(),
{
    if cs.len() > 0 {
        lemma_scan_keeps_args(st, front, cs.drop_last());
        let r = shell_scan_from(st, cs.drop_last());
        assert((front + r.args).push(r.current) =~= front + r.args.push(r.current));
    }
}

proof fn lemma_without_flag_concat(a: Seq<Seq<char>>, b: Seq<Seq<char>>)
    ensures
        without_flag(a + b) == without_flag(a) + without_flag(b),
    decreases b.len(),
{
    if b.len() == 0 {
        assert(a + b =~= a);
        assert(without_flag(a) + without_flag(b) =~= without_flag(a));
    } else {
        lemma_without_flag_concat(a, b.drop_last());
        assert((a + b).drop_last() =~= a + b.drop_last());
        assert((a + b).last() == b.last());
        assert((without_flag(a) + without_flag(b.drop_last())).push(b.last()) =~= without_flag(a)
            + without_flag(b.drop_last()).push(b.last()));
    }
}

/// A character that the tokenizer copies as it is.
pub open spec fn is_plain(c: char) -> bool {
    !is_ws(c) && !is_quote(c) && c != '\\'
}

/// A word of plain characters is read into the current argument unchanged.
proof fn lemma_scan_plain_word(w: Seq<char>)
    requires
        forall|i: int| 0 <= i < w.len() ==> is_plain(#[trigger] w[i]),
    ensures
        shell_scan_from(shell_scan_start(), w) == (ShellScan {
            args: Seq::<Seq<char>>::empty(),
            current: w,
            quote: None,
            escaped: false,
        }),
    decreases w.len(),
{
    if w.len() == 0 {
        assert(w =~= Seq::<char>::empty());
    } else {
        lemma_scan_plain_word(w.drop_last());
        assert(w.drop_last().push(w.last()) =~= w);
    }
}

/// The arguments of a line once the global flag is dropped.
pub open spec fn kept_tokens(line: Seq<char>) -> Result<Seq<Seq<char>>, ShellError> {
    match raw_tokens(line) {
        Err(e) => Err(e),
        Ok(ts) => Ok(without_flag(ts)),
    }
}

/// A line typed with the program's name in front (`crypton-sweep discover ...`)
/// gives the same arguments as the line without it, when the rest does not start
/// with `/` and its own first argument is not the program's name.
pub proof fn lemma_full_form(line: Seq<char>)
    requires
        !(line.len() > 0 && line[0] == '/'),
        kept_tokens(line) matches Ok(ts) ==> (ts.len() > 0 ==> !is_launcher(ts[0])),
    ensures
        shell_args("crypton-sweep "@ + line) == shell_args(line),
{
    reveal_strlit("crypton-sweep ");
    reveal_strlit("crypton-sweep");
    reveal_strlit("--no-animation");
    let head = "crypton-sweep "@;
    let name = "crypton-sweep"@;
    let input = head + line;
    assert(input[0] == 'c');
    assert(strip_slash(input) == input);
    lemma_scan_concat(shell_scan_start(), head, line);
    assert(head.drop_last() =~= name);
    lemma_scan_plain_word(name);
    assert(head.last() == ' ');
    assert(shell_scan_from(shell_scan_start(), head) == ShellScan {
        args: seq![name],
        current: Seq::<char>::empty(),
        quote: None,
        escaped: false,
    });
    lemma_scan_keeps_args(shell_scan_start(), seq![name], line);
    assert(seq![name] + shell_scan_start().args =~= seq![name]);
    let r = shell_scan_from(shell_scan_start(), line);
    assert(seq![name] + r.args.push(r.current.push('\\')) =~= (seq![name] + r.args).push(r.current.push('\\')));
    assert(seq![name] + r.args.push(r.current) =~= (seq![name] + r.args).push(r.current));
    if let Ok(ts) = raw_tokens(line) {
        assert(raw_tokens(input) == Ok::<Seq<Seq<char>>, ShellError>(seq![name] + ts));
        lemma_without_flag_concat(seq![name], ts);
        let none = Seq::<Seq<char>>::empty();
        assert(seq![name].drop_last() =~= none);
        assert(seq![name].last() == name);
        assert(name != "--no-animation"@);
        assert(without_flag(none) == none);
        assert(without_flag(seq![name]) == without_flag(none).push(name));
        assert(without_flag(seq![name]) =~= seq![name]);
        assert((seq![name] + without_flag(ts)).drop_first() =~= without_flag(ts));
    }
}

} // verus!
