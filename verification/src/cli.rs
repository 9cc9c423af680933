//! Decisions of the command line: how the program was launched, and what a line
//! typed at the interactive prompt asks for.
use vstd::prelude::*;
use crate::shell::{shell_args, shell_command_args, ShellError};
use crate::text::{chars_eq_str, chars_of, string_from_chars, string_views, trim, trim_chars};

verus! {

/// What a prompt line asks for.
#[derive(Debug)]
pub enum ShellAction {
    /// A blank line: prompt again.
    Skip,
    /// `/exit`, `/quit`, `exit` or `quit`.
    Exit,
    /// `/clear`: redraw the workspace.
    Clear,
    /// `/help` or `help`.
    Help,
    /// Run the command with these arguments.
    Run(Vec<String>),
    /// The line cannot be split into arguments; the prompt ends with this error.
    Abort(ShellError),
}

pub open spec fn is_exit_word(s: Seq<char>) -> bool {
    s == "/exit"@ || s == "/quit"@ || s == "exit"@ || s == "quit"@
}

/// The action for a prompt line, decided on its trimmed text.
pub fn shell_action(line: &str) -> (a: ShellAction)
    ensures
        ({
            let input = trim(line@);
            if input.len() == 0 {
                a is Skip
            } else if is_exit_word(input) {
                a is Exit
            } else if input == "/clear"@ {
                a is Clear
            } else if input == "/help"@ || input == "help"@ {
                a is Help
            } else {
                match a {
                    ShellAction::Run(args) => shell_args(input) == Ok::<Seq<Seq<char>>, ShellError>(
                        string_views(args@),
                    ),
                    ShellAction::Abort(e) => shell_args(input) == Err::<Seq<Seq<char>>, ShellError>(e),
                    _ => false,
                }
            }
        }),
{
    let cs = chars_of(line);
    let input = trim_chars(&cs);
    if input.len() == 0 {
        return ShellAction::Skip;
    }
    if chars_eq_str(&input, "/exit") || chars_eq_str(&input, "/quit") || chars_eq_str(&input, "exit")
        || chars_eq_str(&input, "quit") {
        return ShellAction::Exit;
    }
    if chars_eq_str(&input, "/clear") {
        return ShellAction::Clear;
    }
    if chars_eq_str(&input, "/help") || chars_eq_str(&input, "help") {
        return ShellAction::Help;
    }
    let text = string_from_chars(&input);
    match shell_command_args(text.as_str()) {
        Ok(args) => ShellAction::Run(args),
        Err(e) => ShellAction::Abort(e),
    }
}

/// How the program was launched.
#[derive(Debug)]
pub struct LaunchPlan {
    /// `--no-animation` was given.
    pub no_animation: bool,
    /// No command was given (only the program name and global flags).
    pub commandless: bool,
    /// The arguments for the command parser, without `--no-animation`.
    pub command_args: Vec<String>,
}

/// Every argument but `--no-animation`, in order.
pub open spec fn without_animation_flag(args: Seq<Seq<char>>) -> Seq<Seq<char>>
    decreases args.len(),
{
    if args.len() == 0 {
        args
    } else if args.last() == "--no-animation"@ {
        without_animation_flag(args.drop_last())
    } else {
        without_animation_flag(args.drop_last()).push(args.last())
    }
}

/// Reads the raw process arguments (program name first).
pub fn launch_plan(args: &[String]) -> (p: LaunchPlan)
    ensures
        p.no_animation == exists|i: int| 1 <= i < args@.len() && (#[trigger] args@[i])@ == "--no-animation"@,
        p.commandless == (args@.len() == 1 || forall|i: int|
            1 <= i < args@.len() ==> (#[trigger] args@[i])@ == "--no-animation"@),
        string_views(p.command_args@) == without_animation_flag(string_views(args@)),
{
    let ghost views = string_views(args@);
    let mut flag = false;
    let mut only_flags = true;
    let mut kept: Vec<String> = Vec::new();
    let mut i: usize = 0;
    while i < args.len()
        invariant
            i <= args.len(),
            views == string_views(args@),
            flag == exists|j: int| 1 <= j < i && (#[trigger] args@[j])@ == "--no-animation"@,
            only_flags == forall|j: int| 1 <= j < i ==> (#[trigger] args@[j])@ == "--no-animation"@,
            string_views(kept@) == without_animation_flag(views.take(i as int)),
        decreases args.len() - i,
    {
        proof {
            assert(views.take(i + 1).drop_last() == views.take(i as int));
            assert(views.take(i + 1).last() == args@[i as int]@);
        }
        let a = chars_of(args[i].as_str());
        let is_flag = chars_eq_str(&a, "--no-animation");
        if i >= 1 {
            if is_flag {
                flag = true;
            } else {
                only_flags = false;
            }
        }
        if !is_flag {
            let ghost before = string_views(kept@);
            kept.push(args[i].clone());
            assert(string_views(kept@) == before.push(args@[i as int]@));
        }
        i = i + 1;
    }
    assert(views.take(i as int) == views);
    LaunchPlan { no_animation: flag, commandless: args.len() == 1 || only_flags, command_args: kept }
}

} // verus!
