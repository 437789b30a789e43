use vstd::prelude::*;

use crate::error::MonochangeError;
use crate::text::{push_str, views};

verus! {

broadcast use vstd::string::group_string_axioms;

/// The words `shlex::split` reads from a command line, or `None` when it
/// rejects the line (an unclosed quote, a trailing backslash).
pub uninterp spec fn shlex_words(command: Seq<char>) -> Option<Seq<Seq<char>>>;

/// `shlex::split`: the words of a command line under POSIX shell quoting.
/// The result depends on the line alone and is given the name `shlex_words`;
/// the quoting rules are not restated here.
#[verifier::external_body]
fn shlex_split(command: &str) -> (r: Option<Vec<String>>)
    ensures
        match r {
            Some(words) => shlex_words(command@) == Some(views(words@)),
            None => shlex_words(command@) is None,
        },
{
    shlex::split(command)
}

/// The message when a snapshot command cannot be split into words.
pub open spec fn unparsable_command_text(command: Seq<char>) -> Seq<char> {
    "failed to parse cli snapshot command `"@ + command + "`"@
}

/// The message when a package's snapshot command has no words.
pub open spec fn empty_command_text(package_id: Seq<char>) -> Seq<char> {
    "cli snapshot command for package `"@ + package_id + "` must not be empty"@
}

/// The program and arguments of a package's CLI snapshot command, when it
/// runs without a shell: the first word of the command line and the rest.
/// A line that cannot be split, or that has no words, is a configuration error.
pub fn cli_snapshot_argv(package_id: &str, command: &str) -> (r: Result<(String, Vec<String>), MonochangeError>)
    ensures
        match shlex_words(command@) {
            None => r matches Err(MonochangeError::Config(m)) && m@ == unparsable_command_text(command@),
            Some(words) => if words.len() == 0 {
                r matches Err(MonochangeError::Config(m)) && m@ == empty_command_text(package_id@)
            } else {
                r matches Ok((program, args)) && program@ == words[0] && views(args@) == words.drop_first()
            },
        },
{
    match shlex_split(command) {
        None => {
            let mut m = String::new();
            push_str(&mut m, "failed to parse cli snapshot command `");
            push_str(&mut m, command);
            push_str(&mut m, "`");
            proof {
                reveal_strlit("failed to parse cli snapshot command `");
                reveal_strlit("`");
            }
            assert(m@ =~= unparsable_command_text(command@));
            Err(MonochangeError::Config(m))
        },
        Some(words) => {
            if words.len() == 0 {
                let mut m = String::new();
                push_str(&mut m, "cli snapshot command for package `");
                push_str(&mut m, package_id);
                push_str(&mut m, "` must not be empty");
                proof {
                    reveal_strlit("cli snapshot command for package `");
                    reveal_strlit("` must not be empty");
                }
                assert(m@ =~= empty_command_text(package_id@));
                Err(MonochangeError::Config(m))
            } else {
                let program = words[0].clone();
                let mut args: Vec<String> = Vec::new();
                let mut i: usize = 1;
                while i < words.len()
                    invariant
                        1 <= i <= words@.len(),
                        views(args@) == views(words@).subrange(1, i as int),
                    decreases words@.len() - i,
                {
                    let ghost before = args@;
                    let w = words[i].clone();
                    assert(w@ == views(words@)[i as int]);
                    args.push(w);
                    assert(views(args@) =~= views(before).push(w@));
                    i = i + 1;
                    assert(views(args@) =~= views(words@).subrange(1, i as int));
                }
                assert(views(words@).drop_first() =~= views(words@).subrange(1, words@.len() as int));
                Ok((program, args))
            }
        },
    }
}

} // verus!
