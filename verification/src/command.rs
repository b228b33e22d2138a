//! Commands of custom renderers and preprocessors.

use vstd::prelude::*;
use crate::ids::string_views;
use crate::paths::{join, join_path};
use crate::text::{chars_eq, chars_of, split_chars, split_on, starts_with, views};

verus! {

/// The words a command line splits into with the `shlex` crate's `Shlex`
/// iterator (POSIX shell rules; the words up to the first error).
pub uninterp spec fn shell_words(cmd: Seq<char>) -> Seq<Seq<char>>;

/// Splits a command line into words with `shlex::Shlex`; the result is
/// named `shell_words`.
#[verifier::external_body]
fn split_command(cmd: &str) -> (r: Vec<String>)
    ensures
        string_views(r@) == shell_words(cmd@),
{
    shlex::Shlex::new(cmd).collect()
}

/// The number of components of a path, as `Path::components` counts them
/// on Unix: a root, a leading `.`, and every other non-empty part except
/// `.`.
pub open spec fn component_count(p: Seq<char>) -> nat {
    let root: nat = if starts_with(p, seq!['/']) { 1 } else { 0 };
    let parts = split_on(p, '/');
    let cur: nat = if root == 0 && parts[0] == seq!['.'] { 1 } else { 0 };
    root + cur + parts.filter(|c: Seq<char>| c.len() > 0 && c != seq!['.']).len()
}

/// Counts the components of a path.
fn count_components(p: &str) -> (r: usize)
    ensures
        r == component_count(p@),
{
    let v = chars_of(p);
    let comps = split_chars(&v, '/');
    let root: usize = if v.len() > 0 && v[0] == '/' { 1 } else { 0 };
    let dot: [char; 1] = ['.'];
    let slash: [char; 1] = ['/'];
    assert(dot@ == seq!['.'] && slash@ == seq!['/']);
    proof {
        assert(root == 1 <==> starts_with(v@, seq!['/'])) by {
            if v@.len() > 0 {
                assert(v@.subrange(0, 1) =~= seq![v@[0]]);
            }
        }
        crate::text::lemma_first_index_of(v@, '/');
        assert(views(comps@).len() >= 1);
        if root == 1 {
            assert(crate::text::first_index_of(v@, '/') == 0);
            assert(split_on(v@, '/')[0] =~= v@.take(0));
        }
    }
    let cur: usize = if root == 0 && chars_eq(&comps[0], &dot) { 1 } else { 0 };
    let mut n: usize = 0;
    let mut i: usize = 0;
    while i < comps.len()
        invariant
            i <= comps@.len(),
            dot@ == seq!['.'],
            n == views(comps@).take(i as int).filter(|c: Seq<char>| c.len() > 0 && c != seq!['.']).len(),
            n <= i,
            root <= 1 && cur <= 1 && root + cur <= 1,
            (root == 1 ==> views(comps@)[0].len() == 0),
            (cur == 1 ==> views(comps@)[0] == seq!['.']),
            i >= 1 && root + cur == 1 ==> n + 1 <= i,
        decreases comps@.len() - i,
    {
        proof {
            let t = views(comps@).take(i + 1);
            assert(t.drop_last() =~= views(comps@).take(i as int));
            reveal_with_fuel(Seq::filter, 1);
        }
        if comps[i].len() > 0 && !chars_eq(&comps[i], &dot) {
            n = n + 1;
        }
        i = i + 1;
    }
    assert(views(comps@).take(comps@.len() as int) =~= views(comps@));
    assert(root + cur + n <= comps@.len());
    root + cur + n
}

/// A command to run: the program and its arguments.
#[derive(Debug, Clone, PartialEq)]
pub struct CommandParts {
    /// The program: a bare name to look up in `PATH`, or a path.
    pub program: String,
    /// The arguments.
    pub args: Vec<String>,
}

/// The error of an empty command string.
#[derive(Debug, Clone, Copy, PartialEq, Eq, Structural)]
pub enum ComposeError {
    /// The command string held no words.
    EmptyCommand,
}

/// The program and arguments for a command line: the first word is the
/// program, kept as it is when it is a single path component and otherwise
/// taken relative to the book root; the other words are the arguments.
pub open spec fn composed(cmd: Seq<char>, root: Seq<char>) -> Option<(Seq<char>, Seq<Seq<char>>)> {
    let w = shell_words(cmd);
    if w.len() == 0 {
        None
    } else {
        let exe = w[0];
        let program = if component_count(exe) == 1 {
            exe
        } else {
            join_path(root, exe)
        };
        Some((program, w.drop_first()))
    }
}

/// Splits a command line of a renderer or preprocessor into the program and
/// its arguments.
pub fn compose_command(cmd: &str, root: &str) -> (r: Result<CommandParts, ComposeError>)
    ensures
        r matches Ok(parts) ==> composed(cmd@, root@) == Some(
            (parts.program@, string_views(parts.args@)),
        ),
        r is Err ==> composed(cmd@, root@) is None,
{
    let mut words = split_command(cmd);
    if words.len() == 0 {
        return Err(ComposeError::EmptyCommand);
    }
    let ghost all = string_views(words@);
    let exe = words.remove(0);
    assert(string_views(words@) =~= all.drop_first());
    let program = if count_components(exe.as_str()) == 1 {
        exe
    } else {
        join(root, exe.as_str())
    };
    Ok(CommandParts { program, args: words })
}

/// Whether a failure to start a command is ignored: only when the command
/// was not found and the extension is marked optional.
pub open spec fn error_ignored(not_found: bool, optional: bool) -> bool {
    not_found && optional
}

/// What a failure to start the command of a renderer or preprocessor leads
/// to.
#[derive(Debug, PartialEq)]
pub enum CommandFailure {
    /// The failure is ignored; the warning to print.
    Ignored(String),
    /// The failure is reported: the error message to print first, for a
    /// command that was not found, and the context under which the error of
    /// the start comes back.
    Reported { note: Option<String>, context: String },
}

/// The warning for an optional command that was not found.
pub open spec fn ignored_warning(what: Seq<char>, name: Seq<char>, cmd: Seq<char>) -> Seq<char> {
    "The command `"@ + cmd + "` for "@ + what + " `"@ + name + "` was not found, but is marked as optional."@
}

/// The message for a command that was not found and is not optional.
pub open spec fn not_found_note(key: Seq<char>, what: Seq<char>, name: Seq<char>, cmd: Seq<char>) -> Seq<char> {
    "The command `"@ + cmd + "` wasn't found, is the `"@ + name + "` "@ + what
        + " installed? If you want to ignore this error when the `"@ + name + "` "@ + what
        + " is not installed, set `optional = true` in the `["@ + key + "."@ + name
        + "]` section of the book.toml configuration file."@
}

/// The context of a failure that is reported.
pub open spec fn run_context(what: Seq<char>, name: Seq<char>) -> Seq<char> {
    "Unable to run the "@ + what + " `"@ + name + "`"@
}

/// Decides what a failure to start the command `cmd` of the extension
/// `name` (a `what`, configured under the table `key`) leads to: ignored,
/// with a warning, when the command was not found and the extension is
/// optional; otherwise reported under [`run_context`], after
/// [`not_found_note`] when the command was not found.
pub fn handle_command_error(not_found: bool, optional: bool, key: &str, what: &str, name: &str, cmd: &str) -> (r:
    CommandFailure)
    ensures
        match r {
            CommandFailure::Ignored(w) => error_ignored(not_found, optional) && w@ == ignored_warning(
                what@,
                name@,
                cmd@,
            ),
            CommandFailure::Reported { note, context } => {
                &&& !error_ignored(not_found, optional)
                &&& context@ == run_context(what@, name@)
                &&& match note {
                    Some(n) => not_found && n@ == not_found_note(key@, what@, name@, cmd@),
                    None => !not_found,
                }
            },
        },
{
    if not_found && optional {
        let w = String::from_str("The command `").concat(cmd).concat("` for ").concat(what).concat(" `").concat(
            name,
        ).concat("` was not found, but is marked as optional.");
        CommandFailure::Ignored(w)
    } else {
        let note = if not_found {
            let n = String::from_str("The command `").concat(cmd).concat("` wasn't found, is the `").concat(
                name,
            ).concat("` ").concat(what).concat(" installed? If you want to ignore this error when the `").concat(
                name,
            ).concat("` ").concat(what).concat(" is not installed, set `optional = true` in the `[").concat(
                key,
            ).concat(".").concat(name).concat("]` section of the book.toml configuration file.");
            Some(n)
        } else {
            None
        };
        let context = String::from_str("Unable to run the ").concat(what).concat(" `").concat(name).concat("`");
        CommandFailure::Reported { note, context }
    }
}

} // verus!
