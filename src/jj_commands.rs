use vstd::prelude::*;
use crate::model::GlobalArgs;
use crate::text::{chars_of, string_from_chars, trim_chars, trim_spec};

verus! {

/// Which of the tool's output streams a command's result is read from.
#[derive(Clone, Copy, Debug, PartialEq, Eq, Structural)]
pub enum ReturnOutput {
    Stdout,
    Stderr,
}

/// A run of the history tool: its arguments, the global options, whether it
/// takes over the terminal, and which output is its result.
#[derive(Debug)]
pub struct JjCommand {
    pub args: Vec<String>,
    pub global_args: GlobalArgs,
    pub interactive: bool,
    pub return_output: ReturnOutput,
}

/// How a run of the history tool failed.
#[derive(Debug)]
pub enum JjCommandError {
    /// The tool ran and reported failure; its diagnostics.
    Failed { stderr: String },
    /// The tool could not be run.
    Other { err: String },
}

/// What a run of the history tool printed.
#[derive(Debug)]
pub struct JjCommandOutput {
    pub stdout: String,
    pub stderr: String,
}

/// The node template the log is printed with, so that changes can be read
/// back.
pub const LOG_NODE_TEMPLATE: &'static str = "templates.log_node=
            coalesce(
              if(!self, label(\"elided\", \"~\")),
              label(
                separate(\" \",
                  if(current_working_copy, \"working_copy\"),
                  if(immutable, \"immutable\"),
                  if(conflict, \"conflict\"),
                ),
                coalesce(
                  if(current_working_copy, \"@\"),
                  if(root, \"┴\"),
                  if(immutable, \"●\"),
                  if(conflict, \"⊗\"),
                  \"○\",
                )
              )
            )
        ";

pub open spec fn str_views(v: Seq<String>) -> Seq<Seq<char>> {
    v.map_values(|s: String| s@)
}

pub fn copy_str(s: &str) -> (r: String)
    ensures
        r@ == s@,
{
    string_from_chars(chars_of(s).as_slice())
}

impl GlobalArgs {
    pub fn copy(&self) -> (r: GlobalArgs)
        ensures
            r.repository@ == self.repository@,
            r.ignore_immutable == self.ignore_immutable,
    {
        GlobalArgs { repository: copy_str(self.repository.as_str()), ignore_immutable: self.ignore_immutable }
    }
}

/// Strings from string slices, in order.
pub fn strings(v: &Vec<&str>) -> (r: Vec<String>)
    ensures
        str_views(r@) == v@.map_values(|s: &str| s@),
{
    let mut r: Vec<String> = Vec::new();
    let mut i: usize = 0;
    while i < v.len()
        invariant
            i <= v@.len(),
            str_views(r@) == v@.map_values(|s: &str| s@).take(i as int),
        decreases v@.len() - i,
    {
        let ghost before = r@;
        r.push(copy_str(v[i]));
        assert(str_views(r@) =~= str_views(before).push(v@[i as int]@));
        assert(str_views(r@) =~= v@.map_values(|s: &str| s@).take(i + 1));
        i += 1;
    }
    assert(v@.map_values(|s: &str| s@).take(i as int) =~= v@.map_values(|s: &str| s@));
    r
}

/// The options that come before every command: colours on, the log
/// template, the repository, and `--ignore-immutable` when asked for.
pub open spec fn base_args_spec(g: GlobalArgs) -> Seq<Seq<char>> {
    seq!["--color"@, "always"@, "--config"@, LOG_NODE_TEMPLATE@, "--repository"@, g.repository@]
        + if g.ignore_immutable { seq!["--ignore-immutable"@] } else { Seq::empty() }
}

impl JjCommand {
    fn _new(args: Vec<&str>, global_args: GlobalArgs, interactive: bool, return_output: ReturnOutput) -> (r: Self)
        ensures
            str_views(r.args@) == args@.map_values(|s: &str| s@),
            r.global_args == global_args,
            r.interactive == interactive,
            r.return_output == return_output,
    {
        JjCommand { args: strings(&args), global_args, interactive, return_output }
    }

    /// The whole argument list: the global options, then the command's own.
    pub fn full_args(&self) -> (r: Vec<String>)
        ensures
            str_views(r@) == base_args_spec(self.global_args) + str_views(self.args@),
    {
        let mut v: Vec<&str> = vec!["--color", "always", "--config", LOG_NODE_TEMPLATE, "--repository", self.global_args.repository.as_str()];
        if self.global_args.ignore_immutable {
            v.push("--ignore-immutable");
        }
        let mut r = strings(&v);
        let ghost base = str_views(r@);
        assert(base =~= base_args_spec(self.global_args));
        let mut i: usize = 0;
        while i < self.args.len()
            invariant
                i <= self.args@.len(),
                str_views(r@) == base + str_views(self.args@).take(i as int),
            decreases self.args@.len() - i,
        {
            let ghost before = r@;
            r.push(copy_str(self.args[i].as_str()));
            assert(str_views(r@) =~= str_views(before).push(self.args@[i as int]@));
            assert(str_views(r@) =~= base + str_views(self.args@).take(i + 1));
            i += 1;
        }
        assert(str_views(self.args@).take(i as int) =~= str_views(self.args@));
        r
    }

    pub fn log(revset: &str, global_args: GlobalArgs) -> (r: Self)
        ensures
            str_views(r.args@) == seq!["log"@, "--revisions"@, revset@],
            !r.interactive && r.return_output == ReturnOutput::Stdout,
    {
        let r = Self::_new(vec!["log", "--revisions", revset], global_args, false, ReturnOutput::Stdout);
        assert(str_views(r.args@) =~= seq!["log"@, "--revisions"@, revset@]);
        r
    }

    pub fn diff_summary(change_id: &str, global_args: GlobalArgs) -> (r: Self)
        ensures
            str_views(r.args@) == seq!["diff"@, "--revisions"@, change_id@, "--summary"@],
            !r.interactive && r.return_output == ReturnOutput::Stdout,
    {
        let r = Self::_new(vec!["diff", "--revisions", change_id, "--summary"], global_args, false, ReturnOutput::Stdout);
        assert(str_views(r.args@) =~= seq!["diff"@, "--revisions"@, change_id@, "--summary"@]);
        r
    }

    pub fn diff_file(change_id: &str, file: &str, global_args: GlobalArgs) -> (r: Self)
        ensures
            str_views(r.args@) == seq!["diff"@, "--revisions"@, change_id@, file@],
            !r.interactive && r.return_output == ReturnOutput::Stdout,
    {
        let r = Self::_new(vec!["diff", "--revisions", change_id, file], global_args, false, ReturnOutput::Stdout);
        assert(str_views(r.args@) =~= seq!["diff"@, "--revisions"@, change_id@, file@]);
        r
    }

    /// Shows a change, or one file of it, taking over the terminal.
    pub fn show(change_id: &str, maybe_file_path: Option<&str>, global_args: GlobalArgs) -> (r: Self)
        ensures
            str_views(r.args@) == match maybe_file_path {
                None => seq!["show"@, change_id@],
                Some(p) => seq!["diff"@, "--revisions"@, change_id@, p@],
            },
            r.interactive && r.return_output == ReturnOutput::Stderr,
    {
        let args = match maybe_file_path {
            None => vec!["show", change_id],
            Some(file_path) => vec!["diff", "--revisions", change_id, file_path],
        };
        let r = Self::_new(args, global_args, true, ReturnOutput::Stderr);
        assert(str_views(r.args@) =~= match maybe_file_path {
            None => seq!["show"@, change_id@],
            Some(p) => seq!["diff"@, "--revisions"@, change_id@, p@],
        });
        r
    }

    pub fn describe(change_id: &str, global_args: GlobalArgs) -> (r: Self)
        ensures
            str_views(r.args@) == seq!["describe"@, change_id@],
            r.interactive && r.return_output == ReturnOutput::Stderr,
    {
        let r = Self::_new(vec!["describe", change_id], global_args, true, ReturnOutput::Stderr);
        assert(str_views(r.args@) =~= seq!["describe"@, change_id@]);
        r
    }

    pub fn new(change_id: &str, global_args: GlobalArgs) -> (r: Self)
        ensures
            str_views(r.args@) == seq!["new"@, change_id@],
            !r.interactive && r.return_output == ReturnOutput::Stderr,
    {
        let r = Self::_new(vec!["new", change_id], global_args, false, ReturnOutput::Stderr);
        assert(str_views(r.args@) =~= seq!["new"@, change_id@]);
        r
    }

    pub fn new_before(change_id: &str, global_args: GlobalArgs) -> (r: Self)
        ensures
            str_views(r.args@) == seq!["new"@, "--no-edit"@, "--insert-before"@, change_id@],
            !r.interactive && r.return_output == ReturnOutput::Stderr,
    {
        let r = Self::_new(vec!["new", "--no-edit", "--insert-before", change_id], global_args, false, ReturnOutput::Stderr);
        assert(str_views(r.args@) =~= seq!["new"@, "--no-edit"@, "--insert-before"@, change_id@]);
        r
    }

    pub fn abandon(change_id: &str, global_args: GlobalArgs) -> (r: Self)
        ensures
            str_views(r.args@) == seq!["abandon"@, change_id@],
            !r.interactive && r.return_output == ReturnOutput::Stderr,
    {
        let r = Self::_new(vec!["abandon", change_id], global_args, false, ReturnOutput::Stderr);
        assert(str_views(r.args@) =~= seq!["abandon"@, change_id@]);
        r
    }

    pub fn undo(global_args: GlobalArgs) -> (r: Self)
        ensures
            str_views(r.args@) == seq!["undo"@],
            !r.interactive && r.return_output == ReturnOutput::Stderr,
    {
        let r = Self::_new(vec!["undo"], global_args, false, ReturnOutput::Stderr);
        assert(str_views(r.args@) =~= seq!["undo"@]);
        r
    }

    pub fn commit(global_args: GlobalArgs) -> (r: Self)
        ensures
            str_views(r.args@) == seq!["commit"@],
            r.interactive && r.return_output == ReturnOutput::Stderr,
    {
        let r = Self::_new(vec!["commit"], global_args, true, ReturnOutput::Stderr);
        assert(str_views(r.args@) =~= seq!["commit"@]);
        r
    }

    /// Squashes a change (or one file of it) into its parent; interactively
    /// when the description must be merged by hand.
    pub fn squash(change_id: &str, maybe_file_path: Option<&str>, global_args: GlobalArgs, interactive: bool) -> (r: Self)
        ensures
            str_views(r.args@) == seq!["squash"@, "--revision"@, change_id@] + match maybe_file_path {
                None => Seq::<Seq<char>>::empty(),
                Some(p) => seq![p@],
            },
            r.interactive == interactive && r.return_output == ReturnOutput::Stderr,
    {
        let mut args = vec!["squash", "--revision", change_id];
        match maybe_file_path {
            Some(file_path) => args.push(file_path),
            None => {},
        }
        let r = Self::_new(args, global_args, interactive, ReturnOutput::Stderr);
        assert(str_views(r.args@) =~= seq!["squash"@, "--revision"@, change_id@] + match maybe_file_path {
            None => Seq::<Seq<char>>::empty(),
            Some(p) => seq![p@],
        });
        r
    }

    pub fn squash_noninteractive(change_id: &str, maybe_file_path: Option<&str>, global_args: GlobalArgs) -> (r: Self)
        ensures
            str_views(r.args@) == seq!["squash"@, "--revision"@, change_id@] + match maybe_file_path {
                None => Seq::<Seq<char>>::empty(),
                Some(p) => seq![p@],
            },
            !r.interactive && r.return_output == ReturnOutput::Stderr,
    {
        Self::squash(change_id, maybe_file_path, global_args, false)
    }

    pub fn squash_interactive(change_id: &str, maybe_file_path: Option<&str>, global_args: GlobalArgs) -> (r: Self)
        ensures
            str_views(r.args@) == seq!["squash"@, "--revision"@, change_id@] + match maybe_file_path {
                None => Seq::<Seq<char>>::empty(),
                Some(p) => seq![p@],
            },
            r.interactive && r.return_output == ReturnOutput::Stderr,
    {
        Self::squash(change_id, maybe_file_path, global_args, true)
    }

    pub fn edit(change_id: &str, global_args: GlobalArgs) -> (r: Self)
        ensures
            str_views(r.args@) == seq!["edit"@, change_id@],
            !r.interactive && r.return_output == ReturnOutput::Stderr,
    {
        let r = Self::_new(vec!["edit", change_id], global_args, false, ReturnOutput::Stderr);
        assert(str_views(r.args@) =~= seq!["edit"@, change_id@]);
        r
    }

    pub fn fetch(global_args: GlobalArgs) -> (r: Self)
        ensures
            str_views(r.args@) == seq!["git"@, "fetch"@],
            !r.interactive && r.return_output == ReturnOutput::Stderr,
    {
        let r = Self::_new(vec!["git", "fetch"], global_args, false, ReturnOutput::Stderr);
        assert(str_views(r.args@) =~= seq!["git"@, "fetch"@]);
        r
    }

    pub fn push(global_args: GlobalArgs) -> (r: Self)
        ensures
            str_views(r.args@) == seq!["git"@, "push"@],
            !r.interactive && r.return_output == ReturnOutput::Stderr,
    {
        let r = Self::_new(vec!["git", "push"], global_args, false, ReturnOutput::Stderr);
        assert(str_views(r.args@) =~= seq!["git"@, "push"@]);
        r
    }

    pub fn bookmark_set_master(change_id: &str, global_args: GlobalArgs) -> (r: Self)
        ensures
            str_views(r.args@) == seq!["bookmark"@, "set"@, "master"@, "--revision"@, change_id@],
            !r.interactive && r.return_output == ReturnOutput::Stderr,
    {
        let r = Self::_new(vec!["bookmark", "set", "master", "--revision", change_id], global_args, false, ReturnOutput::Stderr);
        assert(str_views(r.args@) =~= seq!["bookmark"@, "set"@, "master"@, "--revision"@, change_id@]);
        r
    }

    /// The result of a run: the output stream this command reads.
    pub fn select_output(&self, output: JjCommandOutput) -> (r: String)
        ensures
            r == match self.return_output {
                ReturnOutput::Stdout => output.stdout,
                ReturnOutput::Stderr => output.stderr,
            },
    {
        match self.return_output {
            ReturnOutput::Stdout => output.stdout,
            ReturnOutput::Stderr => output.stderr,
        }
    }
}

impl JjCommandError {
    /// A failure reported by the tool, its diagnostics trimmed.
    pub fn new_failed(stderr: String) -> (r: Self)
        ensures
            r matches JjCommandError::Failed { stderr: s } && s@ == trim_spec(stderr@),
    {
        let t = trim_chars(&chars_of(stderr.as_str()));
        JjCommandError::Failed { stderr: string_from_chars(t.as_slice()) }
    }

    /// A failure to run the tool at all.
    pub fn new_other(err: String) -> (r: Self)
        ensures
            r matches JjCommandError::Other { err: e } && e@ == err@,
    {
        JjCommandError::Other { err }
    }
}

} // verus!
