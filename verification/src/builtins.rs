//! The commands that the shell runs in its own process.
//!
//! A builtin never reads the environment or the file system itself. Where
//! it needs something from outside, [`Builtins::execute`] says so with a
//! [`Step`]; the caller fetches it and hands it to the method that finishes
//! the command.

use crate::outcome::{combine, outcome_of, process_partial_results, ErrorKind, ExecutionResult};
use crate::text::{
    copy_texts, decimal, decimal_string, join, join_spec, lemma_join_split, parse_count,
    parse_count_spec, same_text, split_on, split_spec,
};
use vstd::prelude::*;

verus! {

/// The registry of builtin commands.
#[derive(Debug, Clone, Copy)]
pub struct Builtins;

/// What `execute` found: either the command's result, or what the caller
/// must do before the command can finish.
#[derive(Debug, PartialEq, Eq)]
pub enum Step {
    /// The command is finished.
    Done(Result<String, ErrorKind>),
    /// Find the working directory and finish with [`Builtins::pwd`].
    WorkingDir,
    /// Change to the home directory and finish with [`Builtins::cd_result`].
    HomeDir,
    /// Change to this directory and finish with [`Builtins::cd_result`].
    ChangeDir(String),
    /// Find the working directory and go on with [`Builtins::resolve`],
    /// which gives the directory to change to.
    Resolve(String),
    /// Read the search path, list the places to look with
    /// [`Builtins::type_candidates`], test each, and finish with
    /// [`Builtins::type_result`].
    Search(String),
    /// Read these files and finish with [`Builtins::cat`].
    ReadFiles(Vec<String>),
    /// Read the recorded history and finish with [`Builtins::history`],
    /// passing this argument on.
    ReadHistory(Option<String>),
}

/// The mathematical content of a [`Step`].
pub enum StepView {
    Done(ExecutionResult),
    WorkingDir,
    HomeDir,
    ChangeDir(Seq<char>),
    Resolve(Seq<char>),
    Search(Seq<char>),
    ReadFiles(Seq<Seq<char>>),
    ReadHistory(Option<Seq<char>>),
}

impl View for Step {
    type V = StepView;

    open spec fn view(&self) -> StepView {
        match self {
            Step::Done(r) => StepView::Done(outcome_of(*r)),
            Step::WorkingDir => StepView::WorkingDir,
            Step::HomeDir => StepView::HomeDir,
            Step::ChangeDir(t) => StepView::ChangeDir(t@),
            Step::Resolve(p) => StepView::Resolve(p@),
            Step::Search(n) => StepView::Search(n@),
            Step::ReadFiles(names) => StepView::ReadFiles(names.deep_view()),
            Step::ReadHistory(arg) => StepView::ReadHistory(arg.deep_view()),
        }
    }
}

/// A file that `cat` asked for: its name, and its contents if it could be read.
#[derive(Debug, PartialEq, Eq)]
pub struct FileRead {
    pub name: String,
    pub contents: Option<String>,
}

/// A place where `type` looked: the path, and whether an entry with an
/// execute permission bit is there.
#[derive(Debug, PartialEq, Eq)]
pub struct Probe {
    pub path: String,
    pub executable: bool,
}

/// Whether the registry runs `name`.
pub open spec fn is_registered(name: Seq<char>) -> bool {
    name == "echo"@ || name == "pwd"@ || name == "cd"@ || name == "type"@ || name == "cat"@
        || name == "history"@
}

/// Whether `type` reports `name` as a builtin: the registry's names and `exit`.
pub open spec fn is_builtin_name(name: Seq<char>) -> bool {
    is_registered(name) || name == "exit"@
}

/// The result of `echo`: the arguments joined by single spaces, then a newline.
pub open spec fn echo_spec(args: Seq<Seq<char>>) -> ExecutionResult {
    ExecutionResult::Success(join_spec(args, " "@) + "\n"@)
}

/// The failure for a command that the registry does not know.
pub open spec fn unknown_spec(cmd: Seq<char>) -> ExecutionResult {
    ExecutionResult::Failure(cmd + ": command not found"@)
}

/// The failure for a directory that cannot be entered.
pub open spec fn no_such_directory(path: Seq<char>) -> ExecutionResult {
    ExecutionResult::Failure("cd: "@ + path + ": No such file or directory"@)
}

/// What `cd` does with its argument: nothing, a lone space or `~` go home;
/// a leading `/` is an absolute path, taken as it is; anything else is
/// relative to the working directory.
pub open spec fn cd_spec(path: Seq<char>) -> StepView {
    if path == ""@ || path == " "@ || path == "~"@ {
        StepView::HomeDir
    } else if path[0] == '/' {
        StepView::ChangeDir(path)
    } else {
        StepView::Resolve(path)
    }
}

/// The segments that remain of a path after `.` is dropped and `..` has
/// removed the segment retained before it. `None` when a `..` finds nothing
/// left to remove.
pub open spec fn retained(segments: Seq<Seq<char>>) -> Option<Seq<Seq<char>>>
    decreases segments.len(),
{
    if segments.len() == 0 {
        Some(Seq::empty())
    } else {
        match retained(segments.drop_last()) {
            None => None,
            Some(kept) => if segments.last() == "."@ {
                Some(kept)
            } else if segments.last() == ".."@ {
                if kept.len() == 0 {
                    None
                } else {
                    Some(kept.drop_last())
                }
            } else {
                Some(kept.push(segments.last()))
            },
        }
    }
}

/// The directory that a relative `path` names from `cwd`: the two joined by
/// `/`, split at every `/`, reduced by [`retained`], and joined again; or
/// the failure when the path climbs above everything there is.
pub open spec fn resolve_spec(cwd: Seq<char>, path: Seq<char>) -> ExecutionResult {
    match retained(split_spec(cwd + "/"@ + path, '/')) {
        Some(kept) => ExecutionResult::Success(join_spec(kept, "/"@)),
        None => no_such_directory(path),
    }
}

/// The result of `cd` once the change of directory was tried.
pub open spec fn cd_result_spec(target: Seq<char>, changed: bool) -> ExecutionResult {
    if changed {
        ExecutionResult::Success(Seq::empty())
    } else {
        no_such_directory(target)
    }
}

/// What `type` does with its argument: without one the result is empty; a
/// builtin's name is reported as such; any other name is searched for.
pub open spec fn type_spec(name: Option<Seq<char>>) -> StepView {
    match name {
        None => StepView::Done(ExecutionResult::Success(Seq::empty())),
        Some(n) => if is_builtin_name(n) {
            StepView::Done(ExecutionResult::Success(n + " is a shell builtin"@))
        } else {
            StepView::Search(n)
        },
    }
}

/// Where `type` looks for `name`: in each directory of the search path,
/// which is separated by colons, in order.
pub open spec fn type_candidates_spec(name: Seq<char>, search_path: Seq<char>) -> Seq<Seq<char>> {
    let dirs = split_spec(search_path, ':');
    Seq::new(dirs.len(), |i: int| dirs[i] + "/"@ + name)
}

/// The index of the first probe that found an executable; the number of
/// probes if none did.
pub open spec fn first_executable(probes: Seq<Probe>) -> int
    decreases probes.len(),
{
    if probes.len() == 0 {
        0
    } else if probes[0].executable {
        0
    } else {
        1 + first_executable(probes.skip(1))
    }
}

/// The result of `type` for a searched name: the first place with an
/// executable wins; with none the name is not found.
pub open spec fn type_result_spec(name: Seq<char>, probes: Seq<Probe>) -> ExecutionResult {
    let i = first_executable(probes);
    if i < probes.len() {
        ExecutionResult::Success(name + " is "@ + probes[i].path@)
    } else {
        ExecutionResult::Failure(name + ": not found"@)
    }
}

/// What the readable files hold, one after the other.
pub open spec fn readable_text(files: Seq<FileRead>) -> Seq<char>
    decreases files.len(),
{
    if files.len() == 0 {
        Seq::empty()
    } else {
        readable_text(files.drop_last()) + match files.last().contents {
            Some(text) => text@,
            None => Seq::empty(),
        }
    }
}

/// The complaint about one unreadable file.
pub open spec fn cat_complaint(name: Seq<char>) -> Seq<char> {
    "cat: "@ + name + ": No such file or directory"@
}

/// The complaints about the unreadable files, in the order of the files.
pub open spec fn complaints(files: Seq<FileRead>) -> Seq<Seq<char>>
    decreases files.len(),
{
    if files.len() == 0 {
        Seq::empty()
    } else {
        match files.last().contents {
            Some(_) => complaints(files.drop_last()),
            None => complaints(files.drop_last()).push(cat_complaint(files.last().name@)),
        }
    }
}

/// The error text of `cat`: one line for each unreadable file, with a
/// newline between one line and the next.
pub open spec fn unreadable_text(files: Seq<FileRead>) -> Seq<char> {
    join_spec(complaints(files), "\n"@)
}

/// The result of `cat`: the outcome decided by the two texts.
pub open spec fn cat_spec(files: Seq<FileRead>) -> ExecutionResult {
    combine(readable_text(files), unreadable_text(files))
}

/// There is one complaint for each unreadable file, and none for a
/// readable one.
pub proof fn lemma_one_complaint_each(files: Seq<FileRead>)
    ensures
        complaints(files).len() == files.filter(|f: FileRead| f.contents is None).len(),
        complaints(files).len() <= files.len(),
    decreases files.len(),
{
    reveal(Seq::filter);
    if files.len() > 0 {
        lemma_one_complaint_each(files.drop_last());
    }
}

/// The first `n` history lines, each behind its number, counted from one.
pub open spec fn numbered(lines: Seq<Seq<char>>, n: int) -> Seq<Seq<char>> {
    Seq::new(n as nat, |i: int| decimal((i + 1) as nat) + " "@ + lines[i])
}

/// The result of `history`: without an argument every line; with a count,
/// at most that many from the start; with anything else, failure.
pub open spec fn history_spec(arg: Option<Seq<char>>, lines: Seq<Seq<char>>) -> ExecutionResult {
    let limit: Option<int> = match arg {
        None => Some(lines.len() as int),
        Some(a) => match parse_count_spec(a) {
            Some(n) => Some(if n < lines.len() {
                n as int
            } else {
                lines.len() as int
            }),
            None => None,
        },
    };
    match limit {
        Some(n) => ExecutionResult::Success(join_spec(numbered(lines, n), "\n"@) + "\n"@),
        None => ExecutionResult::Failure("numeric argument required"@),
    }
}

/// The first argument, as `execute` passes it on.
pub open spec fn first_arg(args: Seq<Seq<char>>) -> Option<Seq<char>> {
    if args.len() > 0 {
        Some(args[0])
    } else {
        None
    }
}

/// What `execute` does with a command and its arguments.
pub open spec fn execute_spec(cmd: Seq<char>, args: Seq<Seq<char>>) -> StepView {
    if cmd == "echo"@ {
        StepView::Done(echo_spec(args))
    } else if cmd == "pwd"@ {
        StepView::WorkingDir
    } else if cmd == "cd"@ {
        cd_spec(
            match first_arg(args) {
                Some(p) => p,
                None => "~"@,
            },
        )
    } else if cmd == "type"@ {
        type_spec(first_arg(args))
    } else if cmd == "cat"@ {
        StepView::ReadFiles(args)
    } else if cmd == "history"@ {
        StepView::ReadHistory(first_arg(args))
    } else {
        StepView::Done(unknown_spec(cmd))
    }
}

fn failure(message: String) -> (r: Result<String, ErrorKind>)
    ensures
        outcome_of(r) == ExecutionResult::Failure(message@),
{
    Err(ErrorKind::CompleteFailure(message))
}

fn concat2(a: &str, b: &str) -> (out: String)
    ensures
        out@ == a@ + b@,
{
    let mut out = String::from_str(a);
    out.append(b);
    out
}

fn concat3(a: &str, b: &str, c: &str) -> (out: String)
    ensures
        out@ == a@ + b@ + c@,
{
    let mut out = String::from_str(a);
    out.append(b);
    out.append(c);
    out
}

impl Builtins {
    pub fn new() -> (r: Self) {
        Builtins
    }

    /// Whether the registry runs `cmd`. A command that it does not run is
    /// for the caller to start as a program.
    pub fn recognizes(&self, cmd: &str) -> (r: bool)
        ensures
            r == is_registered(cmd@),
    {
        same_text(cmd, "echo") || same_text(cmd, "pwd") || same_text(cmd, "cd") || same_text(
            cmd,
            "type",
        ) || same_text(cmd, "cat") || same_text(cmd, "history")
    }

    /// Runs `cmd` as far as it goes without the outside world.
    pub fn execute(&self, cmd: &str, args: &[String]) -> (step: Step)
        ensures
            step@ == execute_spec(cmd@, args.deep_view()),
    {
        if same_text(cmd, "echo") {
            Step::Done(self.echo(args))
        } else if same_text(cmd, "pwd") {
            Step::WorkingDir
        } else if same_text(cmd, "cd") {
            if args.len() > 0 {
                self.cd(args[0].as_str())
            } else {
                self.cd("~")
            }
        } else if same_text(cmd, "type") {
            if args.len() > 0 {
                self._type(Some(args[0].as_str()))
            } else {
                self._type(None)
            }
        } else if same_text(cmd, "cat") {
            Step::ReadFiles(copy_texts(args))
        } else if same_text(cmd, "history") {
            if args.len() > 0 {
                Step::ReadHistory(Some(args[0].clone()))
            } else {
                Step::ReadHistory(None)
            }
        } else {
            Step::Done(failure(concat2(cmd, ": command not found")))
        }
    }

    /// Lists the recorded history lines, numbered from one; `args` may
    /// limit how many.
    pub fn history(&self, args: Option<&str>, lines: &[String]) -> (r: Result<String, ErrorKind>)
        ensures
            outcome_of(r) == history_spec(args.deep_view(), lines.deep_view()),
    {
        let limit: usize = match args {
            Some(arg) => match parse_count(arg) {
                Some(n) => if n < lines.len() {
                    n
                } else {
                    lines.len()
                },
                None => {
                    return failure(String::from_str("numeric argument required"));
                },
            },
            None => lines.len(),
        };
        let mut listed: Vec<String> = Vec::new();
        let mut i: usize = 0;
        while i < limit
            invariant
                i <= limit <= lines.len(),
                listed.len() == i,
                listed.deep_view() == numbered(lines.deep_view(), i as int),
            decreases limit - i,
        {
            let ghost before = listed.deep_view();
            let number = decimal_string(i + 1);
            listed.push(concat3(number.as_str(), " ", lines[i].as_str()));
            proof {
                let now = listed.deep_view();
                let want = numbered(lines.deep_view(), i + 1);
                assert(now.len() == want.len());
                assert forall|j: int| 0 <= j < now.len() implies now[j] == want[j] by {
                    if j < i {
                        assert(now[j] == before[j]);
                        assert(before[j] == numbered(lines.deep_view(), i as int)[j]);
                    } else {
                        assert(lines.deep_view()[j] == lines[i as int]@);
                    }
                }
                assert(now =~= want);
            }
            i += 1;
        }
        let mut out = join(listed.as_slice(), "\n");
        out.append("\n");
        Ok(out)
    }

    /// Joins the arguments with single spaces and ends the line.
    pub fn echo(&self, args: &[String]) -> (r: Result<String, ErrorKind>)
        ensures
            outcome_of(r) == echo_spec(args.deep_view()),
    {
        let mut out = join(args, " ");
        out.append("\n");
        Ok(out)
    }

    /// Concatenates what the readable files hold, and complains about each
    /// of the others on a line of its own.
    pub fn cat(&self, files: &[FileRead]) -> (r: Result<String, ErrorKind>)
        ensures
            outcome_of(r) == cat_spec(files@),
    {
        let mut text = String::new();
        let mut lines: Vec<String> = Vec::new();
        let mut i: usize = 0;
        while i < files.len()
            invariant
                i <= files.len(),
                text@ == readable_text(files@.take(i as int)),
                lines.deep_view() == complaints(files@.take(i as int)),
            decreases files.len() - i,
        {
            proof {
                let next = files@.take(i + 1);
                assert(next.drop_last() == files@.take(i as int));
                assert(next.last() == files@[i as int]);
            }
            let ghost before = lines.deep_view();
            match &files[i].contents {
                Some(contents) => {
                    text.append(contents.as_str());
                },
                None => {
                    let line = concat3(
                        "cat: ",
                        files[i].name.as_str(),
                        ": No such file or directory",
                    );
                    lines.push(line);
                    assert(lines.deep_view() =~= before.push(
                        cat_complaint(files[i as int].name@),
                    ));
                    assert(text@ + Seq::<char>::empty() =~= text@);
                },
            }
            i += 1;
        }
        assert(files@.take(files.len() as int) == files@);
        process_partial_results(text, join(lines.as_slice(), "\n"))
    }

    /// Decides where `cd` goes, as far as the argument alone tells.
    pub fn cd(&self, path: &str) -> (step: Step)
        ensures
            step@ == cd_spec(path@),
    {
        if same_text(path, "") || same_text(path, " ") || same_text(path, "~") {
            Step::HomeDir
        } else {
            proof {
                reveal_strlit("");
                assert(path@.len() > 0) by {
                    if path@.len() == 0 {
                        assert(path@ =~= ""@);
                    }
                }
            }
            if path.get_char(0) == '/' {
                Step::ChangeDir(String::from_str(path))
            } else {
                Step::Resolve(String::from_str(path))
            }
        }
    }

    /// Works out the directory that a relative `path` names from `cwd`.
    /// Fails when a `..` has nothing left to step out of.
    pub fn resolve(&self, cwd: &str, path: &str) -> (r: Result<String, ErrorKind>)
        ensures
            outcome_of(r) == resolve_spec(cwd@, path@),
    {
        let joined = concat3(cwd, "/", path);
        let segments = split_on(joined.as_str(), '/');
        let mut kept: Vec<String> = Vec::new();
        let mut i: usize = 0;
        while i < segments.len()
            invariant
                i <= segments.len(),
                segments.deep_view() == split_spec(cwd@ + "/"@ + path@, '/'),
                retained(segments.deep_view().take(i as int)) == Some(kept.deep_view()),
            decreases segments.len() - i,
        {
            let ghost before = kept.deep_view();
            proof {
                let next = segments.deep_view().take(i + 1);
                assert(next.drop_last() == segments.deep_view().take(i as int));
                assert(next.last() == segments[i as int]@);
            }
            let segment = segments[i].as_str();
            if same_text(segment, ".") {
            } else if same_text(segment, "..") {
                if kept.len() == 0 {
                    proof {
                        assert(before.len() == 0);
                        assert(retained(segments.deep_view().take(i + 1)) is None);
                        lemma_retained_none(segments.deep_view(), i + 1);
                    }
                    return failure(concat3("cd: ", path, ": No such file or directory"));
                }
                kept.pop();
                assert(kept.deep_view() =~= before.drop_last());
            } else {
                kept.push(segments[i].clone());
                assert(kept.deep_view() =~= before.push(segments[i as int]@));
            }
            i += 1;
        }
        assert(segments.deep_view().take(segments.len() as int) == segments.deep_view());
        Ok(join(kept.as_slice(), "/"))
    }

    /// The result of `cd` once the caller has tried to enter `target`.
    pub fn cd_result(&self, target: &str, changed: bool) -> (r: Result<String, ErrorKind>)
        ensures
            outcome_of(r) == cd_result_spec(target@, changed),
    {
        if changed {
            Ok(String::new())
        } else {
            failure(concat3("cd: ", target, ": No such file or directory"))
        }
    }

    /// The working directory as `pwd` reports it.
    pub fn pwd(&self, cwd: &str) -> (r: Result<String, ErrorKind>)
        ensures
            outcome_of(r) == ExecutionResult::Success(cwd@),
    {
        Ok(String::from_str(cwd))
    }

    /// Says what kind of command a name is, as far as the name alone tells.
    pub fn _type(&self, path: Option<&str>) -> (step: Step)
        ensures
            step@ == type_spec(path.deep_view()),
    {
        match path {
            Some(name) => {
                if self.recognizes(name) || same_text(name, "exit") {
                    Step::Done(Ok(concat2(name, " is a shell builtin")))
                } else {
                    Step::Search(String::from_str(name))
                }
            },
            None => Step::Done(Ok(String::new())),
        }
    }

    /// The places where a program called `name` may be, in search order.
    pub fn type_candidates(&self, name: &str, search_path: &str) -> (r: Vec<String>)
        ensures
            r.deep_view() == type_candidates_spec(name@, search_path@),
    {
        let dirs = split_on(search_path, ':');
        let mut r: Vec<String> = Vec::new();
        let mut i: usize = 0;
        while i < dirs.len()
            invariant
                i <= dirs.len(),
                dirs.deep_view() == split_spec(search_path@, ':'),
                r.len() == i,
                forall|j: int|
                    0 <= j < i ==> #[trigger] r[j]@ == dirs.deep_view()[j] + "/"@ + name@,
            decreases dirs.len() - i,
        {
            r.push(concat3(dirs[i].as_str(), "/", name));
            i += 1;
        }
        assert(r.deep_view() =~= type_candidates_spec(name@, search_path@));
        r
    }

    /// The result of `type` for a name that was searched for.
    pub fn type_result(&self, name: &str, probes: &[Probe]) -> (r: Result<String, ErrorKind>)
        ensures
            outcome_of(r) == type_result_spec(name@, probes@),
    {
        let mut i: usize = 0;
        while i < probes.len() && !probes[i].executable
            invariant
                i <= probes.len(),
                forall|j: int| 0 <= j < i ==> !(#[trigger] probes@[j]).executable,
            decreases probes.len() - i,
        {
            i += 1;
        }
        proof {
            lemma_first_executable_is(probes@, i as int);
        }
        if i < probes.len() {
            Ok(concat3(name, " is ", probes[i].path.as_str()))
        } else {
            failure(concat2(name, ": not found"))
        }
    }
}

/// Whether a segment is one that [`retained`] acts on rather than keeps.
pub open spec fn is_dot_segment(segment: Seq<char>) -> bool {
    segment == "."@ || segment == ".."@
}

/// What is retained of a path holds no `.` and no `..`, and is no longer
/// than the path.
pub proof fn lemma_retained_clean(segments: Seq<Seq<char>>)
    ensures
        retained(segments) matches Some(kept) ==> kept.len() <= segments.len() && forall|i: int|
            0 <= i < kept.len() ==> !is_dot_segment(#[trigger] kept[i]),
    decreases segments.len(),
{
    if segments.len() > 0 {
        lemma_retained_clean(segments.drop_last());
    }
}

/// A path without `.` and `..` is retained as it is.
pub proof fn lemma_retained_plain(segments: Seq<Seq<char>>)
    requires
        forall|i: int| 0 <= i < segments.len() ==> !is_dot_segment(#[trigger] segments[i]),
    ensures
        retained(segments) == Some(segments),
    decreases segments.len(),
{
    if segments.len() > 0 {
        let before = segments.drop_last();
        assert forall|i: int| 0 <= i < before.len() implies !is_dot_segment(
            #[trigger] before[i],
        ) by {
            assert(before[i] == segments[i]);
        }
        lemma_retained_plain(before);
        assert(!is_dot_segment(segments[segments.len() - 1]));
        assert(before.push(segments.last()) =~= segments);
    } else {
        assert(segments =~= Seq::empty());
    }
}

/// A relative path without `.` and `..` resolves to the working directory,
/// a slash, and the path.
pub proof fn lemma_resolve_plain(cwd: Seq<char>, path: Seq<char>)
    requires
        forall|i: int|
            0 <= i < split_spec(cwd + "/"@ + path, '/').len() ==> !is_dot_segment(
                #[trigger] split_spec(cwd + "/"@ + path, '/')[i],
            ),
    ensures
        resolve_spec(cwd, path) == ExecutionResult::Success(cwd + "/"@ + path),
{
    let whole = cwd + "/"@ + path;
    lemma_retained_plain(split_spec(whole, '/'));
    lemma_join_split(whole, '/');
    reveal_strlit("/");
    assert("/"@ =~= seq!['/']);
}

/// A trailing `..` on a plain path removes the last segment: from
/// `cwd`, the path `..` leads to `cwd` without its last segment.
pub proof fn lemma_resolve_parent(cwd: Seq<char>)
    requires
        forall|i: int|
            0 <= i < split_spec(cwd, '/').len() ==> !is_dot_segment(
                #[trigger] split_spec(cwd, '/')[i],
            ),
    ensures
        resolve_spec(cwd, ".."@) == ExecutionResult::Success(
            join_spec(split_spec(cwd, '/').drop_last(), "/"@),
        ),
{
    reveal_strlit("/");
    reveal_strlit("..");
    reveal_strlit(".");
    let slash = "/"@;
    let up = ".."@;
    assert(slash =~= seq!['/']);
    assert(up =~= seq!['.', '.']);
    let base = split_spec(cwd, '/');
    lemma_join_split(cwd, '/');
    lemma_retained_plain(base);
    // Splitting `cwd/..` gives the segments of `cwd`, then `..`.
    let s0 = cwd + slash;
    assert(s0.drop_last() =~= cwd);
    assert(s0.last() == '/');
    assert(split_spec(s0, '/') == base.push(Seq::empty()));
    let s1 = s0.push('.');
    assert(s1.drop_last() =~= s0);
    let one = split_spec(s1, '/');
    assert(one =~= base.push(seq!['.']));
    let s2 = s1.push('.');
    assert(s2.drop_last() =~= s1);
    assert(s2.last() == '.');
    assert(one.drop_last() =~= base);
    assert(one.last().push('.') =~= seq!['.', '.']);
    assert(split_spec(s2, '/') == one.drop_last().push(one.last().push('.')));
    assert(split_spec(s2, '/') =~= base.push(seq!['.', '.']));
    assert(s2 =~= cwd + slash + up);
    let all = split_spec(cwd + slash + up, '/');
    assert(all.drop_last() =~= base);
    assert(all.last() == up);
    assert(base.len() >= 1);
    assert(seq!['.', '.'] != "."@) by {
        assert("."@.len() == 1);
    }
}

/// Once nothing can be retained, nothing can be retained of any longer path.
proof fn lemma_retained_none(segments: Seq<Seq<char>>, k: int)
    requires
        0 <= k <= segments.len(),
        retained(segments.take(k)) is None,
    ensures
        retained(segments) is None,
    decreases segments.len() - k,
{
    if k < segments.len() {
        assert(segments.take(k + 1).drop_last() == segments.take(k));
        lemma_retained_none(segments, k + 1);
    } else {
        assert(segments.take(k) == segments);
    }
}

/// An index with no executable before it, and one at it unless it is the
/// end, is the first executable.
proof fn lemma_first_executable_is(probes: Seq<Probe>, i: int)
    requires
        0 <= i <= probes.len(),
        forall|j: int| 0 <= j < i ==> !(#[trigger] probes[j]).executable,
        i < probes.len() ==> probes[i].executable,
    ensures
        first_executable(probes) == i,
    decreases probes.len(),
{
    if probes.len() > 0 && i > 0 {
        assert(!probes[0].executable);
        let rest = probes.skip(1);
        assert forall|j: int| 0 <= j < i - 1 implies !(#[trigger] rest[j]).executable by {
            assert(rest[j] == probes[j + 1]);
        }
        lemma_first_executable_is(rest, i - 1);
    }
}

} // verus!
