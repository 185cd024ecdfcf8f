//! Finding a redirection in a tokenized command and splitting it off.

use crate::text::same_text;
use vstd::prelude::*;

verus! {

/// Where a command's output goes. Each redirecting variant holds the tokens
/// from the operator onward: the operator itself, then the target file name,
/// then whatever followed, which is ignored.
#[derive(Debug, PartialEq, Eq)]
pub enum Output {
    AppendStdErr(Vec<String>),
    AppendStdOut(Vec<String>),
    RedirectStdOut(Vec<String>),
    RedirectStdErr(Vec<String>),
    StdOut,
}

/// The mathematical content of an [`Output`].
pub enum OutputPlan {
    Unredirected,
    ReplaceStdout(Seq<Seq<char>>),
    AppendStdout(Seq<Seq<char>>),
    ReplaceStderr(Seq<Seq<char>>),
    AppendStderr(Seq<Seq<char>>),
}

impl OutputPlan {
    /// The tokens from the operator onward; empty when nothing is redirected.
    pub open spec fn tail(self) -> Seq<Seq<char>> {
        match self {
            OutputPlan::Unredirected => Seq::empty(),
            OutputPlan::ReplaceStdout(t) => t,
            OutputPlan::AppendStdout(t) => t,
            OutputPlan::ReplaceStderr(t) => t,
            OutputPlan::AppendStderr(t) => t,
        }
    }

    /// The file that output is redirected to: the token after the operator.
    pub open spec fn target(self) -> Option<Seq<char>> {
        if self.tail().len() >= 2 {
            Some(self.tail()[1])
        } else {
            None
        }
    }
}

impl View for Output {
    type V = OutputPlan;

    open spec fn view(&self) -> OutputPlan {
        match self {
            Output::AppendStdErr(t) => OutputPlan::AppendStderr(t.deep_view()),
            Output::AppendStdOut(t) => OutputPlan::AppendStdout(t.deep_view()),
            Output::RedirectStdOut(t) => OutputPlan::ReplaceStdout(t.deep_view()),
            Output::RedirectStdErr(t) => OutputPlan::ReplaceStderr(t.deep_view()),
            Output::StdOut => OutputPlan::Unredirected,
        }
    }
}

impl Output {
    /// The file that output is redirected to, if the plan names one.
    pub fn target(&self) -> (r: Option<&String>)
        ensures
            r.deep_view() == self@.target(),
    {
        match self {
            Output::AppendStdErr(t) | Output::AppendStdOut(t) | Output::RedirectStdOut(t)
            | Output::RedirectStdErr(t) => {
                if t.len() >= 2 {
                    Some(&t[1])
                } else {
                    None
                }
            },
            Output::StdOut => None,
        }
    }
}

/// The four redirections, in the order in which they are looked for.
#[derive(Debug, Clone, Copy, PartialEq, Eq, Structural)]
pub enum Operator {
    AppendStdErr,
    RedirectStdErr,
    AppendStdOut,
    RedirectStdOut,
}

/// Whether `token`, standing alone, is a spelling of `op`.
pub open spec fn spells(op: Operator, token: Seq<char>) -> bool {
    match op {
        Operator::AppendStdErr => token == "2>>"@,
        Operator::RedirectStdErr => token == "2>"@,
        Operator::AppendStdOut => token == ">>"@ || token == "1>>"@,
        Operator::RedirectStdOut => token == ">"@ || token == "1>"@,
    }
}

/// The index of the first token that spells `op`; the number of tokens if
/// none does.
pub open spec fn first_spelling(tokens: Seq<Seq<char>>, op: Operator) -> int
    decreases tokens.len(),
{
    if tokens.len() == 0 {
        0
    } else if spells(op, tokens[0]) {
        0
    } else {
        1 + first_spelling(tokens.skip(1), op)
    }
}

/// The command tokens and the plan for a token sequence. The operators are
/// looked for one after the other, `2>>` first, then `2>`, then `>>` or
/// `1>>`, then `>` or `1>`; the first kind that occurs at all decides, and
/// the sequence is cut at its first occurrence.
pub open spec fn plan_spec(tokens: Seq<Seq<char>>) -> (Seq<Seq<char>>, OutputPlan) {
    let a = first_spelling(tokens, Operator::AppendStdErr);
    let b = first_spelling(tokens, Operator::RedirectStdErr);
    let c = first_spelling(tokens, Operator::AppendStdOut);
    let d = first_spelling(tokens, Operator::RedirectStdOut);
    if a < tokens.len() {
        (tokens.take(a), OutputPlan::AppendStderr(tokens.skip(a)))
    } else if b < tokens.len() {
        (tokens.take(b), OutputPlan::ReplaceStderr(tokens.skip(b)))
    } else if c < tokens.len() {
        (tokens.take(c), OutputPlan::AppendStdout(tokens.skip(c)))
    } else if d < tokens.len() {
        (tokens.take(d), OutputPlan::ReplaceStdout(tokens.skip(d)))
    } else {
        (tokens, OutputPlan::Unredirected)
    }
}

/// `first_spelling` is the least index whose token spells `op`.
pub proof fn lemma_first_spelling(tokens: Seq<Seq<char>>, op: Operator)
    ensures
        0 <= first_spelling(tokens, op) <= tokens.len(),
        forall|j: int| 0 <= j < first_spelling(tokens, op) ==> !spells(op, #[trigger] tokens[j]),
        first_spelling(tokens, op) < tokens.len() ==> spells(
            op,
            tokens[first_spelling(tokens, op)],
        ),
    decreases tokens.len(),
{
    if tokens.len() > 0 && !spells(op, tokens[0]) {
        let rest = tokens.skip(1);
        lemma_first_spelling(rest, op);
        assert forall|j: int| 0 <= j < first_spelling(tokens, op) implies !spells(
            op,
            #[trigger] tokens[j],
        ) by {
            if j > 0 {
                assert(tokens[j] == rest[j - 1]);
            }
        }
    }
}

/// An index with no spelling before it, and a spelling at it unless it is
/// the end, is the first spelling.
proof fn lemma_first_spelling_is(tokens: Seq<Seq<char>>, op: Operator, i: int)
    requires
        0 <= i <= tokens.len(),
        forall|j: int| 0 <= j < i ==> !spells(op, #[trigger] tokens[j]),
        i < tokens.len() ==> spells(op, tokens[i]),
    ensures
        first_spelling(tokens, op) == i,
{
    lemma_first_spelling(tokens, op);
    let f = first_spelling(tokens, op);
    if f < i {
        assert(!spells(op, tokens[f]));
    }
}

/// Planning loses nothing: the command followed by the plan's tail is the
/// token sequence again; without a redirection the command is all of it;
/// and with one, the tail starts at the operator that the plan names.
pub proof fn lemma_plan_partitions(tokens: Seq<Seq<char>>)
    ensures
        plan_spec(tokens).0 + plan_spec(tokens).1.tail() == tokens,
        plan_spec(tokens).1 is Unredirected ==> plan_spec(tokens).0 == tokens,
        plan_spec(tokens).1 is AppendStderr ==> spells(
            Operator::AppendStdErr,
            plan_spec(tokens).1.tail()[0],
        ),
        plan_spec(tokens).1 is ReplaceStderr ==> spells(
            Operator::RedirectStdErr,
            plan_spec(tokens).1.tail()[0],
        ),
        plan_spec(tokens).1 is AppendStdout ==> spells(
            Operator::AppendStdOut,
            plan_spec(tokens).1.tail()[0],
        ),
        plan_spec(tokens).1 is ReplaceStdout ==> spells(
            Operator::RedirectStdOut,
            plan_spec(tokens).1.tail()[0],
        ),
{
    lemma_first_spelling(tokens, Operator::AppendStdErr);
    lemma_first_spelling(tokens, Operator::RedirectStdErr);
    lemma_first_spelling(tokens, Operator::AppendStdOut);
    lemma_first_spelling(tokens, Operator::RedirectStdOut);
    let (cmd, plan) = plan_spec(tokens);
    assert(cmd + plan.tail() =~= tokens);
}

fn token_spells(op: Operator, token: &str) -> (r: bool)
    ensures
        r == spells(op, token@),
{
    match op {
        Operator::AppendStdErr => same_text(token, "2>>"),
        Operator::RedirectStdErr => same_text(token, "2>"),
        Operator::AppendStdOut => same_text(token, ">>") || same_text(token, "1>>"),
        Operator::RedirectStdOut => same_text(token, ">") || same_text(token, "1>"),
    }
}

fn find_operator(tokens: &Vec<String>, op: Operator) -> (r: usize)
    ensures
        r == first_spelling(tokens.deep_view(), op),
        r <= tokens.len(),
{
    let mut i: usize = 0;
    while i < tokens.len() && !token_spells(op, tokens[i].as_str())
        invariant
            i <= tokens.len(),
            forall|j: int| 0 <= j < i ==> !spells(op, #[trigger] tokens.deep_view()[j]),
        decreases tokens.len() - i,
    {
        i += 1;
    }
    proof {
        lemma_first_spelling_is(tokens.deep_view(), op, i as int);
    }
    i
}

fn cut(parts: Vec<String>, at: usize) -> (r: (Vec<String>, Vec<String>))
    requires
        at <= parts.len(),
    ensures
        r.0.deep_view() == parts.deep_view().take(at as int),
        r.1.deep_view() == parts.deep_view().skip(at as int),
{
    let mut head = parts;
    let tail = head.split_off(at);
    assert(head.deep_view() =~= parts.deep_view().take(at as int));
    assert(tail.deep_view() =~= parts.deep_view().skip(at as int));
    (head, tail)
}

/// Splits a token sequence into the command and where its output goes.
/// Total: a sequence without a redirection is all command.
pub fn plan_redirection(parts: Vec<String>) -> (r: (Vec<String>, Output))
    ensures
        (r.0.deep_view(), r.1@) == plan_spec(parts.deep_view()),
{
    let n = parts.len();
    let a = find_operator(&parts, Operator::AppendStdErr);
    if a < n {
        let (head, tail) = cut(parts, a);
        return (head, Output::AppendStdErr(tail));
    }
    let b = find_operator(&parts, Operator::RedirectStdErr);
    if b < n {
        let (head, tail) = cut(parts, b);
        return (head, Output::RedirectStdErr(tail));
    }
    let c = find_operator(&parts, Operator::AppendStdOut);
    if c < n {
        let (head, tail) = cut(parts, c);
        return (head, Output::AppendStdOut(tail));
    }
    let d = find_operator(&parts, Operator::RedirectStdOut);
    if d < n {
        let (head, tail) = cut(parts, d);
        return (head, Output::RedirectStdOut(tail));
    }
    (parts, Output::StdOut)
}

} // verus!
