//! Splitting one input line into argument strings, honouring quotes and
//! backslash escapes.

use crate::text::push_char;
use vstd::prelude::*;

verus! {

/// Which quote, if any, the scanner is inside.
#[derive(Debug, Clone, Copy, PartialEq, Eq, Structural)]
pub enum Quote {
    Unquoted,
    Single,
    Double,
}

/// The scanner's state between two characters.
pub struct Scan {
    /// The quote that is open.
    pub quote: Quote,
    /// Whether the character just read was a backslash that escapes the next one.
    pub escaped: bool,
    /// The token being built.
    pub current: Seq<char>,
    /// The tokens finished so far.
    pub tokens: Seq<Seq<char>>,
}

/// The state before the first character.
pub open spec fn scan_start() -> Scan {
    Scan { quote: Quote::Unquoted, escaped: false, current: Seq::empty(), tokens: Seq::empty() }
}

/// Whether a backslash inside double quotes gives up its own place to `c`.
pub open spec fn double_quote_escapable(c: char) -> bool {
    c == '\\' || c == '$' || c == '"' || c == '\n'
}

/// The state after reading `c`.
///
/// * After an escaping backslash outside quotes, `c` is taken literally.
/// * After one inside double quotes, `c` is taken literally if it is one of
///   backslash, dollar, double quote or newline; otherwise both the backslash
///   and `c` are kept.
/// * A backslash outside quotes or inside double quotes escapes what follows.
/// * A quote character opens its quote when none is open, and closes it when
///   it is the one that is open.
/// * A space outside quotes ends the current token, if there is one.
/// * Anything else joins the current token.
pub open spec fn scan_step(st: Scan, c: char) -> Scan {
    if st.escaped {
        if st.quote == Quote::Double && !double_quote_escapable(c) {
            Scan { escaped: false, current: st.current.push('\\').push(c), ..st }
        } else {
            Scan { escaped: false, current: st.current.push(c), ..st }
        }
    } else if c == '\\' && st.quote != Quote::Single {
        Scan { escaped: true, ..st }
    } else if st.quote == Quote::Unquoted && c == '\'' {
        Scan { quote: Quote::Single, ..st }
    } else if st.quote == Quote::Unquoted && c == '"' {
        Scan { quote: Quote::Double, ..st }
    } else if (st.quote == Quote::Double && c == '"') || (st.quote == Quote::Single && c == '\'') {
        Scan { quote: Quote::Unquoted, ..st }
    } else if st.quote == Quote::Unquoted && c == ' ' {
        if st.current.len() > 0 {
            Scan { current: Seq::empty(), tokens: st.tokens.push(st.current), ..st }
        } else {
            st
        }
    } else {
        Scan { current: st.current.push(c), ..st }
    }
}

/// The state after reading all of `line`.
pub open spec fn scan_line(line: Seq<char>) -> Scan {
    line.fold_left(scan_start(), |st: Scan, c: char| scan_step(st, c))
}

/// The tokens of a line: those finished while scanning, then the one still
/// being built at the end, if it is not empty. An unterminated quote and a
/// trailing backslash are accepted; the backslash adds nothing.
pub open spec fn tokenize_spec(line: Seq<char>) -> Seq<Seq<char>> {
    let end = scan_line(line);
    if end.current.len() > 0 {
        end.tokens.push(end.current)
    } else {
        end.tokens
    }
}

/// Whether no finished token is empty.
pub open spec fn tokens_nonempty(tokens: Seq<Seq<char>>) -> bool {
    forall|i: int| 0 <= i < tokens.len() ==> (#[trigger] tokens[i]).len() > 0
}

/// Scanning never finishes an empty token.
pub proof fn lemma_scan_tokens_nonempty(line: Seq<char>)
    ensures
        tokens_nonempty(scan_line(line).tokens),
    decreases line.len(),
{
    if line.len() > 0 {
        lemma_scan_tokens_nonempty(line.drop_last());
        let before = scan_line(line.drop_last());
        assert(scan_line(line) == scan_step(before, line.last()));
    }
}

/// No token of a line is empty.
pub proof fn lemma_tokens_nonempty(line: Seq<char>)
    ensures
        tokens_nonempty(tokenize_spec(line)),
{
    lemma_scan_tokens_nonempty(line);
}

/// The tokens depend on the line alone: the same line always has the same
/// tokens.
pub proof fn lemma_tokenize_deterministic(first: Seq<char>, second: Seq<char>)
    requires
        first == second,
    ensures
        tokenize_spec(first) == tokenize_spec(second),
{
}

/// An empty line has no tokens.
pub proof fn lemma_tokenize_empty()
    ensures
        tokenize_spec(Seq::empty()) == Seq::<Seq<char>>::empty(),
{
}

/// The scan is a single pass: scanning a line in two parts is scanning the
/// whole, the second part going on from where the first one stopped.
pub proof fn lemma_scan_continues(first: Seq<char>, second: Seq<char>)
    ensures
        scan_line(first + second) == second.fold_left(
            scan_line(first),
            |st: Scan, c: char| scan_step(st, c),
        ),
{
    let whole = first + second;
    let step = |st: Scan, c: char| scan_step(st, c);
    whole.lemma_fold_left_split(scan_start(), step, first.len() as int);
    assert(whole.subrange(0, first.len() as int) =~= first);
    assert(whole.subrange(first.len() as int, whole.len() as int) =~= second);
}

/// Splits a line into its tokens.
pub fn tokenize(input: &str) -> (result: Vec<String>)
    ensures
        result.deep_view() == tokenize_spec(input@),
        tokens_nonempty(result.deep_view()),
{
    proof {
        lemma_tokens_nonempty(input@);
    }
    let mut result: Vec<String> = Vec::new();
    let mut current = String::new();
    let mut quote = Quote::Unquoted;
    let mut escaped = false;
    let ghost step = |st: Scan, c: char| scan_step(st, c);
    for c in it: input.chars()
        invariant
            it.seq() == input@,
            step == (|st: Scan, c: char| scan_step(st, c)),
            it.seq().take(it.index()).fold_left(scan_start(), step).quote == quote,
            it.seq().take(it.index()).fold_left(scan_start(), step).escaped == escaped,
            it.seq().take(it.index()).fold_left(scan_start(), step).current == current@,
            it.seq().take(it.index()).fold_left(scan_start(), step).tokens
                == result.deep_view(),
    {
        let ghost before = it.seq().take(it.index()).fold_left(scan_start(), step);
        let ghost old_tokens = result.deep_view();
        if escaped {
            if quote == Quote::Double && !(c == '\\' || c == '$' || c == '"' || c == '\n') {
                push_char(&mut current, '\\');
            }
            push_char(&mut current, c);
            escaped = false;
        } else if c == '\\' && quote != Quote::Single {
            escaped = true;
        } else if quote == Quote::Unquoted && c == '\'' {
            quote = Quote::Single;
        } else if quote == Quote::Unquoted && c == '"' {
            quote = Quote::Double;
        } else if (quote == Quote::Double && c == '"') || (quote == Quote::Single && c == '\'') {
            quote = Quote::Unquoted;
        } else if quote == Quote::Unquoted && c == ' ' {
            if !current.as_str().is_empty() {
                result.push(current);
                current = String::new();
                assert(result.deep_view() =~= old_tokens.push(before.current));
            }
        } else {
            push_char(&mut current, c);
        }
        proof {
            let prefix = it.seq().take(it.index() + 1);
            assert(prefix.drop_last() == it.seq().take(it.index()));
            assert(prefix.last() == c);
            assert(result.deep_view() =~= scan_step(before, c).tokens);
        }
    }
    proof {
        assert(input@.take(input@.len() as int) == input@);
    }
    let ghost finished = result.deep_view();
    if !current.as_str().is_empty() {
        result.push(current);
        assert(result.deep_view() =~= finished.push(scan_line(input@).current));
    }
    result
}

} // verus!
