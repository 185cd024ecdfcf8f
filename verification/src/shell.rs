//! The state of the line being edited, and the history of lines.
//!
//! Positions in the line count characters.

use crate::completion::{
    common_prefix, completions_of, completions_spec, lemma_completion_list_exists,
    lemma_longest_common_prefix_exists, longest_common_prefix,
};
use crate::text::{
    decimal, parse_i32, parse_i32_spec, push_char, starts_with, trim, trim_spec, words,
    words_spec,
};
use vstd::prelude::*;

verus! {

/// The line editor's state.
#[derive(Debug, PartialEq, Eq)]
pub struct Shell {
    input: String,
    cursor_pos: usize,
    last_key_was_tab: bool,
    history: Vec<String>,
    history_index: usize,
    temp_input: Option<String>,
}

/// The mathematical content of a [`Shell`].
pub struct ShellView {
    /// The line as typed so far.
    pub input: Seq<char>,
    /// How many characters of the line are before the cursor.
    pub cursor_pos: int,
    /// Whether the key before this one was the tab key.
    pub last_key_was_tab: bool,
    /// The lines recorded, oldest first.
    pub history: Seq<Seq<char>>,
    /// Which recorded line is shown; the number of lines when none is.
    pub history_index: int,
    /// The line that was being typed when the history was entered.
    pub temp_input: Option<Seq<char>>,
}

/// The text that clears the line the cursor is on.
pub open spec fn clear_line_text() -> Seq<char> {
    "\x1b[2K"@
}

/// The text that moves the cursor `n` columns to the left.
pub open spec fn cursor_left_text(n: nat) -> Seq<char> {
    "\x1b["@ + decimal(n) + "D"@
}

/// The text that clears the current line.
///
/// Trusted: formats `termion::clear::CurrentLine`, which writes the escape
/// character, `[`, and `2K`.
#[verifier::external_body]
fn clear_current_line() -> (s: String)
    ensures
        s@ == clear_line_text(),
{
    format!("{}", termion::clear::CurrentLine)
}

/// The text that moves the cursor left.
///
/// Trusted: formats `termion::cursor::Left`, which writes the escape
/// character, `[`, the count in decimal, and `D`.
#[verifier::external_body]
fn cursor_left(n: u16) -> (s: String)
    ensures
        s@ == cursor_left_text(n as nat),
{
    format!("{}", termion::cursor::Left(n))
}

impl ShellView {
    /// The shown line is one of the recorded ones, or none is shown.
    pub open spec fn wf(self) -> bool {
        0 <= self.history_index <= self.history.len() && 0 <= self.cursor_pos
    }

    /// Whether the cursor is inside the line or at its end.
    pub open spec fn cursor_in_line(self) -> bool {
        self.cursor_pos <= self.input.len()
    }

    /// The part of the line before the cursor.
    pub open spec fn partial(self) -> Seq<char> {
        self.input.take(self.cursor_pos)
    }

    /// The state with another line recorded. An empty line is not recorded.
    pub open spec fn add_to_history(self, cmd: Seq<char>) -> ShellView {
        if cmd.len() > 0 {
            ShellView {
                history: self.history.push(cmd),
                history_index: self.history.len() as int + 1,
                ..self
            }
        } else {
            self
        }
    }

    /// The state after stepping back in the history. Entering the history
    /// puts the line being typed aside; at the oldest line nothing moves.
    pub open spec fn history_prev(self) -> ShellView {
        if self.history.len() == 0 {
            self
        } else {
            let aside = if self.history_index == self.history.len() {
                Some(self.input)
            } else {
                self.temp_input
            };
            if self.history_index > 0 {
                ShellView {
                    temp_input: aside,
                    history_index: self.history_index - 1,
                    input: self.history[self.history_index - 1],
                    ..self
                }
            } else {
                ShellView { temp_input: aside, ..self }
            }
        }
    }

    /// The state after stepping forward in the history. Leaving the
    /// history brings back the line that was put aside. The cursor goes to
    /// the end of the line shown.
    pub open spec fn history_next(self) -> ShellView {
        if self.history_index < self.history.len() {
            let index = self.history_index + 1;
            if index == self.history.len() {
                let line = match self.temp_input {
                    Some(t) => t,
                    None => Seq::empty(),
                };
                ShellView {
                    history_index: index,
                    input: line,
                    temp_input: None,
                    cursor_pos: line.len() as int,
                    ..self
                }
            } else {
                ShellView {
                    history_index: index,
                    input: self.history[index],
                    cursor_pos: self.history[index].len() as int,
                    ..self
                }
            }
        } else {
            self
        }
    }

    /// The state with `line` as the line and the cursor at its end.
    pub open spec fn with_line(self, line: Seq<char>) -> ShellView {
        ShellView { input: line, cursor_pos: line.len() as int, ..self }
    }

    /// The state after completing the part before the cursor, and the new
    /// line if there is one. A single completion becomes the line. Of
    /// several, their longest common prefix becomes the line if it reaches
    /// beyond the cursor.
    pub open spec fn complete(self, names: Seq<Seq<char>>) -> (ShellView, Option<Seq<char>>) {
        let list = completions_spec(self.partial(), names);
        if list.len() == 0 {
            (self, None)
        } else if list.len() == 1 {
            (self.with_line(list[0]), Some(list[0]))
        } else {
            let common = longest_common_prefix(list);
            if common.len() > self.cursor_pos {
                (self.with_line(common), Some(common))
            } else {
                (self, None)
            }
        }
    }

    /// What is written to show the line again: the line is cleared, the
    /// prompt and the line are written, and the cursor is moved back from
    /// the end to its place.
    pub open spec fn redraw(self) -> Seq<char> {
        let move_back = self.input.len() - self.cursor_pos;
        "\r"@ + clear_line_text() + "$ "@ + self.input + if move_back > 0 {
            cursor_left_text((move_back % 0x10000) as nat)
        } else {
            Seq::empty()
        }
    }
}

/// A key as the line editor sees it.
#[derive(Debug, Clone, Copy, PartialEq, Eq, Structural)]
pub enum KeyPress {
    /// A character key; tab and the return key come as their characters.
    Char(char),
    Backspace,
    /// A character key pressed with the control key.
    Ctrl(char),
    /// Any other key.
    Other,
}

/// What the caller is to do after a key.
#[derive(Debug, PartialEq, Eq)]
pub enum Reaction {
    /// Nothing.
    Ignore,
    /// Write this text to the terminal.
    Show(String),
    /// Gather the names of the programs on the search path and call
    /// [`Shell::tab`] with them.
    Complete,
    /// Break the line and leave the shell with this status.
    Exit(i32),
    /// Break the line, run this line, and show the prompt again.
    Run(String),
}

/// The mathematical content of a [`Reaction`].
pub enum ReactionView {
    Ignore,
    Show(Seq<char>),
    Complete,
    Exit(i32),
    Run(Seq<char>),
}

impl View for Reaction {
    type V = ReactionView;

    open spec fn view(&self) -> ReactionView {
        match self {
            Reaction::Ignore => ReactionView::Ignore,
            Reaction::Show(t) => ReactionView::Show(t@),
            Reaction::Complete => ReactionView::Complete,
            Reaction::Exit(code) => ReactionView::Exit(*code),
            Reaction::Run(line) => ReactionView::Run(line@),
        }
    }
}

/// The status that a line asks the shell to leave with, if it does: a
/// line that, trimmed, begins with `exit`. The status is the line's second
/// word read as a number, and zero without such a number.
pub open spec fn exit_request(line: Seq<char>) -> Option<i32> {
    let trimmed = trim_spec(line);
    if "exit"@.is_prefix_of(trimmed) {
        let parts = words_spec(trimmed);
        if parts.len() > 1 {
            match parse_i32_spec(parts[1]) {
                Some(code) => Some(code),
                None => Some(0i32),
            }
        } else {
            Some(0i32)
        }
    } else {
        None
    }
}

/// The completions written side by side, two spaces after each.
pub open spec fn listing(list: Seq<Seq<char>>) -> Seq<char>
    decreases list.len(),
{
    if list.len() == 0 {
        Seq::empty()
    } else {
        listing(list.drop_last()) + list.last() + "  "@
    }
}

/// The prompt on a cleared line.
pub open spec fn prompt_text() -> Seq<char> {
    "\r"@ + clear_line_text() + "$ "@
}

impl ShellView {
    /// The state with the tab key forgotten.
    pub open spec fn untabbed(self) -> ShellView {
        ShellView { last_key_was_tab: false, ..self }
    }

    /// The state after typing `c` at the cursor.
    pub open spec fn insert(self, c: char) -> ShellView {
        ShellView {
            input: self.input.take(self.cursor_pos).push(c) + self.input.skip(self.cursor_pos),
            cursor_pos: self.cursor_pos + 1,
            last_key_was_tab: false,
            ..self
        }
    }

    /// The state after deleting the character before the cursor.
    pub open spec fn delete_back(self) -> ShellView {
        ShellView {
            input: self.input.remove(self.cursor_pos - 1),
            cursor_pos: self.cursor_pos - 1,
            last_key_was_tab: false,
            ..self
        }
    }

    /// The state after a key, and what the caller is to do.
    ///
    /// * Tab asks for the completion to be looked up.
    /// * Return leaves the shell if the line asks for it; otherwise the
    ///   line is handed over to be run and a new, empty line begins.
    /// * Any other character is typed at the cursor.
    /// * Backspace deletes before the cursor; at the start of the line it
    ///   does nothing.
    /// * Control-C leaves the shell with status zero.
    pub open spec fn handle_key(self, key: KeyPress) -> (ShellView, ReactionView) {
        match key {
            KeyPress::Char(c) => if c == '\t' {
                (self, ReactionView::Complete)
            } else if c == '\n' {
                match exit_request(self.input) {
                    Some(code) => (self.untabbed(), ReactionView::Exit(code)),
                    None => (
                        ShellView { input: Seq::empty(), cursor_pos: 0, ..self.untabbed() },
                        ReactionView::Run(self.input),
                    ),
                }
            } else {
                (self.insert(c), ReactionView::Show(self.insert(c).redraw()))
            },
            KeyPress::Backspace => if self.cursor_pos > 0 {
                (self.delete_back(), ReactionView::Show(self.delete_back().redraw()))
            } else {
                (self.untabbed(), ReactionView::Ignore)
            },
            KeyPress::Ctrl(c) => if c == 'c' {
                (self.untabbed(), ReactionView::Exit(0))
            } else {
                (self.untabbed(), ReactionView::Ignore)
            },
            KeyPress::Other => (self.untabbed(), ReactionView::Ignore),
        }
    }

    /// The state after the tab key, given the names to complete from, and
    /// the text to write.
    ///
    /// * Without a completion the bell rings.
    /// * A single completion becomes the line, with a space after it.
    /// * Of several, on a second tab in a row all are listed; on a first
    ///   tab their longest common prefix becomes the line if that reaches
    ///   beyond the cursor, and the bell rings if not.
    pub open spec fn tab(self, names: Seq<Seq<char>>) -> (ShellView, Seq<char>) {
        let list = completions_spec(self.partial(), names);
        let tabbed = ShellView { last_key_was_tab: true, ..self };
        if list.len() == 0 {
            (tabbed, "\r\x07"@)
        } else if list.len() == 1 {
            (tabbed.with_line(list[0] + " "@), tabbed.with_line(list[0] + " "@).redraw())
        } else if self.last_key_was_tab {
            (tabbed, "\r\n"@ + listing(list) + "\r\n"@ + self.redraw())
        } else {
            let common = longest_common_prefix(list);
            if common.len() > self.cursor_pos {
                (tabbed.with_line(common), tabbed.with_line(common).redraw())
            } else {
                (tabbed, "\x07"@)
            }
        }
    }
}

/// Stepping back into the history from the line being typed, and forward
/// again, brings that line back, with the cursor at its end.
pub proof fn lemma_history_back_and_forth(s: ShellView)
    requires
        s.wf(),
        s.history.len() > 0,
        s.history_index == s.history.len(),
    ensures
        s.history_prev().input == s.history.last(),
        s.history_prev().history_next() == (ShellView {
            cursor_pos: s.input.len() as int,
            temp_input: None,
            ..s
        }),
{
}

/// Walking through the history never leaves it, and never changes what is
/// recorded.
pub proof fn lemma_history_stays_in_range(s: ShellView)
    requires
        s.wf(),
    ensures
        s.history_prev().wf(),
        s.history_next().wf(),
        s.history_prev().history == s.history,
        s.history_next().history == s.history,
        s.history_prev().history_index == s.history_index || s.history_prev().history_index
            == s.history_index - 1,
        s.history_next().history_index == s.history_index || s.history_next().history_index
            == s.history_index + 1,
{
}

/// A recorded line is the newest one, and recording leaves the history.
pub proof fn lemma_recorded_line_is_last(s: ShellView, cmd: Seq<char>)
    requires
        s.wf(),
        cmd.len() > 0,
    ensures
        s.add_to_history(cmd).wf(),
        s.add_to_history(cmd).history.last() == cmd,
        s.add_to_history(cmd).history.len() == s.history.len() + 1,
        s.add_to_history(cmd).history_index == s.add_to_history(cmd).history.len(),
{
}

/// Backspace undoes typing: the line and the cursor are as before.
pub proof fn lemma_backspace_undoes_typing(s: ShellView, c: char)
    requires
        0 <= s.cursor_pos,
        s.cursor_in_line(),
    ensures
        s.insert(c).cursor_in_line(),
        s.insert(c).input.len() == s.input.len() + 1,
        s.insert(c).delete_back().input == s.input,
        s.insert(c).delete_back().cursor_pos == s.cursor_pos,
{
    let typed = s.insert(c);
    assert(typed.input.remove(s.cursor_pos) =~= s.input);
}

/// Completing leaves the cursor in the line, and a line that changes
/// begins with what was before the cursor: completion only ever adds to
/// the part already typed.
pub proof fn lemma_complete_extends(s: ShellView, names: Seq<Seq<char>>)
    requires
        0 <= s.cursor_pos,
        s.cursor_in_line(),
    ensures
        s.complete(names).0.cursor_in_line(),
        s.complete(names).1 matches Some(line) ==> s.complete(names).0.input == line
            && s.partial().is_prefix_of(line),
        s.complete(names).1 is None ==> s.complete(names).0 == s,
{
    let list = completions_spec(s.partial(), names);
    lemma_completion_list_exists(s.partial(), names);
    if list.len() == 1 {
        assert(list.contains(list[0]));
    } else if list.len() > 1 {
        let common = longest_common_prefix(list);
        if common.len() > s.cursor_pos {
            lemma_longest_common_prefix_exists(list);
            assert(list.contains(list[0]));
            assert(s.partial().is_prefix_of(list[0]));
            assert(common.is_prefix_of(list[0]));
            assert(s.partial() =~= common.take(s.cursor_pos));
        }
    }
}

impl View for Shell {
    type V = ShellView;

    closed spec fn view(&self) -> ShellView {
        ShellView {
            input: self.input@,
            cursor_pos: self.cursor_pos as int,
            last_key_was_tab: self.last_key_was_tab,
            history: self.history.deep_view(),
            history_index: self.history_index as int,
            temp_input: self.temp_input.deep_view(),
        }
    }
}

impl Shell {
    #[verifier::type_invariant]
    spec fn inv(self) -> bool {
        self.history_index <= self.history.len()
    }

    /// An empty line and an empty history.
    pub fn new() -> (r: Self)
        ensures
            r@ == (ShellView {
                input: Seq::empty(),
                cursor_pos: 0,
                last_key_was_tab: false,
                history: Seq::empty(),
                history_index: 0,
                temp_input: None,
            }),
    {
        let r = Shell {
            input: String::new(),
            cursor_pos: 0,
            last_key_was_tab: false,
            history: Vec::new(),
            history_index: 0,
            temp_input: None,
        };
        assert(r.history.deep_view() =~= Seq::empty());
        r
    }

    /// The line as typed so far.
    pub fn input(&self) -> (r: &String)
        ensures
            r@ == self@.input,
    {
        &self.input
    }

    /// How many characters of the line are before the cursor.
    pub fn cursor_pos(&self) -> (r: usize)
        ensures
            r == self@.cursor_pos,
    {
        self.cursor_pos
    }

    /// Whether the key before this one was the tab key.
    pub fn last_key_was_tab(&self) -> (r: bool)
        ensures
            r == self@.last_key_was_tab,
    {
        self.last_key_was_tab
    }

    /// The lines recorded, oldest first.
    pub fn history(&self) -> (r: &Vec<String>)
        ensures
            r.deep_view() == self@.history,
    {
        &self.history
    }

    /// Which recorded line is shown; the number of lines when none is.
    pub fn history_index(&self) -> (r: usize)
        ensures
            r == self@.history_index,
            self@.wf(),
    {
        proof {
            use_type_invariant(self);
        }
        self.history_index
    }

    /// Whether the cursor is inside the line or at its end.
    pub fn cursor_in_line(&self) -> (r: bool)
        ensures
            r == self@.cursor_in_line(),
    {
        self.cursor_pos <= self.input.as_str().unicode_len()
    }

    /// Records a line, unless it is empty, and leaves the history.
    pub fn add_to_history(&mut self, cmd: String)
        ensures
            final(self)@ == old(self)@.add_to_history(cmd@),
    {
        proof {
            use_type_invariant(&*self);
        }
        if !cmd.as_str().is_empty() {
            let ghost before = self.history.deep_view();
            // The list is taken out while it grows, so that the index is
            // never beyond it.
            let mut lines: Vec<String> = Vec::new();
            self.history_index = 0;
            core::mem::swap(&mut self.history, &mut lines);
            lines.push(cmd);
            core::mem::swap(&mut self.history, &mut lines);
            self.history_index = self.history.len();
            assert(self.history.deep_view() =~= before.push(cmd@));
        }
    }

    /// Steps back in the history.
    pub fn history_prev(&mut self)
        ensures
            final(self)@ == old(self)@.history_prev(),
    {
        proof {
            use_type_invariant(&*self);
        }
        if self.history.len() == 0 {
            return ;
        }
        if self.history_index == self.history.len() {
            self.temp_input = Some(self.input.clone());
        }
        if self.history_index > 0 {
            self.history_index -= 1;
            self.input = self.history[self.history_index].clone();
        }
    }

    /// Steps forward in the history.
    pub fn history_next(&mut self)
        ensures
            final(self)@ == old(self)@.history_next(),
    {
        proof {
            use_type_invariant(&*self);
        }
        if self.history_index < self.history.len() {
            self.history_index += 1;
            if self.history_index == self.history.len() {
                let mut aside: Option<String> = None;
                core::mem::swap(&mut self.temp_input, &mut aside);
                self.input = match aside {
                    Some(t) => t,
                    None => String::new(),
                };
            } else {
                self.input = self.history[self.history_index].clone();
            }
            self.cursor_pos = self.input.as_str().unicode_len();
        }
    }

    /// The completions of the part of the line before the cursor, among
    /// `names` and the shell's own commands.
    pub fn get_completions(&self, names: &[String]) -> (r: Vec<String>)
        requires
            self@.cursor_in_line(),
        ensures
            r.deep_view() == completions_spec(self@.partial(), names.deep_view()),
    {
        let partial = self.input.as_str().substring_char(0, self.cursor_pos);
        completions_of(partial, names)
    }

    /// Completes the part of the line before the cursor, and returns the
    /// new line if there is one.
    pub fn complete(&mut self, names: &[String]) -> (r: Option<String>)
        requires
            old(self)@.cursor_in_line(),
        ensures
            (final(self)@, r.deep_view()) == old(self)@.complete(names.deep_view()),
    {
        proof {
            use_type_invariant(&*self);
        }
        let completions = self.get_completions(names);
        if completions.len() == 0 {
            None
        } else if completions.len() == 1 {
            self.input = completions[0].clone();
            self.cursor_pos = self.input.as_str().unicode_len();
            Some(self.input.clone())
        } else {
            let common = self.find_common_prefix(completions.as_slice());
            let reach = common.as_str().unicode_len();
            if reach > self.cursor_pos {
                self.input = common;
                self.cursor_pos = reach;
                Some(self.input.clone())
            } else {
                None
            }
        }
    }

    /// The longest text that every completion begins with.
    pub fn find_common_prefix(&self, completions: &[String]) -> (r: String)
        ensures
            r@ == longest_common_prefix(completions.deep_view()),
    {
        common_prefix(completions)
    }

    /// The text that shows the line again.
    pub fn redraw_line(&self) -> (r: String)
        requires
            self@.cursor_in_line(),
        ensures
            r@ == self@.redraw(),
    {
        let char_count = self.input.as_str().unicode_len();
        let move_back = char_count - self.cursor_pos;
        let mut out = String::from_str("\r");
        let clear = clear_current_line();
        out.append(clear.as_str());
        out.append("$ ");
        out.append(self.input.as_str());
        if move_back > 0 {
            let left = cursor_left((move_back % 0x10000) as u16);
            out.append(left.as_str());
        } else {
            assert(out@ + Seq::<char>::empty() =~= out@);
        }
        out
    }

    /// Types `c` at the cursor.
    pub fn insert_char(&mut self, c: char)
        requires
            old(self)@.cursor_in_line(),
        ensures
            final(self)@ == old(self)@.insert(c),
            final(self)@.cursor_in_line(),
    {
        proof {
            use_type_invariant(&*self);
        }
        let len = self.input.as_str().unicode_len();
        let mut line = String::from_str(self.input.as_str().substring_char(0, self.cursor_pos));
        push_char(&mut line, c);
        line.append(self.input.as_str().substring_char(self.cursor_pos, len));
        assert(line@ =~= old(self)@.insert(c).input);
        // Counting the longer line shows that the new cursor position fits.
        let new_len = line.as_str().unicode_len();
        self.input = line;
        self.cursor_pos = self.cursor_pos + 1;
        self.last_key_was_tab = false;
    }

    /// Deletes the character before the cursor, if there is one.
    pub fn backspace(&mut self) -> (deleted: bool)
        requires
            old(self)@.cursor_in_line(),
        ensures
            deleted == (old(self)@.cursor_pos > 0),
            final(self)@ == (if deleted {
                old(self)@.delete_back()
            } else {
                old(self)@.untabbed()
            }),
            final(self)@.cursor_in_line(),
    {
        proof {
            use_type_invariant(&*self);
        }
        self.last_key_was_tab = false;
        if self.cursor_pos > 0 {
            let len = self.input.as_str().unicode_len();
            let mut line = String::from_str(
                self.input.as_str().substring_char(0, self.cursor_pos - 1),
            );
            line.append(self.input.as_str().substring_char(self.cursor_pos, len));
            assert(line@ =~= old(self)@.delete_back().input);
            self.input = line;
            self.cursor_pos = self.cursor_pos - 1;
            true
        } else {
            false
        }
    }

    /// Takes a key and says what the caller is to do.
    pub fn handle_key(&mut self, key: KeyPress) -> (r: Reaction)
        requires
            old(self)@.cursor_in_line(),
        ensures
            (final(self)@, r@) == old(self)@.handle_key(key),
            final(self)@.cursor_in_line(),
    {
        proof {
            use_type_invariant(&*self);
        }
        match key {
            KeyPress::Char(c) => {
                if c == '\t' {
                    Reaction::Complete
                } else if c == '\n' {
                    self.last_key_was_tab = false;
                    match exit_code(self.input.as_str()) {
                        Some(code) => Reaction::Exit(code),
                        None => {
                            let mut line = String::new();
                            core::mem::swap(&mut self.input, &mut line);
                            self.cursor_pos = 0;
                            Reaction::Run(line)
                        },
                    }
                } else {
                    self.insert_char(c);
                    Reaction::Show(self.redraw_line())
                }
            },
            KeyPress::Backspace => {
                if self.backspace() {
                    Reaction::Show(self.redraw_line())
                } else {
                    Reaction::Ignore
                }
            },
            KeyPress::Ctrl(c) => {
                self.last_key_was_tab = false;
                if c == 'c' {
                    Reaction::Exit(0)
                } else {
                    Reaction::Ignore
                }
            },
            KeyPress::Other => {
                self.last_key_was_tab = false;
                Reaction::Ignore
            },
        }
    }

    fn set_line(&mut self, line: String)
        ensures
            final(self)@ == old(self)@.with_line(line@),
            final(self)@.cursor_in_line(),
    {
        proof {
            use_type_invariant(&*self);
        }
        self.cursor_pos = line.as_str().unicode_len();
        self.input = line;
    }

    /// Completes the line on the tab key and returns the text to write.
    pub fn tab(&mut self, names: &[String]) -> (r: String)
        requires
            old(self)@.cursor_in_line(),
        ensures
            (final(self)@, r@) == old(self)@.tab(names.deep_view()),
            final(self)@.cursor_in_line(),
    {
        proof {
            use_type_invariant(&*self);
        }
        let completions = self.get_completions(names);
        let second_tab = self.last_key_was_tab;
        self.last_key_was_tab = true;
        if completions.len() == 0 {
            String::from_str("\r\x07")
        } else if completions.len() == 1 {
            let mut line = completions[0].clone();
            line.append(" ");
            self.set_line(line);
            self.redraw_line()
        } else if second_tab {
            let mut out = String::from_str("\r\n");
            let mut i: usize = 0;
            while i < completions.len()
                invariant
                    i <= completions.len(),
                    out@ == "\r\n"@ + listing(completions.deep_view().take(i as int)),
                decreases completions.len() - i,
            {
                proof {
                    let next = completions.deep_view().take(i + 1);
                    assert(next.drop_last() == completions.deep_view().take(i as int));
                    assert(next.last() == completions[i as int]@);
                }
                out.append(completions[i].as_str());
                out.append("  ");
                assert(out@ =~= "\r\n"@ + listing(completions.deep_view().take(i + 1)));
                i += 1;
            }
            assert(completions.deep_view().take(completions.len() as int)
                == completions.deep_view());
            out.append("\r\n");
            let again = self.redraw_line();
            out.append(again.as_str());
            assert(self@.redraw() == old(self)@.redraw());
            out
        } else {
            let common = self.find_common_prefix(completions.as_slice());
            if common.as_str().unicode_len() > self.cursor_pos {
                self.set_line(common);
                self.redraw_line()
            } else {
                String::from_str("\x07")
            }
        }
    }
}

/// The prompt on a cleared line.
pub fn prompt() -> (r: String)
    ensures
        r@ == prompt_text(),
{
    let mut out = String::from_str("\r");
    let clear = clear_current_line();
    out.append(clear.as_str());
    out.append("$ ");
    out
}

/// The status that a line asks the shell to leave with, if it does.
pub fn exit_code(line: &str) -> (r: Option<i32>)
    ensures
        r == exit_request(line@),
{
    let trimmed = trim(line);
    if starts_with(trimmed.as_str(), "exit") {
        let parts = words(trimmed.as_str());
        if parts.len() > 1 {
            match parse_i32(parts[1].as_str()) {
                Some(code) => Some(code),
                None => Some(0),
            }
        } else {
            Some(0)
        }
    } else {
        None
    }
}

} // verus!
