//! Interactive terminal element: scrollback lines, an editable input line and command history.

use vstd::prelude::*;
use std::collections::VecDeque;
use crate::input::event::{EventHandled, Key, Modifiers};
use crate::runtime::timestamp_now;
use crate::text::{
    char_index_at, chars_to_string, concat_strings, insert_chars, is_char_boundary, locate_byte,
    split_lines, str_byte_len, str_chars, text_lines, utf8_byte_len, utf8_len, ByteLocation,
    lemma_utf8_len_concat, lemma_text_lines_single,
};

verus! {

/// A line of terminal scrollback.
#[derive(Debug, Clone)]
pub struct TerminalLine {
    pub text: String,
    pub is_input: bool,
    pub timestamp: u64,
}

/// ANSI color codes.
#[derive(Debug, Clone, Copy, PartialEq, Eq, Structural)]
pub enum AnsiColor {
    Black,
    Red,
    Green,
    Yellow,
    Blue,
    Magenta,
    Cyan,
    White,
    BrightBlack,
    BrightRed,
    BrightGreen,
    BrightYellow,
    BrightBlue,
    BrightMagenta,
    BrightCyan,
    BrightWhite,
}

/// Terminal state.
#[derive(Debug, Clone, Copy, PartialEq, Eq, Structural)]
pub enum TerminalState {
    Ready,
    Running,
    Blocked,
    Disconnected,
}

/// Number of scrollback lines a terminal keeps.
pub const MAX_SCROLLBACK_LINES: usize = 1000;

/// A scrollback line as the model sees it: its text and whether it echoes input.
pub type LineModel = (Seq<char>, bool);

/// Mathematical model of the terminal element.
#[verifier::ext_equal]
pub struct TerminalElementModel {
    pub lines: Seq<LineModel>,
    pub input: Seq<char>,
    pub cursor: int,
    pub history: Seq<Seq<char>>,
    pub history_index: Option<int>,
    pub prompt: Seq<char>,
    pub focused: bool,
    pub connected: bool,
    pub dirty: bool,
}

/// Scrollback after appending `l`, dropping the oldest line when full.
pub open spec fn push_line(lines: Seq<LineModel>, l: LineModel) -> Seq<LineModel> {
    (if lines.len() >= MAX_SCROLLBACK_LINES { lines.drop_first() } else { lines }).push(l)
}

/// Scrollback after appending the output lines `texts` in order.
pub open spec fn push_output(lines: Seq<LineModel>, texts: Seq<Seq<char>>) -> Seq<LineModel>
    decreases texts.len(),
{
    if texts.len() == 0 {
        lines
    } else {
        push_line(push_output(lines, texts.drop_last()), (texts.last(), false))
    }
}

/// Effect of a navigation or editing key on the input line; the flag tells whether the key is handled.
pub open spec fn key_step(st: TerminalElementModel, key: Key) -> (TerminalElementModel, bool) {
    match key {
        Key::Enter => (
            if st.input.len() > 0 { TerminalElementModel { input: Seq::empty(), cursor: 0, ..st } } else { st },
            true,
        ),
        Key::Backspace => (
            if st.cursor > 0 {
                TerminalElementModel {
                    input: st.input.remove(char_index_at(st.input, st.cursor - 1)),
                    cursor: st.cursor - 1,
                    ..st
                }
            } else {
                st
            },
            true,
        ),
        Key::Delete => (
            if st.cursor < utf8_len(st.input) {
                TerminalElementModel { input: st.input.remove(char_index_at(st.input, st.cursor)), ..st }
            } else {
                st
            },
            true,
        ),
        Key::Left => (
            if st.cursor > 0 { TerminalElementModel { cursor: st.cursor - 1, ..st } } else { st },
            true,
        ),
        Key::Right => (
            if st.cursor < utf8_len(st.input) { TerminalElementModel { cursor: st.cursor + 1, ..st } } else { st },
            true,
        ),
        Key::Up => (
            if st.history.len() > 0 {
                match st.history_index {
                    Some(i) => if i > 0 {
                        TerminalElementModel {
                            history_index: Some(i - 1),
                            input: st.history[i - 1],
                            cursor: utf8_len(st.history[i - 1]) as int,
                            ..st
                        }
                    } else {
                        st
                    },
                    None => {
                        let i = st.history.len() - 1;
                        TerminalElementModel {
                            history_index: Some(i),
                            input: st.history[i],
                            cursor: utf8_len(st.history[i]) as int,
                            ..st
                        }
                    },
                }
            } else {
                st
            },
            true,
        ),
        Key::Down => (
            match st.history_index {
                Some(i) => if i < st.history.len() - 1 {
                    TerminalElementModel {
                        history_index: Some(i + 1),
                        input: st.history[i + 1],
                        cursor: utf8_len(st.history[i + 1]) as int,
                        ..st
                    }
                } else {
                    TerminalElementModel { history_index: None, input: Seq::empty(), cursor: 0, ..st }
                },
                None => st,
            },
            true,
        ),
        Key::Home => (TerminalElementModel { cursor: 0, ..st }, true),
        Key::End => (TerminalElementModel { cursor: utf8_len(st.input) as int, ..st }, true),
        _ => (st, false),
    }
}

/// History navigation: with no entry selected, Up selects the most recent
/// command; with an entry selected, Up moves to the one before it (staying
/// on the oldest) and Down to the one after it (leaving the history after
/// the most recent). The selected command becomes the input, with the
/// cursor at its end; Down with nothing selected changes nothing.
pub proof fn lemma_history_navigation(st: TerminalElementModel)
    requires
        st.history_index matches Some(i) ==> 0 <= i < st.history.len(),
    ensures
        st.history.len() > 0 && st.history_index is None ==> {
            let next = key_step(st, Key::Up).0;
            &&& next.history_index == Some(st.history.len() - 1)
            &&& next.input == st.history.last()
            &&& next.cursor == utf8_len(st.history.last())
        },
        st.history_index is Some && st.history_index->0 > 0 ==> {
            let i = st.history_index->0;
            let next = key_step(st, Key::Up).0;
            &&& next.history_index == Some(i - 1)
            &&& next.input == st.history[i - 1]
        },
        st.history_index == Some(0int) ==> key_step(st, Key::Up).0 == st,
        st.history_index is Some && st.history_index->0 + 1 < st.history.len() ==> {
            let i = st.history_index->0;
            let next = key_step(st, Key::Down).0;
            &&& next.history_index == Some(i + 1)
            &&& next.input == st.history[i + 1]
        },
        st.history_index is Some && st.history_index->0 + 1 == st.history.len() ==> {
            let next = key_step(st, Key::Down).0;
            &&& next.history_index is None
            &&& next.input.len() == 0
        },
        st.history_index is None ==> key_step(st, Key::Down).0 == st,
        st.history_index is Some && st.history_index->0 > 0 ==> {
            let i = st.history_index->0;
            let back = key_step(key_step(st, Key::Up).0, Key::Down).0;
            &&& back.history_index == st.history_index
            &&& back.input == st.history[i]
        },
{
}

/// Cursor keys on the input line: Left moves one byte back and Right one
/// byte forward (staying within the line), Home to its start and End to its
/// end; Enter clears a non-empty line; none of them touches the history,
/// and every other key outside the editing keys is not handled.
pub proof fn lemma_input_line_keys(st: TerminalElementModel)
    requires
        0 <= st.cursor <= utf8_len(st.input),
    ensures
        key_step(st, Key::Left).0.cursor == (if st.cursor > 0 { st.cursor - 1 } else { 0 }),
        key_step(st, Key::Right).0.cursor == (if st.cursor < utf8_len(st.input) { st.cursor + 1 } else { utf8_len(st.input) as int }),
        key_step(st, Key::Home).0.cursor == 0,
        key_step(st, Key::End).0.cursor == utf8_len(st.input),
        key_step(st, Key::Left).0.input == st.input && key_step(st, Key::Right).0.input == st.input,
        key_step(st, Key::Home).0.input == st.input && key_step(st, Key::End).0.input == st.input,
        key_step(st, Key::Enter).0.input.len() == 0 && key_step(st, Key::Enter).0.cursor == 0,
        key_step(st, Key::Left).0.history == st.history && key_step(st, Key::Right).0.history == st.history,
        key_step(st, Key::Enter).0.history == st.history,
        key_step(st, Key::F1) == (st, false),
        key_step(st, Key::Left).1 && key_step(st, Key::Right).1 && key_step(st, Key::Up).1 && key_step(st, Key::Down).1,
{
}

/// The key does not delete at a byte offset that falls inside a character's encoding.
pub open spec fn key_step_ok(st: TerminalElementModel, key: Key) -> bool {
    match key {
        Key::Backspace => st.cursor > 0 ==> is_char_boundary(st.input, st.cursor - 1),
        Key::Delete => st.cursor < utf8_len(st.input) ==> is_char_boundary(st.input, st.cursor),
        _ => true,
    }
}

/// Effect of a key press on a terminal (Ctrl+C interrupts, Ctrl+L clears, other keys edit the input).
pub open spec fn key_down(st: TerminalElementModel, key: Key, control: bool) -> (TerminalElementModel, EventHandled) {
    if !st.focused {
        (st, EventHandled::No)
    } else if control && key == Key::C {
        (
            TerminalElementModel {
                lines: push_line(st.lines, (seq!['^', 'C'], false)),
                input: Seq::empty(),
                cursor: 0,
                dirty: true,
                ..st
            },
            EventHandled::Yes,
        )
    } else if control && key == Key::L {
        (TerminalElementModel { lines: Seq::empty(), dirty: true, ..st }, EventHandled::Yes)
    } else {
        let (next, handled) = key_step(st, key);
        if handled {
            (TerminalElementModel { dirty: true, ..next }, EventHandled::Yes)
        } else {
            (st, EventHandled::No)
        }
    }
}

/// Interactive terminal element.
pub struct Terminal {
    lines: VecDeque<TerminalLine>,
    max_lines: usize,
    input_buffer: Vec<char>,
    cursor_position: usize,
    history: Vec<String>,
    history_index: Option<usize>,
    prompt: String,
    is_focused: bool,
    connected: bool,
    dirty: bool,
}

impl View for Terminal {
    type V = TerminalElementModel;

    closed spec fn view(&self) -> TerminalElementModel {
        TerminalElementModel {
            lines: self.lines@.map_values(|l: TerminalLine| (l.text@, l.is_input)),
            input: self.input_buffer@,
            cursor: self.cursor_position as int,
            history: self.history@.map_values(|h: String| h@),
            history_index: match self.history_index {
                Some(i) => Some(i as int),
                None => None,
            },
            prompt: self.prompt@,
            focused: self.is_focused,
            connected: self.connected,
            dirty: self.dirty,
        }
    }
}

impl Terminal {
    /// The cursor lies within the input line, which fits in memory; the
    /// history position, if any, names a history entry; the scrollback is bounded.
    pub open spec fn wf(&self) -> bool {
        &&& self@.cursor <= utf8_len(self@.input)
        &&& utf8_len(self@.input) <= isize::MAX
        &&& (self@.history_index matches Some(i) ==> 0 <= i < self@.history.len())
        &&& self@.lines.len() <= MAX_SCROLLBACK_LINES
    }

    pub closed spec fn max_lines_field(&self) -> usize {
        self.max_lines
    }

    pub fn new() -> (t: Self)
        ensures
            t.wf(),
            t@.lines == Seq::<LineModel>::empty(),
            t@.input == Seq::<char>::empty(),
            t@.cursor == 0,
            t@.history == Seq::<Seq<char>>::empty(),
            t@.history_index is None,
            t@.prompt == seq!['$', ' '],
            !t@.focused,
            !t@.connected,
            !t@.dirty,
    {
        let mut prompt_chars: Vec<char> = Vec::new();
        prompt_chars.push('$');
        prompt_chars.push(' ');
        let t = Terminal {
            lines: VecDeque::new(),
            max_lines: MAX_SCROLLBACK_LINES,
            input_buffer: Vec::new(),
            cursor_position: 0,
            history: Vec::new(),
            history_index: None,
            prompt: chars_to_string(prompt_chars.as_slice()),
            is_focused: false,
            connected: false,
            dirty: false,
        };
        proof {
            assert(t@.lines =~= Seq::<LineModel>::empty());
            assert(t@.history =~= Seq::<Seq<char>>::empty());
            assert(t@.prompt =~= seq!['$', ' ']);
            assert(utf8_len(Seq::<char>::empty()) == 0);
        }
        t
    }

    /// Appends a scrollback line, dropping the oldest one when the scrollback is full.
    pub fn add_line(&mut self, line: TerminalLine)
        requires
            old(self).wf(),
        ensures
            final(self).wf(),
            final(self)@ == (TerminalElementModel {
                lines: push_line(old(self)@.lines, (line.text@, line.is_input)),
                dirty: true,
                ..old(self)@
            }),
    {
        if self.lines.len() >= MAX_SCROLLBACK_LINES {
            self.lines.pop_front();
        }
        self.lines.push_back(line);
        self.dirty = true;
        proof {
            assert(self@.lines =~= push_line(old(self)@.lines, (line.text@, line.is_input)));
            assert(self@ =~= TerminalElementModel {
                lines: push_line(old(self)@.lines, (line.text@, line.is_input)),
                dirty: true,
                ..old(self)@
            });
        }
    }

    /// Appends each line of `text` as an output line.
    pub fn add_output(&mut self, text: String)
        requires
            old(self).wf(),
        ensures
            final(self).wf(),
            final(self)@ == (TerminalElementModel {
                lines: push_output(old(self)@.lines, text_lines(text@)),
                dirty: old(self)@.dirty || text_lines(text@).len() > 0,
                ..old(self)@
            }),
    {
        let chars = str_chars(text.as_str());
        let pieces = split_lines(&chars);
        let ghost texts = text_lines(text@);
        let mut i: usize = 0;
        proof {
            assert(texts.take(0) =~= Seq::<Seq<char>>::empty());
        }
        while i < pieces.len()
            invariant
                0 <= i <= pieces@.len(),
                pieces@.len() == texts.len(),
                forall|j: int| 0 <= j < pieces@.len() ==> #[trigger] pieces@[j]@ == texts[j],
                self.wf(),
                self@ == (TerminalElementModel {
                    lines: push_output(old(self)@.lines, texts.take(i as int)),
                    dirty: old(self)@.dirty || i > 0,
                    ..old(self)@
                }),
            decreases pieces@.len() - i,
        {
            let line = TerminalLine {
                text: chars_to_string(pieces[i].as_slice()),
                is_input: false,
                timestamp: timestamp_now(),
            };
            proof {
                assert(texts.take(i + 1).drop_last() =~= texts.take(i as int));
                assert(texts.take(i + 1).last() == texts[i as int]);
            }
            self.add_line(line);
            i = i + 1;
        }
        proof {
            assert(texts.take(texts.len() as int) =~= texts);
        }
    }

    /// Records `command` in the history and echoes it after the prompt.  When
    /// the terminal is connected, returns what has to be sent (the command and a
    /// newline); otherwise reports in the scrollback that the terminal is not connected.
    pub fn execute_command(&mut self, command: String) -> (send: Option<String>)
        requires
            old(self).wf(),
        ensures
            final(self).wf(),
            final(self)@.history == old(self)@.history.push(command@),
            final(self)@.history_index is None,
            final(self)@.input == old(self)@.input,
            final(self)@.cursor == old(self)@.cursor,
            final(self)@.prompt == old(self)@.prompt,
            final(self)@.focused == old(self)@.focused,
            final(self)@.connected == old(self)@.connected,
            final(self)@.dirty,
            old(self)@.connected ==> {
                &&& send matches Some(s) && s@ == command@.push('\n')
                &&& final(self)@.lines == push_line(old(self)@.lines, (old(self)@.prompt + command@, true))
            },
            !old(self)@.connected ==> {
                &&& send is None
                &&& final(self)@.lines == push_output(
                    push_line(old(self)@.lines, (old(self)@.prompt + command@, true)),
                    seq![not_connected_message()],
                )
            },
    {
        let echo = concat_strings(self.prompt.as_str(), command.as_str());
        let mut cmd_chars = str_chars(command.as_str());
        self.history.push(command);
        self.history_index = None;
        proof {
            assert(self@.history =~= old(self)@.history.push(cmd_chars@));
        }
        self.add_line(TerminalLine { text: echo, is_input: true, timestamp: timestamp_now() });
        if self.connected {
            cmd_chars.push('\n');
            Some(chars_to_string(cmd_chars.as_slice()))
        } else {
            let msg = not_connected_text();
            let ghost before = self@.lines;
            self.add_output(msg);
            proof {
                reveal_strlit("Terminal not connected. Use 'connect' to establish connection.");
                let m = not_connected_message();
                assert(forall|i: int| 0 <= i < m.len() ==> m[i] != '\n');
                lemma_text_lines_single(m);
                assert(seq![m].drop_last() =~= Seq::<Seq<char>>::empty());
                assert(push_output(before, Seq::<Seq<char>>::empty()) == before);
                assert(seq![m].last() == m);
                assert(push_output(before, seq![m]) == push_line(before, (m, false)));
            }
            None
        }
    }

    /// Records that the terminal is connected and says so in the scrollback.
    pub fn record_connection(&mut self)
        requires
            old(self).wf(),
        ensures
            final(self).wf(),
            final(self)@ == (TerminalElementModel {
                lines: push_line(old(self)@.lines, (connected_message(), false)),
                connected: true,
                dirty: true,
                ..old(self)@
            }),
    {
        self.connected = true;
        self.add_line(TerminalLine { text: connected_text(), is_input: false, timestamp: timestamp_now() });
    }

    /// Removes every scrollback line.
    pub fn clear(&mut self)
        requires
            old(self).wf(),
        ensures
            final(self).wf(),
            final(self)@ == (TerminalElementModel { lines: Seq::empty(), dirty: true, ..old(self)@ }),
    {
        self.lines.clear();
        self.dirty = true;
        proof {
            assert(self@.lines =~= Seq::<LineModel>::empty());
        }
    }

    /// Gives the terminal the keyboard focus.
    pub fn focus(&mut self)
        requires
            old(self).wf(),
        ensures
            final(self).wf(),
            final(self)@ == (TerminalElementModel { focused: true, ..old(self)@ }),
    {
        self.is_focused = true;
    }

    /// Handles a navigation or editing key on the input line.
    pub fn handle_key_input(&mut self, key: Key) -> (handled: bool)
        requires
            old(self).wf(),
            key_step_ok(old(self)@, key),
        ensures
            final(self).wf(),
            final(self)@ == key_step(old(self)@, key).0,
            handled == key_step(old(self)@, key).1,
    {
        let ghost st = self@;
        match key {
            Key::Enter => {
                if self.input_buffer.len() > 0 {
                    self.input_buffer.clear();
                    self.cursor_position = 0;
                }
                proof {
                    assert(utf8_len(Seq::<char>::empty()) == 0);
                    assert(self@ =~= key_step(st, key).0);
                }
                true
            },
            Key::Backspace => {
                if self.cursor_position > 0 {
                    match locate_byte(&self.input_buffer, self.cursor_position - 1) {
                        ByteLocation::Boundary(k) => {
                            self.input_buffer.remove(k);
                            proof {
                                let inp = st.input;
                                assert(inp =~= inp.take(k as int) + inp.skip(k as int));
                                assert(inp.take(k as int) + inp.skip(k as int + 1) =~= inp.remove(k as int));
                                assert(inp.skip(k as int) =~= seq![inp[k as int]] + inp.skip(k as int + 1));
                                lemma_utf8_len_concat(inp.take(k as int), inp.skip(k as int));
                                lemma_utf8_len_concat(seq![inp[k as int]], inp.skip(k as int + 1));
                                lemma_utf8_len_concat(inp.take(k as int), inp.skip(k as int + 1));
                                assert(seq![inp[k as int]].drop_last() =~= Seq::<char>::empty());
                            }
                        },
                        _ => {},
                    }
                    self.cursor_position = self.cursor_position - 1;
                }
                proof {
                    assert(self@ =~= key_step(st, key).0);
                }
                true
            },
            Key::Delete => {
                let len = utf8_byte_len(&self.input_buffer);
                if self.cursor_position < len {
                    match locate_byte(&self.input_buffer, self.cursor_position) {
                        ByteLocation::Boundary(k) => {
                            self.input_buffer.remove(k);
                            proof {
                                let inp = st.input;
                                assert(inp.take(k as int) + inp.skip(k as int + 1) =~= inp.remove(k as int));
                                assert(inp =~= inp.take(k as int) + (seq![inp[k as int]] + inp.skip(k as int + 1)));
                                lemma_utf8_len_concat(inp.take(k as int), seq![inp[k as int]] + inp.skip(k as int + 1));
                                lemma_utf8_len_concat(seq![inp[k as int]], inp.skip(k as int + 1));
                                lemma_utf8_len_concat(inp.take(k as int), inp.skip(k as int + 1));
                                assert(seq![inp[k as int]].drop_last() =~= Seq::<char>::empty());
                                assert(utf8_len(inp.take(k as int)) == self.cursor_position);
                            }
                        },
                        _ => {},
                    }
                }
                proof {
                    assert(self@ =~= key_step(st, key).0);
                }
                true
            },
            Key::Left => {
                if self.cursor_position > 0 {
                    self.cursor_position = self.cursor_position - 1;
                }
                proof {
                    assert(self@ =~= key_step(st, key).0);
                }
                true
            },
            Key::Right => {
                let len = utf8_byte_len(&self.input_buffer);
                if self.cursor_position < len {
                    self.cursor_position = self.cursor_position + 1;
                }
                proof {
                    assert(self@ =~= key_step(st, key).0);
                }
                true
            },
            Key::Up => {
                if self.history.len() > 0 {
                    match self.history_index {
                        Some(idx) => {
                            if idx > 0 {
                                self.load_history(idx - 1);
                            }
                        },
                        None => {
                            let idx = self.history.len() - 1;
                            self.load_history(idx);
                        },
                    }
                }
                proof {
                    assert(self@ =~= key_step(st, key).0);
                }
                true
            },
            Key::Down => {
                match self.history_index {
                    Some(idx) => {
                        if idx < self.history.len() - 1 {
                            self.load_history(idx + 1);
                        } else {
                            self.history_index = None;
                            self.input_buffer.clear();
                            self.cursor_position = 0;
                            proof {
                                assert(utf8_len(Seq::<char>::empty()) == 0);
                            }
                        }
                    },
                    None => {},
                }
                proof {
                    assert(self@ =~= key_step(st, key).0);
                }
                true
            },
            Key::Home => {
                self.cursor_position = 0;
                proof {
                    assert(self@ =~= key_step(st, key).0);
                }
                true
            },
            Key::End => {
                self.cursor_position = utf8_byte_len(&self.input_buffer);
                proof {
                    assert(self@ =~= key_step(st, key).0);
                }
                true
            },
            _ => false,
        }
    }

    /// Puts history entry `idx` on the input line, with the cursor at its end.
    fn load_history(&mut self, idx: usize)
        requires
            old(self).wf(),
            idx < old(self)@.history.len(),
        ensures
            final(self).wf(),
            final(self)@ == (TerminalElementModel {
                history_index: Some(idx as int),
                input: old(self)@.history[idx as int],
                cursor: utf8_len(old(self)@.history[idx as int]) as int,
                ..old(self)@
            }),
    {
        self.history_index = Some(idx);
        self.input_buffer = str_chars(self.history[idx].as_str());
        self.cursor_position = str_byte_len(self.history[idx].as_str());
        proof {
            assert(self@ =~= TerminalElementModel {
                history_index: Some(idx as int),
                input: old(self)@.history[idx as int],
                cursor: utf8_len(old(self)@.history[idx as int]) as int,
                ..old(self)@
            });
        }
    }

    /// Handles a key press (the keyboard part of event handling).
    pub fn handle_key_down(&mut self, key: Key, modifiers: Modifiers) -> (r: EventHandled)
        requires
            old(self).wf(),
            old(self)@.focused && !(modifiers.control && (key == Key::C || key == Key::L)) ==> key_step_ok(old(self)@, key),
        ensures
            final(self).wf(),
            final(self)@ == key_down(old(self)@, key, modifiers.control).0,
            r == key_down(old(self)@, key, modifiers.control).1,
    {
        let ghost st = self@;
        if !self.is_focused {
            return EventHandled::No;
        }
        if modifiers.control && key == Key::C {
            self.add_output(interrupt_text());
            self.input_buffer.clear();
            self.cursor_position = 0;
            proof {
                lemma_text_lines_single(seq!['^', 'C']);
                assert(seq![seq!['^', 'C']].drop_last() =~= Seq::<Seq<char>>::empty());
                assert(push_output(st.lines, Seq::<Seq<char>>::empty()) == st.lines);
                assert(seq![seq!['^', 'C']].last() == seq!['^', 'C']);
                assert(push_output(st.lines, seq![seq!['^', 'C']]) == push_line(st.lines, (seq!['^', 'C'], false)));
                assert(utf8_len(Seq::<char>::empty()) == 0);
                assert(self@ =~= key_down(st, key, modifiers.control).0);
            }
            return EventHandled::Yes;
        }
        if modifiers.control && key == Key::L {
            self.clear();
            return EventHandled::Yes;
        }
        if self.handle_key_input(key) {
            self.dirty = true;
            proof {
                assert(self@ =~= key_down(st, key, modifiers.control).0);
            }
            return EventHandled::Yes;
        }
        EventHandled::No
    }

    /// Handles typed text: inserts it at the cursor of a focused terminal.
    pub fn handle_text_input(&mut self, text: &str) -> (r: EventHandled)
        requires
            old(self).wf(),
            old(self)@.focused ==> is_char_boundary(old(self)@.input, old(self)@.cursor),
            old(self)@.focused ==> utf8_len(old(self)@.input) + utf8_len(text@) <= isize::MAX,
        ensures
            final(self).wf(),
            !old(self)@.focused ==> final(self)@ == old(self)@ && r == EventHandled::No,
            old(self)@.focused ==> r == EventHandled::Yes && final(self)@ == (TerminalElementModel {
                input: {
                    let k = char_index_at(old(self)@.input, old(self)@.cursor);
                    old(self)@.input.take(k) + text@ + old(self)@.input.skip(k)
                },
                cursor: old(self)@.cursor + utf8_len(text@),
                dirty: true,
                ..old(self)@
            }),
    {
        if !self.is_focused {
            return EventHandled::No;
        }
        let ghost st = self@;
        let t = str_chars(text);
        let n = str_byte_len(text);
        match locate_byte(&self.input_buffer, self.cursor_position) {
            ByteLocation::Boundary(k) => {
                insert_chars(&mut self.input_buffer, k, &t);
            },
            _ => {
                let len = self.input_buffer.len();
                proof {
                    let k = char_index_at(st.input, st.cursor);
                    crate::text::lemma_byte_offset_end(st.input);
                    crate::text::lemma_byte_offset_injective(st.input, k, st.input.len() as int);
                    assert(st.input.take(len as int) =~= st.input);
                    assert(st.input.skip(len as int) =~= Seq::<char>::empty());
                }
                insert_chars(&mut self.input_buffer, len, &t);
            },
        }
        self.cursor_position = self.cursor_position + n;
        self.dirty = true;
        proof {
            let k = char_index_at(st.input, st.cursor);
            let inp = st.input;
            assert(inp =~= inp.take(k) + inp.skip(k));
            lemma_utf8_len_concat(inp.take(k), inp.skip(k));
            lemma_utf8_len_concat(inp.take(k), text@);
            lemma_utf8_len_concat(inp.take(k) + text@, inp.skip(k));
            assert(self@ =~= TerminalElementModel {
                input: inp.take(k) + text@ + inp.skip(k),
                cursor: st.cursor + utf8_len(text@),
                dirty: true,
                ..st
            });
        }
        EventHandled::Yes
    }

    /// Splits `text` into colored runs (all of it in the default color).
    pub fn parse_ansi_color(&self, text: &str) -> (runs: Vec<(String, AnsiColor)>)
        ensures
            runs@.len() == 1,
            runs@[0].0@ == text@,
            runs@[0].1 == AnsiColor::White,
    {
        let mut runs: Vec<(String, AnsiColor)> = Vec::new();
        runs.push((chars_to_string(str_chars(text).as_slice()), AnsiColor::White));
        runs
    }
}

/// The scrollback text reporting a missing connection.
pub open spec fn not_connected_message() -> Seq<char> {
    "Terminal not connected. Use 'connect' to establish connection."@
}

/// The scrollback text reporting a connection.
pub open spec fn connected_message() -> Seq<char> {
    "Connected to Termux terminal via core/server channels"@
}

fn not_connected_text() -> (s: String)
    ensures
        s@ == not_connected_message(),
{
    String::from_str("Terminal not connected. Use 'connect' to establish connection.")
}

fn connected_text() -> (s: String)
    ensures
        s@ == connected_message(),
{
    String::from_str("Connected to Termux terminal via core/server channels")
}

fn interrupt_text() -> (s: String)
    ensures
        s@ == seq!['^', 'C'],
{
    let mut v: Vec<char> = Vec::new();
    v.push('^');
    v.push('C');
    chars_to_string(v.as_slice())
}

} // verus!
