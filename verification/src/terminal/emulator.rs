//! Line-based terminal emulation: text written to a terminal becomes lines.

use vstd::prelude::*;
use crate::text::{byte_offset, char_index_at, chars_to_string, is_char_boundary, lemma_utf8_len_concat, locate_byte, str_chars, utf8_len, ByteLocation};
use crate::strings::{is_ascii_char, is_ascii_text};

verus! {

/// Number of lines a terminal keeps.
pub const MAX_TERMINAL_LINES: usize = 1000;

/// Mathematical model of an emulated terminal: its lines and cursor.
#[verifier::ext_equal]
pub struct TerminalModel {
    pub lines: Seq<Seq<char>>,
    pub row: int,
    pub col: int,
}

/// `line` with `ch` inserted at the character that starts at byte offset `col`.
pub open spec fn insert_at_byte(line: Seq<char>, col: int, ch: char) -> Seq<char> {
    let k = char_index_at(line, col);
    line.take(k).push(ch) + line.skip(k)
}

/// `n` spaces.
pub open spec fn spaces(n: nat) -> Seq<char> {
    Seq::new(n, |i: int| ' ')
}

/// Effect of writing one character; the flag is false when the write would
/// insert inside the encoding of a character (which is refused).
pub open spec fn emulate_char(st: TerminalModel, ch: char) -> (TerminalModel, bool) {
    if ch == '\n' {
        let lines = st.lines.push(Seq::<char>::empty());
        let row = st.row + 1;
        if lines.len() > MAX_TERMINAL_LINES {
            (
                TerminalModel {
                    lines: lines.subrange(1, lines.len() as int),
                    row: if row > 0 { row - 1 } else { row },
                    col: 0,
                },
                true,
            )
        } else {
            (TerminalModel { lines, row, col: 0 }, true)
        }
    } else if ch == '\r' {
        (TerminalModel { col: 0, ..st }, true)
    } else if ch == '\t' {
        let n = (4 - st.col % 4) as nat;
        let lines = if 0 <= st.row < st.lines.len() {
            st.lines.update(st.row, st.lines[st.row] + spaces(n))
        } else {
            st.lines
        };
        (TerminalModel { lines, row: st.row, col: st.col + n }, true)
    } else if 0 <= st.row < st.lines.len() {
        let line = st.lines[st.row];
        if st.col >= utf8_len(line) {
            (TerminalModel { lines: st.lines.update(st.row, line.push(ch)), row: st.row, col: st.col + 1 }, true)
        } else if is_char_boundary(line, st.col) {
            (
                TerminalModel {
                    lines: st.lines.update(st.row, insert_at_byte(line, st.col, ch)),
                    row: st.row,
                    col: st.col + 1,
                },
                true,
            )
        } else {
            (st, false)
        }
    } else {
        (st, true)
    }
}

/// Effect of writing `text`; the flag tells whether every character was accepted.
pub open spec fn emulate(st: TerminalModel, text: Seq<char>) -> (TerminalModel, bool)
    decreases text.len(),
{
    if text.len() == 0 {
        (st, true)
    } else {
        let (mid, ok) = emulate(st, text.drop_last());
        if ok {
            emulate_char(mid, text.last())
        } else {
            (mid, false)
        }
    }
}

/// A text accepted as a whole is accepted in each of its prefixes.
pub proof fn lemma_emulate_prefix_ok(st: TerminalModel, text: Seq<char>, i: int)
    requires
        emulate(st, text).1,
        0 <= i <= text.len(),
    ensures
        emulate(st, text.take(i)).1,
    decreases text.len(),
{
    if i < text.len() {
        lemma_emulate_prefix_ok(st, text.drop_last(), i);
        assert(text.drop_last().take(i) =~= text.take(i));
    } else {
        assert(text.take(i) =~= text);
    }
}

/// ASCII text without line feeds, carriage returns or tabs, written with the
/// cursor at the end of its line, is appended to that line and moves the
/// cursor past it.
pub proof fn lemma_write_appends(st: TerminalModel, text: Seq<char>)
    requires
        0 <= st.row < st.lines.len(),
        st.col == utf8_len(st.lines[st.row]),
        forall|i: int| 0 <= i < text.len() ==> (text[i] as u32) < 0x80 && text[i] != '\n' && text[i] != '\r' && text[i] != '\t',
    ensures
        emulate(st, text).1,
        emulate(st, text).0 == (TerminalModel {
            lines: st.lines.update(st.row, st.lines[st.row] + text),
            row: st.row,
            col: st.col + text.len(),
        }),
    decreases text.len(),
{
    if text.len() == 0 {
        assert(st.lines.update(st.row, st.lines[st.row] + text) =~= st.lines);
    } else {
        lemma_write_appends(st, text.drop_last());
        let mid = emulate(st, text.drop_last()).0;
        let line = st.lines[st.row] + text.drop_last();
        let ch = text.last();
        assert(ch == text[text.len() - 1]);
        crate::text::lemma_utf8_len_concat(st.lines[st.row], text.drop_last());
        assert(utf8_len(text.drop_last()) == text.drop_last().len()) by {
            lemma_ascii_utf8_len(text.drop_last());
        }
        assert(mid.lines[st.row] == line);
        assert(mid.col >= utf8_len(line));
        assert(line.push(ch) =~= st.lines[st.row] + text);
        assert(mid.lines.update(st.row, line.push(ch)) =~= st.lines.update(st.row, st.lines[st.row] + text));
    }
}

/// ASCII text has as many bytes as characters.
pub proof fn lemma_ascii_utf8_len(s: Seq<char>)
    requires
        forall|i: int| 0 <= i < s.len() ==> (s[i] as u32) < 0x80,
    ensures
        utf8_len(s) == s.len(),
    decreases s.len(),
{
    if s.len() > 0 {
        lemma_ascii_utf8_len(s.drop_last());
        assert(s.last() == s[s.len() - 1]);
    }
}

/// The shape a terminal keeps: between one and `MAX_TERMINAL_LINES` lines,
/// the cursor on the last line, and its byte column within that line.
pub open spec fn terminal_shape(st: TerminalModel) -> bool {
    &&& 1 <= st.lines.len() <= MAX_TERMINAL_LINES
    &&& st.row == st.lines.len() - 1
    &&& 0 <= st.col <= utf8_len(st.lines[st.row])
}

/// Every line holds only ASCII characters.
pub open spec fn ascii_lines(st: TerminalModel) -> bool {
    forall|r: int| 0 <= r < st.lines.len() ==> is_ascii_text(#[trigger] st.lines[r])
}

proof fn lemma_ascii_take(s: Seq<char>, k: int)
    requires
        is_ascii_text(s),
        0 <= k <= s.len(),
    ensures
        utf8_len(s.take(k)) == k,
        utf8_len(s) == s.len(),
{
    lemma_ascii_utf8_len(s.take(k));
    lemma_ascii_utf8_len(s);
}

/// Writing one accepted character keeps the terminal's shape.
proof fn lemma_emulate_char_shape(st: TerminalModel, ch: char)
    requires
        terminal_shape(st),
        emulate_char(st, ch).1,
    ensures
        terminal_shape(emulate_char(st, ch).0),
{
    if ch == '\n' {
    } else if ch == '\r' {
    } else if ch == '\t' {
        let n = (4 - st.col % 4) as nat;
        lemma_utf8_len_concat(st.lines[st.row], spaces(n));
        lemma_ascii_utf8_len(spaces(n));
    } else {
        let line = st.lines[st.row];
        if st.col >= utf8_len(line) {
            assert(line.push(ch).drop_last() =~= line);
        } else {
            let k = char_index_at(line, st.col);
            crate::text::lemma_char_index_at(line, st.col);
            let a = line.take(k);
            let b = line.skip(k);
            assert(a.push(ch).drop_last() =~= a);
            lemma_utf8_len_concat(a.push(ch), b);
            lemma_utf8_len_concat(a, b);
            assert(a + b =~= line);
            assert(insert_at_byte(line, st.col, ch) == a.push(ch) + b);
        }
    }
}

/// Writing accepted text keeps the terminal's shape: at least one and at
/// most `MAX_TERMINAL_LINES` lines, the cursor on the last line, and its
/// byte column within that line.
pub proof fn lemma_emulate_shape(st: TerminalModel, text: Seq<char>)
    requires
        terminal_shape(st),
        emulate(st, text).1,
    ensures
        terminal_shape(emulate(st, text).0),
    decreases text.len(),
{
    if text.len() > 0 {
        lemma_emulate_prefix_ok(st, text, text.len() - 1);
        assert(text.take(text.len() - 1) =~= text.drop_last());
        lemma_emulate_shape(st, text.drop_last());
        lemma_emulate_char_shape(emulate(st, text.drop_last()).0, text.last());
    }
}

/// Writing one ASCII character to a terminal of ASCII lines is accepted and
/// keeps its lines ASCII.
proof fn lemma_ascii_char_accepted(st: TerminalModel, ch: char)
    requires
        terminal_shape(st),
        ascii_lines(st),
        is_ascii_char(ch),
    ensures
        emulate_char(st, ch).1,
        ascii_lines(emulate_char(st, ch).0),
{
    let next = emulate_char(st, ch).0;
    if ch == '\n' {
        let lines = st.lines.push(Seq::<char>::empty());
        assert forall|r: int| 0 <= r < next.lines.len() implies is_ascii_text(#[trigger] next.lines[r]) by {
            if lines.len() > MAX_TERMINAL_LINES {
                assert(next.lines[r] == lines[r + 1]);
            }
        }
    } else if ch == '\r' {
    } else if ch == '\t' {
        let n = (4 - st.col % 4) as nat;
        assert(is_ascii_text(st.lines[st.row] + spaces(n)));
    } else {
        let line = st.lines[st.row];
        lemma_ascii_take(line, 0);
        if st.col >= utf8_len(line) {
            assert(is_ascii_text(line.push(ch)));
        } else {
            lemma_ascii_take(line, st.col);
            assert(byte_offset(line, st.col) == st.col);
            assert(is_char_boundary(line, st.col));
            crate::text::lemma_char_index_at(line, st.col);
            assert(is_ascii_text(insert_at_byte(line, st.col, ch)));
        }
    }
}

/// ASCII text written to a terminal in its shape whose lines are ASCII is
/// accepted as a whole, and the lines stay ASCII.
pub proof fn lemma_ascii_write_accepted(st: TerminalModel, text: Seq<char>)
    requires
        terminal_shape(st),
        ascii_lines(st),
        is_ascii_text(text),
    ensures
        emulate(st, text).1,
        terminal_shape(emulate(st, text).0),
        ascii_lines(emulate(st, text).0),
    decreases text.len(),
{
    if text.len() > 0 {
        lemma_ascii_write_accepted(st, text.drop_last());
        let mid = emulate(st, text.drop_last()).0;
        assert(is_ascii_char(text.last()));
        lemma_ascii_char_accepted(mid, text.last());
        lemma_emulate_char_shape(mid, text.last());
    }
}

/// A terminal that turns written text into lines.
pub struct Terminal {
    id: u128,
    lines: Vec<Vec<char>>,
    cursor_position: (usize, usize),
    max_lines: usize,
}

impl View for Terminal {
    type V = TerminalModel;

    closed spec fn view(&self) -> TerminalModel {
        TerminalModel {
            lines: self.lines@.map_values(|l: Vec<char>| l@),
            row: self.cursor_position.0 as int,
            col: self.cursor_position.1 as int,
        }
    }
}

impl Terminal {
    /// There is always a current line, the cursor is on the last line within
    /// it, and at most `MAX_TERMINAL_LINES` lines are kept.
    pub closed spec fn wf(&self) -> bool {
        &&& self.max_lines == MAX_TERMINAL_LINES
        &&& 1 <= self.lines@.len() <= MAX_TERMINAL_LINES
        &&& self.cursor_position.0 == self.lines@.len() - 1
        &&& self.cursor_position.1 <= utf8_len(self.lines@[self.lines@.len() - 1]@)
    }

    /// A well-formed terminal has the shape `terminal_shape` describes.
    pub proof fn lemma_shape(&self)
        requires
            self.wf(),
        ensures
            terminal_shape(self@),
    {
    }

    pub closed spec fn id(&self) -> u128 {
        self.id
    }

    pub fn new(id: u128) -> (t: Self)
        ensures
            t.wf(),
            t.id() == id,
            t@.lines == seq![Seq::<char>::empty()],
            t@.row == 0,
            t@.col == 0,
    {
        let mut lines: Vec<Vec<char>> = Vec::new();
        lines.push(Vec::new());
        let t = Terminal { id, lines, cursor_position: (0, 0), max_lines: MAX_TERMINAL_LINES };
        proof {
            assert(t@.lines =~= seq![Seq::<char>::empty()]);
        }
        t
    }

    /// Writes `text`: newlines open lines, carriage returns rewind the cursor,
    /// tabs advance to the next multiple of four, other characters are placed at the cursor.
    pub fn write(&mut self, text: String)
        requires
            old(self).wf(),
            emulate(old(self)@, text@).1,
            old(self)@.col + 4 * text@.len() + 4 <= usize::MAX,
        ensures
            final(self).wf(),
            final(self).id() == old(self).id(),
            final(self)@ == emulate(old(self)@, text@).0,
    {
        let chars = str_chars(text.as_str());
        let ghost st0 = self@;
        let mut i: usize = 0;
        while i < chars.len()
            invariant
                0 <= i <= chars.len(),
                chars@ == text@,
                self.wf(),
                self.id() == old(self).id(),
                emulate(st0, chars@.take(i as int)).1,
                self@ == emulate(st0, chars@.take(i as int)).0,
                emulate(st0, chars@).1,
                self@.col + 4 * (chars@.len() - i) + 4 <= usize::MAX,
            decreases chars.len() - i,
        {
            let ch = chars[i];
            proof {
                assert(chars@.take(i + 1).drop_last() =~= chars@.take(i as int));
                assert(chars@.take(i + 1).last() == ch);
                lemma_emulate_prefix_ok(st0, chars@, i + 1);
            }
            let ghost before = self@;
            self.write_char(ch);
            i = i + 1;
        }
        proof {
            assert(chars@.take(chars@.len() as int) =~= chars@);
        }
    }

    /// Writes one character.
    fn write_char(&mut self, ch: char)
        requires
            old(self).wf(),
            emulate_char(old(self)@, ch).1,
            old(self)@.col + 8 <= usize::MAX,
        ensures
            final(self).wf(),
            final(self).id() == old(self).id(),
            final(self)@ == emulate_char(old(self)@, ch).0,
            final(self)@.col <= old(self)@.col + 4,
    {
        let ghost st = self@;
        let row = self.cursor_position.0;
        if ch == '\n' {
            self.lines.push(Vec::new());
            self.cursor_position.0 = row + 1;
            self.cursor_position.1 = 0;
            if self.lines.len() > self.max_lines {
                self.lines.remove(0);
                if self.cursor_position.0 > 0 {
                    self.cursor_position.0 = self.cursor_position.0 - 1;
                }
            }
            proof {
                assert(self@.lines =~= emulate_char(st, ch).0.lines);
            }
        } else if ch == '\r' {
            self.cursor_position.1 = 0;
        } else if ch == '\t' {
            let n = 4 - (self.cursor_position.1 % 4);
            let ghost line0 = self.lines@[row as int]@;
            let mut j: usize = 0;
            while j < n
                invariant
                    0 <= j <= n <= 4,
                    n == 4 - st.col % 4,
                    row == st.row,
                    self.cursor_position.0 == row,
                    self.cursor_position.1 == st.col + j,
                    self.id == old(self).id,
                    self.max_lines == MAX_TERMINAL_LINES,
                    self.lines@.len() == st.lines.len(),
                    row < self.lines@.len(),
                    self.lines@[row as int]@ == line0 + spaces(j as nat),
                    forall|r: int| 0 <= r < self.lines@.len() && r != row ==> self.lines@[r] == old(self).lines@[r],
                    st.col + 8 <= usize::MAX,
                decreases n - j,
            {
                if row < self.lines.len() {
                    self.lines[row].push(' ');
                }
                self.cursor_position.1 = self.cursor_position.1 + 1;
                proof {
                    assert(line0 + spaces((j + 1) as nat) =~= (line0 + spaces(j as nat)).push(' '));
                }
                j = j + 1;
            }
            proof {
                assert(self@.lines =~= emulate_char(st, ch).0.lines);
            }
        } else {
            if row < self.lines.len() {
                let col = self.cursor_position.1;
                match locate_byte(&self.lines[row], col) {
                    ByteLocation::AtEnd => {
                        self.lines[row].push(ch);
                    },
                    ByteLocation::Boundary(k) => {
                        self.lines[row].insert(k, ch);
                        proof {
                            let line = st.lines[row as int];
                            assert(self.lines@[row as int]@ =~= insert_at_byte(line, col as int, ch));
                        }
                    },
                    ByteLocation::Inside => {},
                }
                self.cursor_position.1 = col + 1;
                proof {
                    assert(self@.lines =~= emulate_char(st, ch).0.lines);
                }
            }
        }
        proof {
            lemma_emulate_char_shape(st, ch);
        }
    }

    /// The lines written so far.
    pub fn read(&self) -> (lines: Vec<String>)
        ensures
            lines@.len() == self@.lines.len(),
            forall|i: int| 0 <= i < lines@.len() ==> #[trigger] lines@[i]@ == self@.lines[i],
    {
        let mut out: Vec<String> = Vec::new();
        let mut i: usize = 0;
        while i < self.lines.len()
            invariant
                0 <= i <= self.lines@.len(),
                out@.len() == i,
                forall|j: int| 0 <= j < i ==> #[trigger] out@[j]@ == self@.lines[j],
            decreases self.lines@.len() - i,
        {
            out.push(chars_to_string(self.lines[i].as_slice()));
            i = i + 1;
        }
        out
    }
}

} // verus!
