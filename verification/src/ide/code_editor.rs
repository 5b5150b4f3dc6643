//! Code editor: a line buffer with a cursor, optional vim-style modes, and keyword highlighting.

use vstd::prelude::*;
use std::collections::HashMap;
use std::ops::Range;
use crate::input::event::{EventHandled, Key};
use crate::strings::{is_ascii_char, is_ascii_text};
use crate::text::{
    char_index_at, char_len_utf8, chars_to_string, insert_chars, is_char_boundary, join_lines,
    join_with, lemma_text_lines_len_bound, lemma_utf8_len_concat, locate_byte, split_lines,
    str_byte_len, str_chars, text_lines, utf8_byte_len, utf8_len, ByteLocation, byte_offset,
    lemma_join_split, lemma_split_on_absent, lemma_split_on_last, lemma_split_on_nonempty, split_on, strip_cr,
};

verus! {

broadcast use vstd::std_specs::hash::group_hash_axioms;

/// Cursor position in the editor (line index and byte column).
#[derive(Debug, Clone, Copy)]
pub struct CursorPosition {
    pub line: usize,
    pub column: usize,
}

/// Selection range in the editor.
#[derive(Debug, Clone, Copy)]
pub struct Selection {
    pub start: CursorPosition,
    pub end: CursorPosition,
}

/// Syntax highlighting token: a byte range of a line.
#[derive(Debug, Clone, Copy, PartialEq, Eq, Structural)]
pub struct SyntaxToken {
    pub start: usize,
    pub end: usize,
    pub token_type: TokenType,
}

#[derive(Debug, Clone, Copy, PartialEq, Eq, Structural)]
pub enum TokenType {
    Keyword,
    String,
    Number,
    Comment,
    Function,
    Type,
    Variable,
    Operator,
    Punctuation,
    Plain,
}

/// Editor mode.
#[derive(Debug, Clone, Copy, PartialEq, Eq, Structural)]
pub enum EditorMode {
    Normal,
    Insert,
    Visual,
    Command,
}

/// Diagnostic message (error, warning, etc.).
#[derive(Debug, Clone)]
pub struct Diagnostic {
    pub line: usize,
    pub column: usize,
    pub severity: DiagnosticSeverity,
    pub message: String,
}

#[derive(Debug, Clone, Copy, PartialEq, Eq, Structural)]
pub enum DiagnosticSeverity {
    Error,
    Warning,
    Info,
    Hint,
}

/// The Rust keywords the editor highlights, in the order they are searched for.
pub open spec fn rust_keywords() -> Seq<Seq<char>> {
    seq![
        seq!['f', 'n'],
        seq!['l', 'e', 't'],
        seq!['m', 'u', 't'],
        seq!['i', 'm', 'p', 'l'],
        seq!['s', 't', 'r', 'u', 'c', 't'],
        seq!['e', 'n', 'u', 'm'],
        seq!['t', 'r', 'a', 'i', 't'],
        seq!['p', 'u', 'b'],
        seq!['u', 's', 'e'],
        seq!['m', 'o', 'd'],
        seq!['i', 'f'],
        seq!['e', 'l', 's', 'e'],
        seq!['m', 'a', 't', 'c', 'h'],
        seq!['f', 'o', 'r'],
        seq!['w', 'h', 'i', 'l', 'e'],
    ]
}

/// The language name that turns highlighting on.
pub open spec fn rust_language() -> Seq<char> {
    seq!['r', 'u', 's', 't']
}

/// `kw` occurs in `line` at character position `j`.
pub open spec fn occurs_at(line: Seq<char>, kw: Seq<char>, j: int) -> bool {
    0 <= j && j + kw.len() <= line.len() && line.subrange(j, j + kw.len()) == kw
}

/// Character positions of the non-overlapping occurrences of `kw` in `line`
/// found by searching left to right from position `start`.
pub open spec fn occurrences(line: Seq<char>, kw: Seq<char>, start: int) -> Seq<int>
    decreases line.len() - start,
{
    if kw.len() == 0 || start < 0 || start + kw.len() > line.len() {
        Seq::empty()
    } else if occurs_at(line, kw, start) {
        seq![start] + occurrences(line, kw, start + kw.len())
    } else {
        occurrences(line, kw, start + 1)
    }
}

/// Keyword token for an occurrence of `kw` at character position `j` of `line`.
pub open spec fn keyword_token(line: Seq<char>, kw: Seq<char>, j: int) -> SyntaxToken {
    SyntaxToken {
        start: byte_offset(line, j) as usize,
        end: (byte_offset(line, j) + kw.len()) as usize,
        token_type: TokenType::Keyword,
    }
}

/// Token construction for occurrences of `kw` in `line`.
pub open spec fn token_maker(line: Seq<char>, kw: Seq<char>) -> spec_fn(int) -> SyntaxToken {
    |j: int| keyword_token(line, kw, j)
}

/// Tokens for the occurrences of one keyword.
pub open spec fn keyword_tokens(line: Seq<char>, kw: Seq<char>) -> Seq<SyntaxToken> {
    occurrences(line, kw, 0).map_values(token_maker(line, kw))
}

/// Tokens of a line: for each keyword in order, its occurrences from left to right.
pub open spec fn line_tokens_upto(line: Seq<char>, n: int) -> Seq<SyntaxToken>
    decreases n,
{
    if n <= 0 {
        Seq::empty()
    } else {
        line_tokens_upto(line, n - 1) + keyword_tokens(line, rust_keywords()[n - 1])
    }
}

pub open spec fn line_tokens(line: Seq<char>) -> Seq<SyntaxToken> {
    line_tokens_upto(line, rust_keywords().len() as int)
}

/// Highlighting table after a refresh: with the Rust language, every line's
/// entry is recomputed (entries of other line numbers stay); otherwise nothing changes.
pub open spec fn refresh_tokens(
    language: Seq<char>,
    content: Seq<Seq<char>>,
    tokens: Map<usize, Seq<SyntaxToken>>,
) -> Map<usize, Seq<SyntaxToken>> {
    if language == rust_language() {
        Map::new(
            |k: usize| tokens.contains_key(k) || k < content.len(),
            |k: usize| if k < content.len() { line_tokens(content[k as int]) } else { tokens[k] },
        )
    } else {
        tokens
    }
}

/// Mathematical model of the editor's state.
#[verifier::ext_equal]
pub struct EditorModel {
    pub content: Seq<Seq<char>>,
    pub language: Seq<char>,
    pub editable: bool,
    pub line: int,
    pub column: int,
    pub selections: Seq<Selection>,
    pub mode: EditorMode,
    pub vim_enabled: bool,
    pub line_numbers: bool,
    pub focused_lines: Option<Range<usize>>,
    pub syntax_tokens: Map<usize, Seq<SyntaxToken>>,
    pub tab_size: usize,
    pub word_wrap: bool,
    pub diagnostics: Seq<Diagnostic>,
    pub dirty: bool,
}

/// Lines of a text as the editor stores them: the text's lines, or one empty line.
pub open spec fn editor_lines(text: Seq<char>) -> Seq<Seq<char>> {
    if text_lines(text).len() == 0 {
        seq![Seq::<char>::empty()]
    } else {
        text_lines(text)
    }
}

/// Code editor with syntax highlighting.
pub struct CodeEditor {
    content: Vec<Vec<char>>,
    language: String,
    editable: bool,
    cursor: CursorPosition,
    selections: Vec<Selection>,
    mode: EditorMode,
    vim_enabled: bool,
    line_numbers: bool,
    focused_lines: Option<Range<usize>>,
    syntax_tokens: HashMap<usize, Vec<SyntaxToken>>,
    tab_size: usize,
    word_wrap: bool,
    diagnostics: Vec<Diagnostic>,
    dirty: bool,
}

impl View for CodeEditor {
    type V = EditorModel;

    closed spec fn view(&self) -> EditorModel {
        EditorModel {
            content: self.content@.map_values(|l: Vec<char>| l@),
            language: self.language@,
            editable: self.editable,
            line: self.cursor.line as int,
            column: self.cursor.column as int,
            selections: self.selections@,
            mode: self.mode,
            vim_enabled: self.vim_enabled,
            line_numbers: self.line_numbers,
            focused_lines: self.focused_lines,
            syntax_tokens: self.syntax_tokens@.map_values(|v: Vec<SyntaxToken>| v@),
            tab_size: self.tab_size,
            word_wrap: self.word_wrap,
            diagnostics: self.diagnostics@,
            dirty: self.dirty,
        }
    }
}

/// Whether `language` names Rust.
fn is_rust(language: &String) -> (b: bool)
    ensures
        b == (language@ == rust_language()),
{
    let v = str_chars(language.as_str());
    let b = v.len() == 4 && v[0] == 'r' && v[1] == 'u' && v[2] == 's' && v[3] == 't';
    proof {
        if v@ == rust_language() {
            assert(v@[0] == 'r' && v@[1] == 'u' && v@[2] == 's' && v@[3] == 't');
        }
        if b {
            assert(v@ =~= rust_language());
        }
    }
    b
}

/// Whether `kw` occurs in `line` at position `j`.
fn occurs_at_exec(line: &Vec<char>, kw: &Vec<char>, j: usize) -> (b: bool)
    requires
        j + kw@.len() <= line@.len(),
    ensures
        b == occurs_at(line@, kw@, j as int),
{
    let mut i: usize = 0;
    let n = line.len();
    while i < kw.len()
        invariant
            0 <= i <= kw@.len(),
            n == line@.len(),
            j + kw@.len() <= line@.len(),
            forall|t: int| 0 <= t < i ==> line@[j + t] == kw@[t],
        decreases kw@.len() - i,
    {
        if line[j + i] != kw[i] {
            proof {
                assert(line@.subrange(j as int, j + kw@.len())[i as int] != kw@[i as int]);
            }
            return false;
        }
        i = i + 1;
    }
    proof {
        assert(line@.subrange(j as int, j + kw@.len()) =~= kw@);
    }
    true
}

/// Keyword tokens of one keyword in one line.
fn scan_keyword(line: &Vec<char>, kw: &Vec<char>, tokens: &mut Vec<SyntaxToken>)
    requires
        kw@.len() > 0,
        kw@.len() <= 8,
        utf8_len(line@) <= isize::MAX,
        forall|t: int| 0 <= t < kw@.len() ==> (kw@[t] as u32) < 0x80,
    ensures
        final(tokens)@ == old(tokens)@ + keyword_tokens(line@, kw@),
{
    let ghost all = occurrences(line@, kw@, 0);
    let mut j: usize = 0;
    let mut pos: usize = 0;
    proof {
        assert(line@.take(0) =~= Seq::<char>::empty());
        crate::text::lemma_byte_offset_end(line@);
    }
    let n = line.len();
    while kw.len() <= n && j <= n - kw.len()
        invariant
            0 <= j <= line@.len(),
            n == line@.len(),
            kw@.len() > 0,
            kw@.len() <= 8,
            pos == byte_offset(line@, j as int),
            utf8_len(line@) <= isize::MAX,
            forall|t: int| 0 <= t < kw@.len() ==> (kw@[t] as u32) < 0x80,
            tokens@ + occurrences(line@, kw@, j as int).map_values(token_maker(line@, kw@))
                == old(tokens)@ + keyword_tokens(line@, kw@),
        decreases line@.len() - j,
    {
        proof {
            crate::text::lemma_byte_offset_mono(line@, j as int, line@.len() as int);
            crate::text::lemma_byte_offset_end(line@);
        }
        let ghost f = token_maker(line@, kw@);
        if occurs_at_exec(line, kw, j) {
            tokens.push(SyntaxToken { start: pos, end: pos + kw.len(), token_type: TokenType::Keyword });
            let mut t: usize = 0;
            while t < kw.len()
                invariant
                    0 <= t <= kw@.len(),
                    n == line@.len(),
                    j + kw@.len() <= line@.len(),
                    occurs_at(line@, kw@, j as int),
                    forall|q: int| 0 <= q < kw@.len() ==> (kw@[q] as u32) < 0x80,
                    pos == byte_offset(line@, (j + t) as int),
                    utf8_len(line@) <= isize::MAX,
                decreases kw@.len() - t,
            {
                proof {
                    assert(line@.take(j + t + 1).drop_last() =~= line@.take((j + t) as int));
                    assert(line@[(j + t) as int] == line@.subrange(j as int, j + kw@.len())[t as int]);
                    crate::text::lemma_byte_offset_mono(line@, (j + t) as int, line@.len() as int);
                    crate::text::lemma_byte_offset_end(line@);
                }
                pos = pos + char_len_utf8(line[j + t]);
                t = t + 1;
            }
            proof {
                let occ = occurrences(line@, kw@, j as int);
                assert(occ == seq![j as int] + occurrences(line@, kw@, j + kw@.len()));
                assert(occ.map_values(f) =~= seq![f(j as int)] + occurrences(line@, kw@, j + kw@.len()).map_values(f));
                assert(tokens@ + occurrences(line@, kw@, j + kw@.len()).map_values(f) =~= old(tokens)@ + keyword_tokens(line@, kw@));
            }
            j = j + kw.len();
        } else {
            proof {
                assert(line@.take(j + 1).drop_last() =~= line@.take(j as int));
                crate::text::lemma_byte_offset_mono(line@, (j + 1) as int, line@.len() as int);
            }
            pos = pos + char_len_utf8(line[j]);
            j = j + 1;
        }
    }
    proof {
        assert(occurrences(line@, kw@, j as int) =~= Seq::<int>::empty());
        assert(Seq::<int>::empty().map_values(token_maker(line@, kw@)) =~= Seq::<SyntaxToken>::empty());
        assert(tokens@ =~= tokens@ + Seq::<SyntaxToken>::empty());
    }
}


/// The highlighted keywords, as character vectors.
fn keyword_list() -> (kws: Vec<Vec<char>>)
    ensures
        kws@.len() == rust_keywords().len(),
        forall|i: int| 0 <= i < kws@.len() ==> #[trigger] kws@[i]@ == rust_keywords()[i],
{
    let kws: Vec<Vec<char>> = vec![
        vec!['f', 'n'],
        vec!['l', 'e', 't'],
        vec!['m', 'u', 't'],
        vec!['i', 'm', 'p', 'l'],
        vec!['s', 't', 'r', 'u', 'c', 't'],
        vec!['e', 'n', 'u', 'm'],
        vec!['t', 'r', 'a', 'i', 't'],
        vec!['p', 'u', 'b'],
        vec!['u', 's', 'e'],
        vec!['m', 'o', 'd'],
        vec!['i', 'f'],
        vec!['e', 'l', 's', 'e'],
        vec!['m', 'a', 't', 'c', 'h'],
        vec!['f', 'o', 'r'],
        vec!['w', 'h', 'i', 'l', 'e'],
    ];
    proof {
        assert forall|i: int| 0 <= i < kws@.len() implies #[trigger] kws@[i]@ == rust_keywords()[i] by {
            assert(kws@[i]@ =~= rust_keywords()[i]);
        }
    }
    kws
}

/// Keywords are short ASCII words.
proof fn lemma_keywords_ascii()
    ensures
        forall|i: int, t: int| 0 <= i < rust_keywords().len() && 0 <= t < rust_keywords()[i].len()
            ==> (#[trigger] rust_keywords()[i][t] as u32) < 0x80,
        forall|i: int| 0 <= i < rust_keywords().len() ==> 0 < #[trigger] rust_keywords()[i].len() <= 8,
{
}

/// Highlighting tokens of one line.
fn tokens_of_line(line: &Vec<char>) -> (tokens: Vec<SyntaxToken>)
    requires
        utf8_len(line@) <= isize::MAX,
    ensures
        tokens@ == line_tokens(line@),
{
    let kws = keyword_list();
    let mut tokens: Vec<SyntaxToken> = Vec::new();
    let mut i: usize = 0;
    proof {
        lemma_keywords_ascii();
    }
    while i < kws.len()
        invariant
            0 <= i <= kws@.len(),
            kws@.len() == rust_keywords().len(),
            forall|q: int| 0 <= q < kws@.len() ==> #[trigger] kws@[q]@ == rust_keywords()[q],
            utf8_len(line@) <= isize::MAX,
            tokens@ == line_tokens_upto(line@, i as int),
            forall|q: int, t: int| 0 <= q < rust_keywords().len() && 0 <= t < rust_keywords()[q].len()
                ==> (#[trigger] rust_keywords()[q][t] as u32) < 0x80,
            forall|q: int| 0 <= q < rust_keywords().len() ==> 0 < #[trigger] rust_keywords()[q].len() <= 8,
        decreases kws@.len() - i,
    {
        proof {
            assert(kws@[i as int]@ == rust_keywords()[i as int]);
            assert(0 < rust_keywords()[i as int].len() <= 8);
        }
        scan_keyword(line, &kws[i], &mut tokens);
        i = i + 1;
    }
    tokens
}

impl CodeEditor {
    /// Every line fits in memory and there is at least one line.
    pub open spec fn wf(&self) -> bool {
        &&& self@.content.len() >= 1
        &&& forall|i: int| 0 <= i < self@.content.len() ==> utf8_len(#[trigger] self@.content[i]) <= isize::MAX
    }

    /// Recomputes the highlighting table (only for Rust).
    fn update_syntax_highlighting(&mut self)
        requires
            old(self).wf(),
        ensures
            final(self).wf(),
            final(self)@ == (EditorModel {
                syntax_tokens: refresh_tokens(old(self)@.language, old(self)@.content, old(self)@.syntax_tokens),
                ..old(self)@
            }),
    {
        if is_rust(&self.language) {
            let ghost t0 = self@.syntax_tokens;
            let mut i: usize = 0;
            while i < self.content.len()
                invariant
                    0 <= i <= self@.content.len(),
                    self.wf(),
                    self@ == (EditorModel { syntax_tokens: self@.syntax_tokens, ..old(self)@ }),
                    old(self)@.language == rust_language(),
                    forall|k: usize| #[trigger] self@.syntax_tokens.contains_key(k) <==> (t0.contains_key(k) || k < i),
                    forall|k: usize| #[trigger] self@.syntax_tokens.contains_key(k) ==> self@.syntax_tokens[k] == (
                        if k < i { line_tokens(old(self)@.content[k as int]) } else { t0[k] }),
                    t0 == old(self)@.syntax_tokens,
                decreases self@.content.len() - i,
            {
                proof {
                    assert(utf8_len(self@.content[i as int]) <= isize::MAX);
                }
                let tokens = tokens_of_line(&self.content[i]);
                let ghost before = self@.syntax_tokens;
                self.syntax_tokens.insert(i, tokens);
                proof {
                    assert(self@.syntax_tokens =~= before.insert(i, line_tokens(old(self)@.content[i as int])));
                }
                i = i + 1;
            }
            proof {
                let want = refresh_tokens(old(self)@.language, old(self)@.content, old(self)@.syntax_tokens);
                assert(self@.syntax_tokens =~= want);
                assert(self@ =~= EditorModel { syntax_tokens: want, ..old(self)@ });
            }
        }
    }
}


/// `line` with `text` inserted at byte offset `col` (a character boundary).
pub open spec fn insert_text_at(line: Seq<char>, col: int, text: Seq<char>) -> Seq<char> {
    let k = char_index_at(line, col);
    line.take(k) + text + line.skip(k)
}

/// Refreshes the highlighting of a model whose content changed.
pub open spec fn with_content(st: EditorModel, content: Seq<Seq<char>>) -> EditorModel {
    EditorModel {
        content,
        syntax_tokens: refresh_tokens(st.language, content, st.syntax_tokens),
        dirty: true,
        ..st
    }
}

/// `insert_text` can run: an editable editor has its cursor on a line, at a
/// character boundary, with room for the text (a read-only one ignores it).
pub open spec fn insert_ok(st: EditorModel, text: Seq<char>) -> bool {
    st.editable ==> {
        &&& 0 <= st.line < st.content.len()
        &&& is_char_boundary(st.content[st.line], st.column)
        &&& utf8_len(st.content[st.line]) + utf8_len(text) <= isize::MAX
    }
}

pub open spec fn spec_insert(st: EditorModel, text: Seq<char>) -> EditorModel {
    if !st.editable {
        st
    } else {
        EditorModel {
            column: st.column + utf8_len(text),
            ..with_content(st, st.content.update(st.line, insert_text_at(st.content[st.line], st.column, text)))
        }
    }
}

/// `delete_char` can run: when it deletes, the cursor is on a line, just after a character.
pub open spec fn delete_ok(st: EditorModel) -> bool {
    st.editable && st.column != 0 ==> {
        &&& 0 <= st.line < st.content.len()
        &&& st.column - 1 < utf8_len(st.content[st.line])
        &&& is_char_boundary(st.content[st.line], st.column - 1)
    }
}

pub open spec fn spec_delete(st: EditorModel) -> EditorModel {
    if !st.editable || st.column == 0 {
        st
    } else {
        let line = st.content[st.line];
        EditorModel {
            column: st.column - 1,
            ..with_content(st, st.content.update(st.line, line.remove(char_index_at(line, st.column - 1))))
        }
    }
}

/// `new_line` can run: when editable, the cursor is on a line, at a character boundary.
pub open spec fn new_line_ok(st: EditorModel) -> bool {
    st.editable ==> {
        &&& 0 <= st.line < st.content.len()
        &&& is_char_boundary(st.content[st.line], st.column)
    }
}

pub open spec fn spec_new_line(st: EditorModel) -> EditorModel {
    if !st.editable {
        st
    } else {
        let line = st.content[st.line];
        let k = char_index_at(line, st.column);
        EditorModel {
            line: st.line + 1,
            column: 0,
            ..with_content(st, st.content.update(st.line, line.take(k)).insert(st.line + 1, line.skip(k)))
        }
    }
}

/// `v` clamped to `[lo, hi]` (as `max(lo).min(hi)`).
pub open spec fn clamp(v: int, lo: int, hi: int) -> int {
    let a = if v > lo { v } else { lo };
    if a < hi { a } else { hi }
}

/// `move_cursor` can run: the signed arithmetic stays in range.
pub open spec fn move_ok(st: EditorModel, dl: int, dc: int) -> bool {
    &&& 0 <= st.line <= isize::MAX
    &&& 0 <= st.column <= isize::MAX
    &&& st.content.len() <= isize::MAX
    &&& isize::MIN <= st.line + dl <= isize::MAX
    &&& isize::MIN <= st.column + dc <= isize::MAX
}

pub open spec fn spec_move(st: EditorModel, dl: int, dc: int) -> EditorModel {
    let line = clamp(st.line + dl, 0, st.content.len() - 1);
    EditorModel {
        line,
        column: clamp(st.column + dc, 0, utf8_len(st.content[line]) as int),
        dirty: true,
        ..st
    }
}

/// Effect of a key press on the editor, and whether the key is handled.
pub open spec fn key_effect(st: EditorModel, key: Key) -> (EditorModel, EventHandled) {
    if st.vim_enabled && st.mode == EditorMode::Normal && key == Key::I {
        (EditorModel { mode: EditorMode::Insert, ..st }, EventHandled::Yes)
    } else if st.vim_enabled && st.mode == EditorMode::Normal && key == Key::H {
        (spec_move(st, 0, -1), EventHandled::Yes)
    } else if st.vim_enabled && st.mode == EditorMode::Normal && key == Key::J {
        (spec_move(st, 1, 0), EventHandled::Yes)
    } else if st.vim_enabled && st.mode == EditorMode::Normal && key == Key::K {
        (spec_move(st, -1, 0), EventHandled::Yes)
    } else if st.vim_enabled && st.mode == EditorMode::Normal && key == Key::L {
        (spec_move(st, 0, 1), EventHandled::Yes)
    } else if st.vim_enabled && st.mode == EditorMode::Insert && key == Key::Escape {
        (EditorModel { mode: EditorMode::Normal, ..st }, EventHandled::Yes)
    } else if st.editable && (st.mode == EditorMode::Insert || !st.vim_enabled) {
        match key {
            Key::Enter => (spec_new_line(st), EventHandled::Yes),
            Key::Backspace => (spec_delete(st), EventHandled::Yes),
            Key::Left => (spec_move(st, 0, -1), EventHandled::Yes),
            Key::Right => (spec_move(st, 0, 1), EventHandled::Yes),
            Key::Up => (spec_move(st, -1, 0), EventHandled::Yes),
            Key::Down => (spec_move(st, 1, 0), EventHandled::Yes),
            _ => (st, EventHandled::No),
        }
    } else {
        (st, EventHandled::No)
    }
}

/// The key press can be handled: the operation it triggers can run.
pub open spec fn key_ok(st: EditorModel, key: Key) -> bool {
    &&& (key == Key::H || key == Key::J || key == Key::K || key == Key::L || key == Key::Left
        || key == Key::Right || key == Key::Up || key == Key::Down) ==> (move_ok(st, 1, 1) && move_ok(st, -1, -1))
    &&& key == Key::Enter ==> new_line_ok(st)
    &&& key == Key::Backspace ==> delete_ok(st)
}

impl CodeEditor {
    pub fn new() -> (e: Self)
        ensures
            e.wf(),
            e@.content == seq![Seq::<char>::empty()],
            e@.language == seq!['p', 'l', 'a', 'i', 'n'],
            e@.editable,
            e@.line == 0,
            e@.column == 0,
            e@.selections == Seq::<Selection>::empty(),
            e@.mode == EditorMode::Normal,
            !e@.vim_enabled,
            e@.line_numbers,
            e@.focused_lines is None,
            e@.syntax_tokens == Map::<usize, Seq<SyntaxToken>>::empty(),
            e@.tab_size == 4,
            !e@.word_wrap,
            e@.diagnostics == Seq::<Diagnostic>::empty(),
            !e@.dirty,
    {
        let mut content: Vec<Vec<char>> = Vec::new();
        content.push(Vec::new());
        let e = CodeEditor {
            content,
            language: chars_to_string(vec!['p', 'l', 'a', 'i', 'n'].as_slice()),
            editable: true,
            cursor: CursorPosition { line: 0, column: 0 },
            selections: Vec::new(),
            mode: EditorMode::Normal,
            vim_enabled: false,
            line_numbers: true,
            focused_lines: None,
            syntax_tokens: HashMap::new(),
            tab_size: 4,
            word_wrap: false,
            diagnostics: Vec::new(),
            dirty: false,
        };
        proof {
            assert(e@.content =~= seq![Seq::<char>::empty()]);
            assert(e@.language =~= seq!['p', 'l', 'a', 'i', 'n']);
            assert(e@.syntax_tokens =~= Map::<usize, Seq<SyntaxToken>>::empty());
            assert(utf8_len(Seq::<char>::empty()) == 0);
        }
        e
    }

    /// Replaces the lines with those of `content` (one empty line if it has none).
    fn replace_content(&mut self, content: &str)
        requires
            old(self).wf(),
        ensures
            final(self).wf(),
            final(self)@ == (EditorModel { content: editor_lines(content@), ..old(self)@ }),
    {
        let chars = str_chars(content);
        let _n = str_byte_len(content);
        let mut lines = split_lines(&chars);
        if lines.len() == 0 {
            lines.push(Vec::new());
        }
        self.content = lines;
        proof {
            lemma_text_lines_len_bound(content@);
            assert(self@.content =~= editor_lines(content@));
            assert(utf8_len(Seq::<char>::empty()) == 0);
            assert(self@ =~= EditorModel { content: editor_lines(content@), ..old(self)@ });
        }
    }

    pub fn with_content(self, content: String) -> (e: Self)
        requires
            self.wf(),
        ensures
            e.wf(),
            e@ == (EditorModel {
                content: editor_lines(content@),
                syntax_tokens: refresh_tokens(self@.language, editor_lines(content@), self@.syntax_tokens),
                ..self@
            }),
    {
        let mut e = self;
        e.replace_content(content.as_str());
        e.update_syntax_highlighting();
        e
    }

    pub fn with_language(self, language: String) -> (e: Self)
        requires
            self.wf(),
        ensures
            e.wf(),
            e@ == (EditorModel {
                language: language@,
                syntax_tokens: refresh_tokens(language@, self@.content, self@.syntax_tokens),
                ..self@
            }),
    {
        let mut e = self;
        e.language = language;
        e.update_syntax_highlighting();
        e
    }

    pub fn with_editable(self, editable: bool) -> (e: Self)
        requires
            self.wf(),
        ensures
            e.wf(),
            e@ == (EditorModel { editable, ..self@ }),
    {
        let mut e = self;
        e.editable = editable;
        e
    }

    pub fn with_focused_lines(self, range: Range<usize>) -> (e: Self)
        requires
            self.wf(),
        ensures
            e.wf(),
            e@ == (EditorModel { focused_lines: Some(range), ..self@ }),
    {
        let mut e = self;
        e.focused_lines = Some(range);
        e
    }

    pub fn enable_vim_mode(self) -> (e: Self)
        requires
            self.wf(),
        ensures
            e.wf(),
            e@ == (EditorModel { vim_enabled: true, mode: EditorMode::Normal, ..self@ }),
    {
        let mut e = self;
        e.vim_enabled = true;
        e.mode = EditorMode::Normal;
        e
    }

    /// The text: the lines joined with newlines.
    pub fn get_content(&self) -> (s: String)
        ensures
            s@ == join_with(self@.content, '\n'),
    {
        join_lines(&self.content, '\n')
    }

    pub fn set_content(&mut self, content: String)
        requires
            old(self).wf(),
        ensures
            final(self).wf(),
            final(self)@ == with_content(old(self)@, editor_lines(content@)),
    {
        self.replace_content(content.as_str());
        self.update_syntax_highlighting();
        self.dirty = true;
    }

    /// Inserts `text` at the cursor and moves the cursor after it.
    pub fn insert_text(&mut self, text: &str)
        requires
            old(self).wf(),
            insert_ok(old(self)@, text@),
        ensures
            final(self).wf(),
            final(self)@ == spec_insert(old(self)@, text@),
    {
        if !self.editable {
            return;
        }
        let ghost st = self@;
        let row = self.cursor.line;
        let col = self.cursor.column;
        let t = str_chars(text);
        let n = str_byte_len(text);
        let mut line: Vec<char> = Vec::new();
        std::mem::swap(&mut line, &mut self.content[row]);
        let ghost old_line = line@;
        proof {
            assert(old_line == st.content[row as int]);
            crate::text::lemma_byte_offset_end(old_line);
            crate::text::lemma_char_index_at(old_line, col as int);
        }
        match locate_byte(&line, col) {
            ByteLocation::Boundary(k) => {
                insert_chars(&mut line, k, &t);
            },
            _ => {
                let len = line.len();
                proof {
                    let k = char_index_at(old_line, col as int);
                    crate::text::lemma_byte_offset_injective(old_line, k, old_line.len() as int);
                    assert(old_line.take(len as int) =~= old_line);
                }
                insert_chars(&mut line, len, &t);
            },
        }
        proof {
            let k = char_index_at(old_line, col as int);
            assert(old_line =~= old_line.take(k) + old_line.skip(k));
            lemma_utf8_len_concat(old_line.take(k), old_line.skip(k));
            lemma_utf8_len_concat(old_line.take(k), text@);
            lemma_utf8_len_concat(old_line.take(k) + text@, old_line.skip(k));
            assert(line@ == insert_text_at(old_line, col as int, text@));
            assert(utf8_len(line@) == utf8_len(old_line) + utf8_len(text@));
        }
        self.content.set(row, line);
        proof {
            assert(self@.content =~= st.content.update(row as int, line@));
        }
        self.cursor.column = col + n;
        self.update_syntax_highlighting();
        self.dirty = true;
        proof {
            assert(self@ =~= spec_insert(st, text@));
        }
    }
}


impl CodeEditor {
    /// Deletes the character before the cursor.
    pub fn delete_char(&mut self)
        requires
            old(self).wf(),
            delete_ok(old(self)@),
        ensures
            final(self).wf(),
            final(self)@ == spec_delete(old(self)@),
    {
        if !self.editable || self.cursor.column == 0 {
            return;
        }
        let ghost st = self@;
        let row = self.cursor.line;
        let col = self.cursor.column;
        let mut line: Vec<char> = Vec::new();
        std::mem::swap(&mut line, &mut self.content[row]);
        let ghost old_line = line@;
        proof {
            assert(old_line == st.content[row as int]);
            crate::text::lemma_char_index_at(old_line, col - 1);
        }
        match locate_byte(&line, col - 1) {
            ByteLocation::Boundary(k) => {
                line.remove(k);
                proof {
                    assert(old_line =~= old_line.take(k as int) + (seq![old_line[k as int]] + old_line.skip(k as int + 1)));
                    assert(old_line.take(k as int) + old_line.skip(k as int + 1) =~= old_line.remove(k as int));
                    lemma_utf8_len_concat(old_line.take(k as int), seq![old_line[k as int]] + old_line.skip(k as int + 1));
                    lemma_utf8_len_concat(seq![old_line[k as int]], old_line.skip(k as int + 1));
                    lemma_utf8_len_concat(old_line.take(k as int), old_line.skip(k as int + 1));
                    assert(seq![old_line[k as int]].drop_last() =~= Seq::<char>::empty());
                    assert(utf8_len(line@) <= utf8_len(old_line));
                }
            },
            _ => {},
        }
        self.content.set(row, line);
        self.cursor.column = col - 1;
        proof {
            assert(self@.content =~= st.content.update(row as int, line@));
        }
        self.update_syntax_highlighting();
        self.dirty = true;
        proof {
            assert(self@ =~= spec_delete(st));
        }
    }

    /// Splits the current line at the cursor; the cursor moves to the start of the new line.
    pub fn new_line(&mut self)
        requires
            old(self).wf(),
            new_line_ok(old(self)@),
        ensures
            final(self).wf(),
            final(self)@ == spec_new_line(old(self)@),
    {
        if !self.editable {
            return;
        }
        let ghost st = self@;
        let row = self.cursor.line;
        let col = self.cursor.column;
        let mut line: Vec<char> = Vec::new();
        std::mem::swap(&mut line, &mut self.content[row]);
        let ghost old_line = line@;
        proof {
            assert(old_line == st.content[row as int]);
            crate::text::lemma_char_index_at(old_line, col as int);
            crate::text::lemma_byte_offset_end(old_line);
        }
        let k: usize = match locate_byte(&line, col) {
            ByteLocation::Boundary(k) => k,
            _ => {
                proof {
                    let k = char_index_at(old_line, col as int);
                    crate::text::lemma_byte_offset_injective(old_line, k, old_line.len() as int);
                }
                line.len()
            },
        };
        let tail = line.split_off(k);
        proof {
            assert(line@ =~= old_line.take(k as int));
            assert(tail@ =~= old_line.skip(k as int));
            assert(old_line =~= old_line.take(k as int) + old_line.skip(k as int));
            lemma_utf8_len_concat(old_line.take(k as int), old_line.skip(k as int));
        }
        self.content.set(row, line);
        let count = self.content.len();
        proof {
            assert(row < count);
        }
        self.content.insert(row + 1, tail);
        self.cursor.line = row + 1;
        self.cursor.column = 0;
        proof {
            let want = st.content.update(row as int, old_line.take(k as int)).insert(row + 1, old_line.skip(k as int));
            assert(self@.content =~= want);
        }
        self.update_syntax_highlighting();
        self.dirty = true;
        proof {
            assert(self@ =~= spec_new_line(st));
        }
    }

    /// Moves the cursor by `line` lines and `column` bytes, staying within the text.
    pub fn move_cursor(&mut self, line: isize, column: isize)
        requires
            old(self).wf(),
            move_ok(old(self)@, line as int, column as int),
        ensures
            final(self).wf(),
            final(self)@ == spec_move(old(self)@, line as int, column as int),
    {
        let ghost st = self@;
        let last: isize = (self.content.len() - 1) as isize;
        let mut new_line: isize = self.cursor.line as isize + line;
        if new_line < 0 {
            new_line = 0;
        }
        if new_line > last {
            new_line = last;
        }
        let new_line = new_line as usize;
        self.cursor.line = new_line;
        proof {
            assert(utf8_len(st.content[new_line as int]) <= isize::MAX);
        }
        let line_len = utf8_byte_len(&self.content[new_line]) as isize;
        let mut new_column: isize = self.cursor.column as isize + column;
        if new_column < 0 {
            new_column = 0;
        }
        if new_column > line_len {
            new_column = line_len;
        }
        self.cursor.column = new_column as usize;
        self.dirty = true;
        proof {
            assert(self@ =~= spec_move(st, line as int, column as int));
        }
    }

    pub fn add_selection(&mut self, start: CursorPosition, end: CursorPosition)
        requires
            old(self).wf(),
        ensures
            final(self).wf(),
            final(self)@ == (EditorModel {
                selections: old(self)@.selections.push(Selection { start, end }),
                dirty: true,
                ..old(self)@
            }),
    {
        self.selections.push(Selection { start, end });
        self.dirty = true;
    }

    pub fn clear_selections(&mut self)
        requires
            old(self).wf(),
        ensures
            final(self).wf(),
            final(self)@ == (EditorModel { selections: Seq::empty(), dirty: true, ..old(self)@ }),
    {
        self.selections.clear();
        self.dirty = true;
    }

    pub fn add_diagnostic(&mut self, diagnostic: Diagnostic)
        requires
            old(self).wf(),
        ensures
            final(self).wf(),
            final(self)@ == (EditorModel {
                diagnostics: old(self)@.diagnostics.push(diagnostic),
                dirty: true,
                ..old(self)@
            }),
    {
        self.diagnostics.push(diagnostic);
        self.dirty = true;
    }

    pub fn clear_diagnostics(&mut self)
        requires
            old(self).wf(),
        ensures
            final(self).wf(),
            final(self)@ == (EditorModel { diagnostics: Seq::empty(), dirty: true, ..old(self)@ }),
    {
        self.diagnostics.clear();
        self.dirty = true;
    }

    /// Handles a key press: vim-style mode keys when vim mode is on, then editing and navigation keys.
    pub fn handle_key(&mut self, key: Key) -> (r: EventHandled)
        requires
            old(self).wf(),
            key_ok(old(self)@, key),
        ensures
            final(self).wf(),
            final(self)@ == key_effect(old(self)@, key).0,
            r == key_effect(old(self)@, key).1,
    {
        if self.vim_enabled {
            match self.mode {
                EditorMode::Normal => {
                    match key {
                        Key::I => {
                            self.mode = EditorMode::Insert;
                            return EventHandled::Yes;
                        },
                        Key::H => {
                            self.move_cursor(0, -1);
                            return EventHandled::Yes;
                        },
                        Key::J => {
                            self.move_cursor(1, 0);
                            return EventHandled::Yes;
                        },
                        Key::K => {
                            self.move_cursor(-1, 0);
                            return EventHandled::Yes;
                        },
                        Key::L => {
                            self.move_cursor(0, 1);
                            return EventHandled::Yes;
                        },
                        _ => {},
                    }
                },
                EditorMode::Insert => {
                    if key == Key::Escape {
                        self.mode = EditorMode::Normal;
                        return EventHandled::Yes;
                    }
                },
                _ => {},
            }
        }
        if self.editable && (self.mode == EditorMode::Insert || !self.vim_enabled) {
            match key {
                Key::Enter => {
                    self.new_line();
                    return EventHandled::Yes;
                },
                Key::Backspace => {
                    self.delete_char();
                    return EventHandled::Yes;
                },
                Key::Left => {
                    self.move_cursor(0, -1);
                    return EventHandled::Yes;
                },
                Key::Right => {
                    self.move_cursor(0, 1);
                    return EventHandled::Yes;
                },
                Key::Up => {
                    self.move_cursor(-1, 0);
                    return EventHandled::Yes;
                },
                Key::Down => {
                    self.move_cursor(1, 0);
                    return EventHandled::Yes;
                },
                _ => {},
            }
        }
        EventHandled::No
    }

    /// Handles typed text: inserted at the cursor when the editor accepts typing.
    pub fn handle_text_input(&mut self, text: &str) -> (r: EventHandled)
        requires
            old(self).wf(),
            old(self)@.editable && (old(self)@.mode == EditorMode::Insert || !old(self)@.vim_enabled)
                ==> insert_ok(old(self)@, text@),
        ensures
            final(self).wf(),
            old(self)@.editable && (old(self)@.mode == EditorMode::Insert || !old(self)@.vim_enabled) ==> {
                &&& final(self)@ == spec_insert(old(self)@, text@)
                &&& r == EventHandled::Yes
            },
            !(old(self)@.editable && (old(self)@.mode == EditorMode::Insert || !old(self)@.vim_enabled)) ==> {
                &&& final(self)@ == old(self)@
                &&& r == EventHandled::No
            },
    {
        if self.editable && (self.mode == EditorMode::Insert || !self.vim_enabled) {
            self.insert_text(text);
            return EventHandled::Yes;
        }
        EventHandled::No
    }

    /// Handles a scroll: the editor takes it (the offset itself is kept by
    /// the caller) and is marked for redrawing.
    pub fn handle_scroll(&mut self) -> (r: EventHandled)
        requires
            old(self).wf(),
        ensures
            final(self).wf(),
            r == EventHandled::Yes,
            final(self)@ == (EditorModel { dirty: true, ..old(self)@ }),
    {
        self.dirty = true;
        EventHandled::Yes
    }

    /// Handles a click on line `line` (as computed from the pointer position):
    /// the cursor moves to that line when it exists.
    pub fn click_line(&mut self, line: usize) -> (r: EventHandled)
        requires
            old(self).wf(),
        ensures
            final(self).wf(),
            r == EventHandled::Yes,
            line < old(self)@.content.len() ==> final(self)@ == (EditorModel { line: line as int, dirty: true, ..old(self)@ }),
            line >= old(self)@.content.len() ==> final(self)@ == old(self)@,
    {
        if line < self.content.len() {
            self.cursor.line = line;
            self.dirty = true;
        }
        EventHandled::Yes
    }
}

/// Whether byte offset `col` is a character boundary of `line`.
fn boundary_in(line: &Vec<char>, col: usize) -> (b: bool)
    requires
        utf8_len(line@) <= isize::MAX,
    ensures
        b == is_char_boundary(line@, col as int),
{
    if col > isize::MAX as usize {
        proof {
            if is_char_boundary(line@, col as int) {
                crate::text::lemma_char_index_at(line@, col as int);
            }
        }
        return false;
    }
    match locate_byte(line, col) {
        ByteLocation::Boundary(_) => true,
        ByteLocation::Inside => false,
        ByteLocation::AtEnd => {
            let n = utf8_byte_len(line);
            proof {
                crate::text::lemma_byte_offset_end(line@);
                if is_char_boundary(line@, col as int) {
                    crate::text::lemma_char_index_at(line@, col as int);
                }
            }
            col == n
        },
    }
}

impl CodeEditor {
    /// Whether `insert_text(text)` can run here: a read-only editor ignores
    /// it; an editable one needs its cursor on a line, at a character
    /// boundary, with room for the text.
    pub fn can_insert(&self, text: &str) -> (b: bool)
        requires
            self.wf(),
        ensures
            b == insert_ok(self@, text@),
    {
        if !self.editable {
            return true;
        }
        let row = self.cursor.line;
        if row >= self.content.len() {
            return false;
        }
        proof {
            assert(utf8_len(self@.content[row as int]) <= isize::MAX);
        }
        let line = &self.content[row];
        proof {
            assert(line@ == self@.content[row as int]);
        }
        if !boundary_in(line, self.cursor.column) {
            return false;
        }
        let a = utf8_byte_len(line);
        let b = str_byte_len(text);
        a <= (isize::MAX as usize) - b
    }

    /// Whether `handle_text_input(text)` can run here: an editor that takes
    /// typing now must be able to insert the text.
    pub fn can_handle_text_input(&self, text: &str) -> (b: bool)
        requires
            self.wf(),
        ensures
            b == (self@.editable && (self@.mode == EditorMode::Insert || !self@.vim_enabled)
                ==> insert_ok(self@, text@)),
    {
        if self.editable && (self.mode == EditorMode::Insert || !self.vim_enabled) {
            self.can_insert(text)
        } else {
            true
        }
    }

    /// Whether `handle_key(key)` can run here: the cursor movement, line
    /// split or deletion that the key may trigger can.
    pub fn can_handle_key(&self, key: Key) -> (b: bool)
        requires
            self.wf(),
        ensures
            b == key_ok(self@, key),
    {
        let moves = key == Key::H || key == Key::J || key == Key::K || key == Key::L || key == Key::Left
            || key == Key::Right || key == Key::Up || key == Key::Down;
        if moves {
            let max = isize::MAX as usize;
            if !(self.cursor.line < max && self.cursor.column < max && self.content.len() <= max && self.cursor.line >= 0) {
                return false;
            }
        }
        let row = self.cursor.line;
        let col = self.cursor.column;
        if key == Key::Enter && self.editable {
            if row >= self.content.len() {
                return false;
            }
            proof {
                assert(utf8_len(self@.content[row as int]) <= isize::MAX);
            }
            return boundary_in(&self.content[row], col);
        }
        if key == Key::Backspace && self.editable && col != 0 {
            if row >= self.content.len() {
                return false;
            }
            proof {
                assert(utf8_len(self@.content[row as int]) <= isize::MAX);
            }
            let n = utf8_byte_len(&self.content[row]);
            if col - 1 >= n {
                return false;
            }
            return boundary_in(&self.content[row], col - 1);
        }
        true
    }
}

/// Typing a one-byte character and then deleting the character before the
/// cursor gives back the lines and the cursor position typed at.
pub proof fn lemma_insert_then_delete(st: EditorModel, c: char)
    requires
        st.editable,
        insert_ok(st, seq![c]),
        (c as u32) < 0x80,
    ensures
        delete_ok(spec_insert(st, seq![c])),
        spec_delete(spec_insert(st, seq![c])).content == st.content,
        spec_delete(spec_insert(st, seq![c])).line == st.line,
        spec_delete(spec_insert(st, seq![c])).column == st.column,
{
    let line = st.content[st.line];
    let col = st.column;
    crate::text::lemma_char_index_at(line, col);
    let k = char_index_at(line, col);
    let t = seq![c];
    let nl = line.take(k) + t + line.skip(k);
    assert(utf8_len(t) == 1) by {
        assert(t.drop_last() =~= Seq::<char>::empty());
        assert(utf8_len(Seq::<char>::empty()) == 0);
        assert(t.last() == c);
        assert(crate::text::char_utf8_len(c) == 1);
    }
    assert(nl.take(k) =~= line.take(k));
    assert(nl.take(k + 1) =~= line.take(k) + t);
    lemma_utf8_len_concat(line.take(k), t);
    lemma_utf8_len_concat(line.take(k) + t, line.skip(k));
    lemma_utf8_len_concat(line.take(k), line.skip(k));
    assert(line.take(k) + line.skip(k) =~= line);
    assert(byte_offset(nl, k) == col);
    assert(is_char_boundary(nl, col));
    crate::text::lemma_char_index_at(nl, col);
    crate::text::lemma_byte_offset_injective(nl, char_index_at(nl, col), k);
    assert(nl.remove(k) =~= line);
    let ins = spec_insert(st, t);
    assert(ins.content[st.line] == nl);
    assert(ins.content.update(st.line, nl.remove(k)) =~= st.content);
}

/// Setting a text without carriage returns that does not end with a newline
/// and reading the content back gives the same text, kept as one line per
/// newline-separated part (a single empty line for the empty text).
pub proof fn lemma_set_then_get(st: EditorModel, s: Seq<char>)
    requires
        !s.contains('\r'),
        s.len() == 0 || s.last() != '\n',
    ensures
        join_with(with_content(st, editor_lines(s)).content, '\n') == s,
        with_content(st, editor_lines(s)).content.len() == split_on(s, '\n').len(),
{
    let pieces = split_on(s, '\n');
    lemma_split_on_nonempty(s, '\n');
    lemma_join_split(s, '\n');
    lemma_split_on_absent(s, '\n', '\r');
    let n = pieces.len();
    let ended = Seq::new((n - 1) as nat, |i: int| strip_cr(pieces[i]));
    assert forall|i: int| 0 <= i < n - 1 implies #[trigger] ended[i] == pieces[i] by {
        assert(!pieces[i].contains('\r'));
        if pieces[i].len() > 0 {
            assert(pieces[i].last() == pieces[i][pieces[i].len() - 1]);
        }
    }
    if s.len() == 0 {
        assert(pieces == seq![Seq::<char>::empty()]);
        assert(text_lines(s) =~= Seq::<Seq<char>>::empty());
        assert(editor_lines(s) == seq![Seq::<char>::empty()]);
        assert(s =~= Seq::<char>::empty());
    } else {
        lemma_split_on_last(s, '\n');
        assert(ended.push(pieces[n - 1]) =~= pieces);
        assert(text_lines(s) == pieces);
    }
}

/// The cursor is on one of the lines, within that line's bytes.
pub open spec fn cursor_in_text(st: EditorModel) -> bool {
    &&& st.content.len() >= 1
    &&& 0 <= st.line < st.content.len()
    &&& 0 <= st.column <= utf8_len(st.content[st.line])
}

/// A key press that can be handled keeps the cursor on a line and within it.
pub proof fn lemma_key_keeps_cursor(st: EditorModel, key: Key)
    requires
        cursor_in_text(st),
        key_ok(st, key),
    ensures
        cursor_in_text(key_effect(st, key).0),
{
    let typing = st.editable && (st.mode == EditorMode::Insert || !st.vim_enabled);
    let line = st.content[st.line];
    if key == Key::Enter && typing {
        crate::text::lemma_char_index_at(line, st.column);
        let k = char_index_at(line, st.column);
        let c2 = st.content.update(st.line, line.take(k)).insert(st.line + 1, line.skip(k));
        assert(c2.len() == st.content.len() + 1);
        assert(key_effect(st, key).0.content == c2);
    } else if key == Key::Backspace && typing && st.column != 0 {
        crate::text::lemma_char_index_at(line, st.column - 1);
        let k = char_index_at(line, st.column - 1);
        crate::text::lemma_byte_offset_end(line);
        if k == line.len() {
            assert(false);
        }
        crate::text::lemma_byte_offset_mono(line, k + 1, line.len() as int);
        assert(line.take(k + 1) + line.skip(k + 1) =~= line);
        assert(line.remove(k) =~= line.take(k) + line.skip(k + 1));
        lemma_utf8_len_concat(line.take(k + 1), line.skip(k + 1));
        lemma_utf8_len_concat(line.take(k), line.skip(k + 1));
        assert(line.take(k + 1).drop_last() =~= line.take(k));
    }
}

/// Typing text that can be inserted keeps the cursor on a line and within it.
pub proof fn lemma_typing_keeps_cursor(st: EditorModel, text: Seq<char>)
    requires
        cursor_in_text(st),
        insert_ok(st, text),
    ensures
        cursor_in_text(spec_insert(st, text)),
{
    if st.editable {
        let line = st.content[st.line];
        crate::text::lemma_char_index_at(line, st.column);
        let k = char_index_at(line, st.column);
        assert(line.take(k) + line.skip(k) =~= line);
        lemma_utf8_len_concat(line.take(k), line.skip(k));
        lemma_utf8_len_concat(line.take(k), text);
        lemma_utf8_len_concat(line.take(k) + text, line.skip(k));
    }
}

/// Two models with the same lines, cursor and editability.
pub open spec fn same_text(a: EditorModel, b: EditorModel) -> bool {
    &&& a.content == b.content
    &&& a.line == b.line
    &&& a.column == b.column
    &&& a.editable == b.editable
}

/// The model after `n` deletions.
pub open spec fn delete_times(st: EditorModel, n: nat) -> EditorModel
    decreases n,
{
    if n == 0 {
        st
    } else {
        delete_times(spec_delete(st), (n - 1) as nat)
    }
}

/// Each of `n` deletions in a row can run.
pub open spec fn deletes_ok(st: EditorModel, n: nat) -> bool
    decreases n,
{
    n == 0 || (delete_ok(st) && deletes_ok(spec_delete(st), (n - 1) as nat))
}

proof fn lemma_delete_times_same(a: EditorModel, b: EditorModel, n: nat)
    requires
        same_text(a, b),
    ensures
        same_text(delete_times(a, n), delete_times(b, n)),
        deletes_ok(a, n) == deletes_ok(b, n),
    decreases n,
{
    if n > 0 {
        lemma_delete_times_same(spec_delete(a), spec_delete(b), (n - 1) as nat);
    }
}

/// Inserting `a` and then `b` inserts `a + b`.
proof fn lemma_insert_twice(st: EditorModel, a: Seq<char>, b: Seq<char>)
    requires
        st.editable,
        insert_ok(st, a + b),
    ensures
        insert_ok(st, a),
        insert_ok(spec_insert(st, a), b),
        same_text(spec_insert(spec_insert(st, a), b), spec_insert(st, a + b)),
{
    let line = st.content[st.line];
    let col = st.column;
    crate::text::lemma_char_index_at(line, col);
    let k = char_index_at(line, col);
    lemma_utf8_len_concat(a, b);
    let l1 = line.take(k) + a + line.skip(k);
    let k1 = k + a.len();
    assert(l1.take(k1) =~= line.take(k) + a);
    assert(l1.skip(k1) =~= line.skip(k));
    lemma_utf8_len_concat(line.take(k), a);
    assert(byte_offset(l1, k1) == col + utf8_len(a));
    assert(is_char_boundary(l1, col + utf8_len(a)));
    crate::text::lemma_char_index_at(l1, col + utf8_len(a));
    crate::text::lemma_byte_offset_injective(l1, char_index_at(l1, col + utf8_len(a)), k1);
    assert(line.take(k) + line.skip(k) =~= line);
    lemma_utf8_len_concat(line.take(k), line.skip(k));
    lemma_utf8_len_concat(line.take(k) + a, line.skip(k));
    let st1 = spec_insert(st, a);
    assert(st1.content[st1.line] == l1);
    assert(l1.take(k1) + b + l1.skip(k1) =~= line.take(k) + (a + b) + line.skip(k));
    assert(spec_insert(st1, b).content =~= spec_insert(st, a + b).content);
}

/// Typing ASCII text and then deleting as many characters gives back the
/// lines and the cursor position typed at, each deletion being able to run.
pub proof fn lemma_insert_then_delete_all(st: EditorModel, s: Seq<char>)
    requires
        st.editable,
        insert_ok(st, s),
        is_ascii_text(s),
    ensures
        deletes_ok(spec_insert(st, s), s.len()),
        delete_times(spec_insert(st, s), s.len()).content == st.content,
        delete_times(spec_insert(st, s), s.len()).line == st.line,
        delete_times(spec_insert(st, s), s.len()).column == st.column,
    decreases s.len(),
{
    if s.len() == 0 {
        assert(utf8_len(s) == 0);
        let line = st.content[st.line];
        crate::text::lemma_char_index_at(line, st.column);
        let k = char_index_at(line, st.column);
        assert(line.take(k) + s + line.skip(k) =~= line);
        assert(spec_insert(st, s).content =~= st.content);
    } else {
        let s1 = s.drop_last();
        let c = s.last();
        assert(s1 + seq![c] =~= s);
        assert(is_ascii_char(s[s.len() - 1]));
        assert(is_ascii_text(s1)) by {
            assert forall|i: int| 0 <= i < s1.len() implies is_ascii_char(#[trigger] s1[i]) by {
                assert(s1[i] == s[i]);
            }
        }
        lemma_insert_twice(st, s1, seq![c]);
        let mid = spec_insert(st, s1);
        lemma_insert_then_delete(mid, c);
        lemma_insert_then_delete_all(st, s1);
        let whole = spec_insert(st, s);
        let two = spec_insert(mid, seq![c]);
        assert(same_text(two, whole));
        assert(same_text(spec_delete(whole), spec_delete(two)));
        assert(same_text(spec_delete(two), mid));
        lemma_delete_times_same(spec_delete(whole), mid, s1.len());
        assert(delete_ok(whole) == delete_ok(two));
        assert(s.len() - 1 == s1.len());
    }
}

/// Arrow keys in an editor that takes typing, and the vim keys in normal
/// mode: Up (K) moves to the line above and Down (J) to the line below,
/// staying on the first and last line; Left (H) moves one byte back and
/// Right (L) one byte forward within the line. Up never moves down, Down
/// never up, and none of them changes the lines.
pub proof fn lemma_arrow_keys(st: EditorModel)
    requires
        cursor_in_text(st),
    ensures
        ({
            let typing = st.editable && (st.mode == EditorMode::Insert || !st.vim_enabled);
            let normal = st.vim_enabled && st.mode == EditorMode::Normal;
            let last = st.content.len() - 1;
            &&& (typing || normal) ==> {
                let up = key_effect(st, if normal { Key::K } else { Key::Up }).0;
                let down = key_effect(st, if normal { Key::J } else { Key::Down }).0;
                &&& up.line == (if st.line > 0 { st.line - 1 } else { 0 })
                &&& down.line == (if st.line < last { st.line + 1 } else { last })
                &&& up.line <= st.line <= down.line
                &&& up.content == st.content && down.content == st.content
            }
            &&& (typing || normal) ==> {
                let left = key_effect(st, if normal { Key::H } else { Key::Left }).0;
                let right = key_effect(st, if normal { Key::L } else { Key::Right }).0;
                &&& left.line == st.line && right.line == st.line
                &&& left.column == (if st.column > 0 { st.column - 1 } else { 0 })
                &&& right.column == (if st.column < utf8_len(st.content[st.line]) { st.column + 1 } else { utf8_len(st.content[st.line]) as int })
                &&& left.content == st.content && right.content == st.content
            }
        }),
{
}

/// Enter in an editor that takes typing splits the cursor's line at the
/// cursor: the text before the cursor stays, the rest becomes the next line,
/// the cursor goes to the start of that new line, and the other lines stay.
pub proof fn lemma_enter_splits_line(st: EditorModel)
    requires
        cursor_in_text(st),
        st.editable,
        st.mode == EditorMode::Insert || !st.vim_enabled,
        new_line_ok(st),
    ensures
        ({
            let r = key_effect(st, Key::Enter).0;
            &&& key_effect(st, Key::Enter).1 == EventHandled::Yes
            &&& r.content.len() == st.content.len() + 1
            &&& r.line == st.line + 1 && r.column == 0
            &&& r.content[st.line] + r.content[st.line + 1] == st.content[st.line]
            &&& utf8_len(r.content[st.line]) == st.column
            &&& forall|j: int| 0 <= j < st.line ==> r.content[j] == st.content[j]
            &&& forall|j: int| st.line < j < st.content.len() ==> r.content[j + 1] == st.content[j]
        }),
{
    let line = st.content[st.line];
    crate::text::lemma_char_index_at(line, st.column);
    let k = char_index_at(line, st.column);
    assert(line.take(k) + line.skip(k) =~= line);
}

} // verus!
