//! Conversational requests for the IDE: what a chat message asks for, and
//! the reply each request puts into the chat.

use vstd::prelude::*;
use std::ops::Range;
use crate::chat::chat_interface::{
    default_actions, push_message, ChatInterface, ChatModel, CodeBlock, MessageType,
};
use crate::chat::code_context::{
    file_content, files_insert, function_match, lemma_files_insert, lemma_function_range_bounds,
    search_hits, CodeContext, FileEntry,
};
use crate::element::{ElementGraph, GraphModel};
use crate::error::UiResult;
use crate::runtime::new_uuid;
use crate::strings::{
    contains_chars, contains_seq, decimal, ends_with_chars, find_chars, find_seq, has_suffix, lemma_find_seq, occurs_at,
    is_ascii_char, is_ascii_text, lowercase, push_all, push_decimal, split_words, to_lowercase, trim_chars, trim_class,
    words_of, CharClass,
};
use crate::text::{
    byte_offset, char_index_at, chars_to_string, is_char_boundary, join_lines, join_with,
    lemma_byte_offset_end, lemma_byte_offset_mono, lemma_char_index_at, locate_byte, split_lines,
    str_byte_len, str_chars, text_lines, utf8_len, ByteLocation,
};

verus! {

/// Request types that can be made through conversation.
#[derive(Debug, Clone)]
pub enum ConversationRequest {
    ShowCode { file_path: String, function_name: Option<String>, line_range: Option<Range<usize>> },
    SearchCode { query: String, file_pattern: Option<String> },
    RunCommand { command: String },
    SaveCode { file_path: String, content: String },
    ExplainCode { code: String, language: String },
    RefactorCode { original: String, instructions: String },
}

/// A conversation request with its texts as character sequences.
pub enum RequestModel {
    ShowCode { file_path: Seq<char>, function_name: Option<Seq<char>>, line_range: Option<(int, int)> },
    SearchCode { query: Seq<char>, file_pattern: Option<Seq<char>> },
    RunCommand { command: Seq<char> },
    SaveCode { file_path: Seq<char>, content: Seq<char> },
    ExplainCode { code: Seq<char>, language: Seq<char> },
    RefactorCode { original: Seq<char>, instructions: Seq<char> },
}

/// The text of an optional string.
pub open spec fn opt_text(s: Option<String>) -> Option<Seq<char>> {
    match s {
        Some(t) => Some(t@),
        None => None,
    }
}

/// The bounds of an optional range.
pub open spec fn opt_bounds(r: Option<Range<usize>>) -> Option<(int, int)> {
    match r {
        Some(x) => Some((x.start as int, x.end as int)),
        None => None,
    }
}

impl View for ConversationRequest {
    type V = RequestModel;

    open spec fn view(&self) -> RequestModel {
        match self {
            ConversationRequest::ShowCode { file_path, function_name, line_range } => RequestModel::ShowCode {
                file_path: file_path@,
                function_name: opt_text(*function_name),
                line_range: opt_bounds(*line_range),
            },
            ConversationRequest::SearchCode { query, file_pattern } => RequestModel::SearchCode {
                query: query@,
                file_pattern: opt_text(*file_pattern),
            },
            ConversationRequest::RunCommand { command } => RequestModel::RunCommand { command: command@ },
            ConversationRequest::SaveCode { file_path, content } => RequestModel::SaveCode {
                file_path: file_path@,
                content: content@,
            },
            ConversationRequest::ExplainCode { code, language } => RequestModel::ExplainCode {
                code: code@,
                language: language@,
            },
            ConversationRequest::RefactorCode { original, instructions } => RequestModel::RefactorCode {
                original: original@,
                instructions: instructions@,
            },
        }
    }
}

/// The model of an optional request.
pub open spec fn opt_request(r: Option<ConversationRequest>) -> Option<RequestModel> {
    match r {
        Some(x) => Some(x@),
        None => None,
    }
}

/// The language named by the extension of `path`.
pub open spec fn language_of(path: Seq<char>) -> Seq<char> {
    if has_suffix(path, ".rs"@) {
        "rust"@
    } else if has_suffix(path, ".js"@) || has_suffix(path, ".jsx"@) {
        "javascript"@
    } else if has_suffix(path, ".ts"@) || has_suffix(path, ".tsx"@) {
        "typescript"@
    } else if has_suffix(path, ".py"@) {
        "python"@
    } else if has_suffix(path, ".go"@) {
        "go"@
    } else if has_suffix(path, ".cpp"@) || has_suffix(path, ".cc"@) {
        "cpp"@
    } else if has_suffix(path, ".c"@) {
        "c"@
    } else if has_suffix(path, ".java"@) {
        "java"@
    } else if has_suffix(path, ".sh"@) || has_suffix(path, ".bash"@) {
        "bash"@
    } else {
        "plain"@
    }
}

/// What a code block in a reply holds (its identifier is fresh).
pub struct BlockSpec {
    pub language: Seq<char>,
    pub content: Seq<char>,
    pub editable: bool,
    pub focused: Option<(int, int)>,
}

/// The code block `b` holds what `s` describes.
pub open spec fn block_matches(b: CodeBlock, s: BlockSpec) -> bool {
    &&& b.language@ == s.language
    &&& b.content@ == s.content
    &&& b.editable == s.editable
    &&& opt_bounds(b.focused_lines) == s.focused
}

/// The code blocks `bs` hold what `specs` describe, in order.
pub open spec fn blocks_match(bs: Seq<CodeBlock>, specs: Seq<BlockSpec>) -> bool {
    &&& bs.len() == specs.len()
    &&& forall|i: int| 0 <= i < bs.len() ==> block_matches(#[trigger] bs[i], specs[i])
}

/// Lines `range` of `content`, joined by newlines.
pub open spec fn line_snippet(content: Seq<char>, range: (int, int)) -> Seq<char> {
    join_with(text_lines(content).subrange(range.0, range.1), '\n')
}

/// The code shown for a file and the lines it focuses on.
pub open spec fn shown_code(
    files: Seq<FileEntry>,
    path: Seq<char>,
    function_name: Option<Seq<char>>,
    line_range: Option<(int, int)>,
) -> (Seq<char>, Option<(int, int)>) {
    let content = file_content(files, path);
    match function_name {
        Some(f) => match function_match(files, f) {
            Some(found) => (line_snippet(content, found.1), Some(found.1)),
            None => (content, None),
        },
        None => match line_range {
            Some(r) => (line_snippet(content, r), Some(r)),
            None => (content, None),
        },
    }
}

/// The text of a search hit: path, line number counted from one, and the line.
pub open spec fn hit_text(hit: (Seq<char>, int, Seq<char>)) -> Seq<char> {
    hit.0 + ":"@ + decimal((hit.1 + 1) as nat) + ": "@ + hit.2
}

/// Number of search hits shown as code blocks.
pub const MAX_SHOWN_HITS: usize = 5;

/// The code blocks of the first hits of a search.
pub open spec fn hit_blocks(hits: Seq<(Seq<char>, int, Seq<char>)>) -> Seq<BlockSpec> {
    let n = if hits.len() < MAX_SHOWN_HITS { hits.len() } else { MAX_SHOWN_HITS as nat };
    Seq::new(n, |i: int| BlockSpec { language: language_of(hits[i].0), content: hit_text(hits[i]), editable: false, focused: None })
}

/// The text of the reply to a search.
pub open spec fn search_reply(query: Seq<char>, count: nat) -> Seq<char> {
    if count == 0 {
        "No results found for '"@ + query + "'"@
    } else {
        "Found "@ + decimal(count) + " results for '"@ + query + "':"@
    }
}

/// The text of the reply to `req`, given the files known before it.
pub open spec fn reply_text(files: Seq<FileEntry>, req: RequestModel) -> Seq<char> {
    match req {
        RequestModel::ShowCode { file_path, .. } => "Here's the code from "@ + file_path + ":"@,
        RequestModel::SearchCode { query, file_pattern } => search_reply(query, search_hits(files, query, file_pattern).len()),
        RequestModel::RunCommand { .. } => "Command output:"@,
        RequestModel::SaveCode { file_path, .. } => "Code saved to "@ + file_path,
        RequestModel::ExplainCode { .. } => "Code explanation would be generated here using AI analysis."@,
        RequestModel::RefactorCode { instructions, .. } => "Refactored code based on: "@ + instructions,
    }
}

/// The code blocks of the reply to `req`, given the files known before it.
pub open spec fn reply_blocks(files: Seq<FileEntry>, req: RequestModel) -> Seq<BlockSpec> {
    match req {
        RequestModel::ShowCode { file_path, function_name, line_range } => {
            let shown = shown_code(files, file_path, function_name, line_range);
            seq![BlockSpec { language: language_of(file_path), content: shown.0, editable: true, focused: shown.1 }]
        },
        RequestModel::SearchCode { query, file_pattern } => hit_blocks(search_hits(files, query, file_pattern)),
        RequestModel::RunCommand { command } => seq![BlockSpec {
            language: "bash"@,
            content: "$ "@ + command + "\n[Command execution not yet implemented]"@,
            editable: false,
            focused: None,
        }],
        RequestModel::SaveCode { .. } => Seq::empty(),
        RequestModel::ExplainCode { code, language } => seq![BlockSpec { language, content: code, editable: false, focused: None }],
        RequestModel::RefactorCode { original, .. } => seq![BlockSpec { language: "rust"@, content: original, editable: true, focused: None }],
    }
}

/// The files after `req`: a saved file is stored, nothing else changes them.
pub open spec fn files_after(files: Seq<FileEntry>, req: RequestModel) -> Seq<FileEntry> {
    match req {
        RequestModel::SaveCode { file_path, content } => files_insert(files, file_path, content),
        _ => files,
    }
}

/// The lines that `req` takes out of a file exist there.
pub open spec fn request_in_range(files: Seq<FileEntry>, req: RequestModel) -> bool {
    match req {
        RequestModel::ShowCode { file_path, function_name, line_range } => {
            let lines = text_lines(file_content(files, file_path));
            match function_name {
                Some(f) => match function_match(files, f) {
                    Some(found) => found.1.1 <= lines.len(),
                    None => true,
                },
                None => match line_range {
                    Some(r) => 0 <= r.0 <= r.1 <= lines.len(),
                    None => true,
                },
            }
        },
        _ => true,
    }
}

/// A file saved through the conversation is what showing that file then
/// shows, whole and unfocused, in an editable block.
pub proof fn lemma_save_then_show(files: Seq<FileEntry>, path: Seq<char>, content: Seq<char>)
    requires
        crate::chat::code_context::distinct_paths(files),
    ensures
        ({
            let after = files_after(files, RequestModel::SaveCode { file_path: path, content });
            let blocks = reply_blocks(after, RequestModel::ShowCode { file_path: path, function_name: None, line_range: None });
            &&& blocks.len() == 1
            &&& blocks[0].content == content
            &&& blocks[0].focused is None
            &&& blocks[0].editable
        }),
{
    lemma_files_insert(files, path, content);
}

/// First position, from `i` on, of the word `w` among `words`.
pub open spec fn word_index_from(words: Seq<Seq<char>>, w: Seq<char>, i: int) -> Option<int>
    decreases words.len() - i,
{
    if i < 0 || i >= words.len() {
        None
    } else if words[i] == w {
        Some(i)
    } else {
        word_index_from(words, w, i + 1)
    }
}

/// The query after a keyword found at character `k` of the lowercase text:
/// the message from `skip` bytes past the keyword's byte offset, trimmed.
pub open spec fn query_after(m: Seq<char>, l: Seq<char>, k: int, skip: int) -> Seq<char> {
    trim_class(m.skip(char_index_at(m, byte_offset(l, k) + skip)), CharClass::Whitespace)
}

/// The request a message `m` asks for, given its lowercase form `l`.
pub open spec fn parse_spec(m: Seq<char>, l: Seq<char>) -> Option<RequestModel> {
    if contains_seq(l, "show me"@) || contains_seq(l, "display"@) {
        if contains_seq(l, "function"@) {
            let ws = split_words(m);
            match word_index_from(ws, "function"@, 0) {
                Some(i) => if i + 1 < ws.len() {
                    Some(RequestModel::ShowCode {
                        file_path: Seq::empty(),
                        function_name: Some(trim_class(ws[i + 1], CharClass::NotAlphanumeric)),
                        line_range: None,
                    })
                } else {
                    None
                },
                None => None,
            }
        } else {
            None
        }
    } else if contains_seq(l, "search for"@) || contains_seq(l, "find"@) {
        match find_seq(l, "search for"@) {
            Some(k) => Some(RequestModel::SearchCode { query: query_after(m, l, k, 10), file_pattern: None }),
            None => match find_seq(l, "find"@) {
                Some(k) => Some(RequestModel::SearchCode { query: query_after(m, l, k, 4), file_pattern: None }),
                None => None,
            },
        }
    } else if contains_seq(l, "run"@) || contains_seq(l, "execute"@) {
        match find_seq(m, seq!['`']) {
            Some(a) => match find_seq(m.skip(a + 1), seq!['`']) {
                Some(b) => Some(RequestModel::RunCommand { command: m.subrange(a + 1, a + 1 + b) }),
                None => None,
            },
            None => None,
        }
    } else if contains_seq(l, "explain"@) {
        Some(RequestModel::ExplainCode { code: Seq::empty(), language: "rust"@ })
    } else {
        None
    }
}

proof fn lemma_word_index_first(words: Seq<Seq<char>>, w: Seq<char>, k: int, i: int)
    requires
        0 <= k <= i < words.len(),
        words[i] == w,
        forall|j: int| k <= j < i ==> words[j] != w,
    ensures
        word_index_from(words, w, k) == Some(i),
    decreases i - k,
{
    if k < i {
        lemma_word_index_first(words, w, k + 1, i);
    }
}

/// A message whose lowercase form asks to "show me" or to "display"
/// something and mentions "function" asks to show the function named by the
/// word after the first word "function" of the message (trimmed of
/// characters that are not alphanumeric), in no particular file and over no
/// line range; which of the two phrasings is used makes no difference.
pub proof fn lemma_show_function_request(m: Seq<char>, l: Seq<char>, i: int)
    requires
        contains_seq(l, "show me"@) || contains_seq(l, "display"@),
        contains_seq(l, "function"@),
        0 <= i,
        i + 1 < split_words(m).len(),
        split_words(m)[i] == "function"@,
        forall|j: int| 0 <= j < i ==> split_words(m)[j] != "function"@,
    ensures
        parse_spec(m, l) == Some(RequestModel::ShowCode {
            file_path: Seq::empty(),
            function_name: Some(trim_class(split_words(m)[i + 1], CharClass::NotAlphanumeric)),
            line_range: None,
        }),
{
    lemma_word_index_first(split_words(m), "function"@, 0, i);
}

/// The other requests a message can ask for, by its lowercase form `l`:
/// asking to show or display without a "function" asks for nothing;
/// otherwise "search for" (or else "find") asks to search for what follows
/// it, "run" or "execute" to run the command between the message's first
/// two backquotes, and "explain" for an explanation of Rust code, each only
/// when none of the earlier phrasings occurs; a message with none of these
/// words asks for nothing.
pub proof fn lemma_other_requests(m: Seq<char>, l: Seq<char>)
    ensures
        ({
            let show = contains_seq(l, "show me"@) || contains_seq(l, "display"@);
            let search = contains_seq(l, "search for"@) || contains_seq(l, "find"@);
            let run = contains_seq(l, "run"@) || contains_seq(l, "execute"@);
            let explain = contains_seq(l, "explain"@);
            &&& show && !contains_seq(l, "function"@) ==> parse_spec(m, l) is None
            &&& !show && search ==> (parse_spec(m, l) matches Some(RequestModel::SearchCode { query, file_pattern }) && file_pattern is None
                && query == (match find_seq(l, "search for"@) {
                    Some(k) => query_after(m, l, k, 10),
                    None => query_after(m, l, find_seq(l, "find"@)->0, 4),
                }))
            &&& !show && !search && !run && explain ==> parse_spec(m, l) == Some(RequestModel::ExplainCode { code: Seq::empty(), language: "rust"@ })
            &&& !show && !search && !run && !explain ==> parse_spec(m, l) is None
            &&& !show && !search && run && !m.contains('`') ==> parse_spec(m, l) is None
        }),
{
    lemma_find_seq(l, "search for"@);
    lemma_find_seq(l, "find"@);
    lemma_find_seq(m, seq!['`']);
    if !m.contains('`') {
        if find_seq(m, seq!['`']) is Some {
            let a = find_seq(m, seq!['`'])->0;
            assert(m.subrange(a, a + 1) == seq!['`']);
            assert(m[a] == m.subrange(a, a + 1)[0]);
        }
    }
}

/// In ASCII text every character position is its byte offset.
proof fn lemma_ascii_offset(s: Seq<char>, j: int)
    requires
        is_ascii_text(s),
        0 <= j <= s.len(),
    ensures
        byte_offset(s, j) == j,
        is_char_boundary(s, j),
        char_index_at(s, j) == j,
{
    assert(forall|i: int| 0 <= i < s.take(j).len() ==> (#[trigger] s.take(j)[i] as u32) < 0x80) by {
        assert forall|i: int| 0 <= i < s.take(j).len() implies (#[trigger] s.take(j)[i] as u32) < 0x80 by {
            assert(s.take(j)[i] == s[i]);
            assert(is_ascii_char(s[i]));
        }
    }
    crate::terminal::emulator::lemma_ascii_utf8_len(s.take(j));
    assert(byte_offset(s, j) == j);
    assert(is_char_boundary(s, j));
    lemma_char_index_at(s, j);
    crate::text::lemma_byte_offset_injective(s, char_index_at(s, j), j);
}

/// For an ASCII message and its lowercase form (as long as the message), a
/// search asks for the rest of the message after the first "search for" (or,
/// when there is none, after the first "find"), with surrounding white space
/// trimmed.
pub proof fn lemma_search_query_ascii(m: Seq<char>, l: Seq<char>)
    requires
        is_ascii_text(m),
        is_ascii_text(l),
        l.len() == m.len(),
        !(contains_seq(l, "show me"@) || contains_seq(l, "display"@)),
        contains_seq(l, "search for"@) || contains_seq(l, "find"@),
    ensures
        parse_spec(m, l) matches Some(RequestModel::SearchCode { query, file_pattern }) && file_pattern is None
            && query == (match find_seq(l, "search for"@) {
                Some(k) => trim_class(m.skip(k + 10), CharClass::Whitespace),
                None => trim_class(m.skip(find_seq(l, "find"@)->0 + 4), CharClass::Whitespace),
            }),
{
    lemma_find_seq(l, "search for"@);
    lemma_find_seq(l, "find"@);
    reveal_strlit("search for");
    reveal_strlit("find");
    match find_seq(l, "search for"@) {
        Some(k) => {
            assert(occurs_at(l, "search for"@, k));
            lemma_ascii_offset(l, k);
            lemma_ascii_offset(m, k + 10);
        },
        None => {
            let k = find_seq(l, "find"@)->0;
            assert(occurs_at(l, "find"@, k));
            lemma_ascii_offset(l, k);
            lemma_ascii_offset(m, k + 4);
        },
    }
}

/// Where the first backquote of `m` is.
proof fn lemma_first_tick(m: Seq<char>, a: int)
    requires
        0 <= a < m.len(),
        m[a] == '`',
        forall|j: int| 0 <= j < a ==> m[j] != '`',
    ensures
        find_seq(m, seq!['`']) == Some(a),
{
    let tick = seq!['`'];
    lemma_find_seq(m, tick);
    assert(occurs_at(m, tick, a)) by {
        assert(m.subrange(a, a + 1) =~= tick);
    }
    let k = find_seq(m, tick)->0;
    assert(m.subrange(k, k + 1) == tick);
    assert(m[k] == m.subrange(k, k + 1)[0]);
}

/// A message asking to run or execute something (and not to show, display,
/// search for or find anything) runs the text between its first backquote
/// (at `a`) and the next one (`b` characters after it).
pub proof fn lemma_run_request(m: Seq<char>, l: Seq<char>, a: int, b: int)
    requires
        !(contains_seq(l, "show me"@) || contains_seq(l, "display"@)),
        !(contains_seq(l, "search for"@) || contains_seq(l, "find"@)),
        contains_seq(l, "run"@) || contains_seq(l, "execute"@),
        0 <= a,
        0 <= b,
        a + 1 + b < m.len(),
        m[a] == '`',
        m[a + 1 + b] == '`',
        forall|j: int| 0 <= j < a ==> m[j] != '`',
        forall|j: int| a < j < a + 1 + b ==> m[j] != '`',
    ensures
        parse_spec(m, l) == Some(RequestModel::RunCommand { command: m.subrange(a + 1, a + 1 + b) }),
{
    lemma_first_tick(m, a);
    let rest = m.skip(a + 1);
    assert forall|j: int| 0 <= j < b implies rest[j] != '`' by {
        assert(rest[j] == m[a + 1 + j]);
    }
    lemma_first_tick(rest, b);
}

/// A message asking to run or execute something (and not to show, display,
/// search for or find anything) whose first backquote is not followed by
/// another asks for nothing.
pub proof fn lemma_run_request_unclosed(m: Seq<char>, l: Seq<char>, a: int)
    requires
        !(contains_seq(l, "show me"@) || contains_seq(l, "display"@)),
        !(contains_seq(l, "search for"@) || contains_seq(l, "find"@)),
        contains_seq(l, "run"@) || contains_seq(l, "execute"@),
        0 <= a < m.len(),
        m[a] == '`',
        forall|j: int| 0 <= j < m.len() && j != a ==> m[j] != '`',
    ensures
        parse_spec(m, l) is None,
{
    lemma_first_tick(m, a);
    let rest = m.skip(a + 1);
    let tick = seq!['`'];
    lemma_find_seq(rest, tick);
    if find_seq(rest, tick) is Some {
        let c = find_seq(rest, tick)->0;
        assert(rest.subrange(c, c + 1) == tick);
        assert(rest[c] == rest.subrange(c, c + 1)[0]);
        assert(rest[c] == m[a + 1 + c]);
    }
}

/// The byte position where a search query starts, taken from the lowercase
/// text, falls on a character boundary of the message.
pub open spec fn parse_slicing_ok(m: Seq<char>, l: Seq<char>) -> bool {
    (!(contains_seq(l, "show me"@) || contains_seq(l, "display"@)) && (contains_seq(l, "search for"@) || contains_seq(l, "find"@)))
        ==> match find_seq(l, "search for"@) {
        Some(k) => is_char_boundary(m, byte_offset(l, k) + 10int),
        None => match find_seq(l, "find"@) {
            Some(k) => is_char_boundary(m, byte_offset(l, k) + 4int),
            None => true,
        },
    }
}

/// Whether two character vectors are equal.
fn chars_equal(a: &Vec<char>, b: &Vec<char>) -> (r: bool)
    ensures
        r == (a@ == b@),
{
    if a.len() != b.len() {
        return false;
    }
    let mut i: usize = 0;
    while i < a.len()
        invariant
            0 <= i <= a@.len(),
            a@.len() == b@.len(),
            forall|j: int| 0 <= j < i ==> a@[j] == b@[j],
        decreases a@.len() - i,
    {
        if a[i] != b[i] {
            return false;
        }
        i = i + 1;
    }
    proof {
        assert(a@ =~= b@);
    }
    true
}

/// Byte offset of the character position `k` of `s`.
fn prefix_bytes(s: &Vec<char>, k: usize) -> (n: usize)
    requires
        k <= s@.len(),
        utf8_len(s@) <= isize::MAX,
    ensures
        n == byte_offset(s@, k as int),
{
    let mut i: usize = 0;
    let mut acc: usize = 0;
    proof {
        assert(s@.take(0) =~= Seq::<char>::empty());
        lemma_byte_offset_end(s@);
    }
    while i < k
        invariant
            0 <= i <= k,
            k <= s@.len(),
            acc == byte_offset(s@, i as int),
            byte_offset(s@, s@.len() as int) <= isize::MAX,
        decreases k - i,
    {
        proof {
            assert(s@.take(i + 1).drop_last() =~= s@.take(i as int));
            assert(s@.take(i + 1).last() == s@[i as int]);
            lemma_byte_offset_mono(s@, i + 1, s@.len() as int);
        }
        acc = acc + crate::text::char_len_utf8(s[i]);
        i = i + 1;
    }
    acc
}

/// The character position of the byte offset `skip` past the start of the
/// keyword at character `k` of `l`, when that offset is a boundary of `m`.
fn query_start(m: &Vec<char>, l: &Vec<char>, k: usize, skip: usize) -> (r: Option<usize>)
    requires
        k <= l@.len(),
        utf8_len(l@) <= isize::MAX,
        utf8_len(m@) <= isize::MAX,
        skip <= 10,
    ensures
        match r {
            Some(ci) => is_char_boundary(m@, byte_offset(l@, k as int) + skip) && ci == char_index_at(m@, byte_offset(l@, k as int) + skip) && ci <= m@.len(),
            None => !is_char_boundary(m@, byte_offset(l@, k as int) + skip),
        },
{
    let b = prefix_bytes(l, k);
    proof {
        lemma_byte_offset_mono(l@, k as int, l@.len() as int);
        lemma_byte_offset_end(l@);
    }
    let target = b + skip;
    match locate_byte(m, target) {
        ByteLocation::Boundary(ci) => Some(ci),
        ByteLocation::Inside => None,
        ByteLocation::AtEnd => {
            let total = crate::text::utf8_byte_len(m);
            if target == total {
                proof {
                    lemma_byte_offset_end(m@);
                    assert(is_char_boundary(m@, target as int));
                    lemma_char_index_at(m@, target as int);
                    crate::text::lemma_byte_offset_injective(m@, char_index_at(m@, target as int), m@.len() as int);
                }
                Some(m.len())
            } else {
                proof {
                    if is_char_boundary(m@, target as int) {
                        lemma_char_index_at(m@, target as int);
                    }
                }
                None
            }
        },
    }
}

/// The characters of `m` from position `start` on.
fn chars_from(m: &Vec<char>, start: usize) -> (r: Vec<char>)
    requires
        start <= m@.len(),
    ensures
        r@ == m@.skip(start as int),
{
    let mut r: Vec<char> = Vec::new();
    let mut i: usize = start;
    while i < m.len()
        invariant
            start <= i <= m@.len(),
            r@ == m@.subrange(start as int, i as int),
        decreases m@.len() - i,
    {
        r.push(m[i]);
        proof {
            assert(m@.subrange(start as int, i + 1) =~= m@.subrange(start as int, i as int).push(m@[i as int]));
        }
        i = i + 1;
    }
    proof {
        assert(m@.subrange(start as int, m@.len() as int) =~= m@.skip(start as int));
    }
    r
}

/// The search request for the query after a keyword, when the query's start is a boundary.
fn search_after(m: &Vec<char>, l: &Vec<char>, k: usize, skip: usize) -> (r: Option<ConversationRequest>)
    requires
        k <= l@.len(),
        utf8_len(l@) <= isize::MAX,
        utf8_len(m@) <= isize::MAX,
        skip <= 10,
    ensures
        match r {
            Some(req) => is_char_boundary(m@, byte_offset(l@, k as int) + skip) && req@ == (RequestModel::SearchCode {
                query: query_after(m@, l@, k as int, skip as int),
                file_pattern: None,
            }),
            None => !is_char_boundary(m@, byte_offset(l@, k as int) + skip),
        },
{
    match query_start(m, l, k, skip) {
        Some(ci) => {
            let rest = chars_from(m, ci);
            let q = trim_chars(&rest, CharClass::Whitespace);
            Some(ConversationRequest::SearchCode { query: chars_to_string(q.as_slice()), file_pattern: None })
        },
        None => None,
    }
}

/// Parses a message, given its lowercase form; `None` inside `Some` means the
/// message asks for nothing, an outer `None` that the search query would
/// start inside a character of the message.
fn parse_core(message: &str, lower: &str) -> (r: Option<Option<ConversationRequest>>)
    ensures
        match r {
            Some(req) => parse_slicing_ok(message@, lower@) && opt_request(req) == parse_spec(message@, lower@),
            None => !parse_slicing_ok(message@, lower@),
        },
{
    let m = str_chars(message);
    let l = str_chars(lower);
    let _mb = str_byte_len(message);
    let _lb = str_byte_len(lower);
    if contains_chars(&l, &str_chars("show me")) || contains_chars(&l, &str_chars("display")) {
        if contains_chars(&l, &str_chars("function")) {
            let words = words_of(&m);
            let ghost ws = words@.map_values(|x: Vec<char>| x@);
            let target = str_chars("function");
            let mut i: usize = 0;
            while i < words.len()
                invariant
                    0 <= i <= words@.len(),
                    m@ == message@,
                    l@ == lower@,
                    contains_seq(l@, "show me"@) || contains_seq(l@, "display"@),
                    contains_seq(l@, "function"@),
                    ws == words@.map_values(|x: Vec<char>| x@),
                    ws == split_words(m@),
                    target@ == "function"@,
                    word_index_from(ws, "function"@, 0) == word_index_from(ws, "function"@, i as int),
                decreases words@.len() - i,
            {
                if chars_equal(&words[i], &target) {
                    proof {
                        assert(ws[i as int] == words@[i as int]@);
                        assert(word_index_from(ws, "function"@, i as int) == Some(i as int));
                    }
                    if i + 1 < words.len() {
                        proof {
                            assert(ws[i + 1] == words@[i + 1]@);
                        }
                        let name = trim_chars(&words[i + 1], CharClass::NotAlphanumeric);
                        return Some(Some(ConversationRequest::ShowCode {
                            file_path: String::new(),
                            function_name: Some(chars_to_string(name.as_slice())),
                            line_range: None,
                        }));
                    }
                    return Some(None);
                }
                proof {
                    assert(ws[i as int] == words@[i as int]@);
                }
                i = i + 1;
            }
        }
        return Some(None);
    }
    if contains_chars(&l, &str_chars("search for")) || contains_chars(&l, &str_chars("find")) {
        match find_chars(&l, &str_chars("search for")) {
            Some(k) => {
                proof {
                    crate::strings::lemma_find_seq(l@, "search for"@);
                }
                return match search_after(&m, &l, k, 10) {
                    Some(req) => Some(Some(req)),
                    None => None,
                };
            },
            None => {},
        }
        match find_chars(&l, &str_chars("find")) {
            Some(k) => {
                proof {
                    crate::strings::lemma_find_seq(l@, "find"@);
                }
                return match search_after(&m, &l, k, 4) {
                    Some(req) => Some(Some(req)),
                    None => None,
                };
            },
            None => {},
        }
        return Some(None);
    }
    if contains_chars(&l, &str_chars("run")) || contains_chars(&l, &str_chars("execute")) {
        let mlen = m.len();
        let tick = vec!['`'];
        proof {
            assert(tick@ =~= seq!['`']);
        }
        match find_chars(&m, &tick) {
            Some(a) => {
                proof {
                    crate::strings::lemma_find_seq(m@, seq!['`']);
                }
                let rest = chars_from(&m, a + 1);
                match find_chars(&rest, &tick) {
                    Some(b) => {
                        proof {
                            crate::strings::lemma_find_seq(rest@, seq!['`']);
                        }
                        let mut command: Vec<char> = Vec::new();
                        let mut j: usize = 0;
                        while j < b
                            invariant
                                0 <= j <= b,
                                b <= rest@.len(),
                                command@ == rest@.take(j as int),
                            decreases b - j,
                        {
                            command.push(rest[j]);
                            proof {
                                assert(rest@.take(j + 1) =~= rest@.take(j as int).push(rest@[j as int]));
                            }
                            j = j + 1;
                        }
                        proof {
                            assert(rest@.take(b as int) =~= m@.subrange(a + 1, a + 1 + b));
                        }
                        return Some(Some(ConversationRequest::RunCommand { command: chars_to_string(command.as_slice()) }));
                    },
                    None => {
                        return Some(None);
                    },
                }
            },
            None => {
                return Some(None);
            },
        }
    }
    if contains_chars(&l, &str_chars("explain")) {
        return Some(Some(ConversationRequest::ExplainCode { code: String::new(), language: String::from_str("rust") }));
    }
    Some(None)
}

/// Parses a message whose lowercase form is `lower` into the request it asks for.
pub fn parse_lowered(message: &str, lower: &str) -> (r: Option<ConversationRequest>)
    requires
        parse_slicing_ok(message@, lower@),
    ensures
        opt_request(r) == parse_spec(message@, lower@),
{
    match parse_core(message, lower) {
        Some(req) => req,
        None => None,
    }
}

/// Whether a message with lowercase form `lower` can be parsed: a search
/// query's start, located in the lowercase text, is a boundary of the message.
pub fn can_parse_lowered(message: &str, lower: &str) -> (b: bool)
    ensures
        b == parse_slicing_ok(message@, lower@),
{
    parse_core(message, lower).is_some()
}

/// The language named by the extension of `path`.
pub fn detect_language(path: &str) -> (r: String)
    ensures
        r@ == language_of(path@),
{
    let p = str_chars(path);
    if ends_with_chars(&p, &str_chars(".rs")) {
        String::from_str("rust")
    } else if ends_with_chars(&p, &str_chars(".js")) || ends_with_chars(&p, &str_chars(".jsx")) {
        String::from_str("javascript")
    } else if ends_with_chars(&p, &str_chars(".ts")) || ends_with_chars(&p, &str_chars(".tsx")) {
        String::from_str("typescript")
    } else if ends_with_chars(&p, &str_chars(".py")) {
        String::from_str("python")
    } else if ends_with_chars(&p, &str_chars(".go")) {
        String::from_str("go")
    } else if ends_with_chars(&p, &str_chars(".cpp")) || ends_with_chars(&p, &str_chars(".cc")) {
        String::from_str("cpp")
    } else if ends_with_chars(&p, &str_chars(".c")) {
        String::from_str("c")
    } else if ends_with_chars(&p, &str_chars(".java")) {
        String::from_str("java")
    } else if ends_with_chars(&p, &str_chars(".sh")) || ends_with_chars(&p, &str_chars(".bash")) {
        String::from_str("bash")
    } else {
        String::from_str("plain")
    }
}

/// Lines `start..end` of `content`, joined by newlines.
fn snippet_of(content: &str, start: usize, end: usize) -> (r: String)
    requires
        start <= end <= text_lines(content@).len(),
    ensures
        r@ == line_snippet(content@, (start as int, end as int)),
{
    let chars = str_chars(content);
    let lines = split_lines(&chars);
    let ghost ls = text_lines(content@);
    let mut picked: Vec<Vec<char>> = Vec::new();
    let mut i: usize = start;
    while i < end
        invariant
            start <= i <= end,
            end <= lines@.len(),
            lines@.len() == ls.len(),
            forall|j: int| 0 <= j < lines@.len() ==> #[trigger] lines@[j]@ == ls[j],
            picked@.map_values(|l: Vec<char>| l@) == ls.subrange(start as int, i as int),
        decreases end - i,
    {
        let ghost before = picked@.map_values(|l: Vec<char>| l@);
        let mut copy: Vec<char> = Vec::new();
        push_all(&mut copy, &lines[i]);
        proof {
            assert(copy@ =~= lines@[i as int]@);
        }
        picked.push(copy);
        proof {
            assert(picked@.map_values(|l: Vec<char>| l@) =~= before.push(ls[i as int]));
            assert(picked@.map_values(|l: Vec<char>| l@) =~= ls.subrange(start as int, i + 1));
        }
        i = i + 1;
    }
    join_lines(&picked, '\n')
}

/// A string made of the characters of `parts`, one after the other.
fn concat3(a: &str, b: &str, c: &str) -> (r: String)
    ensures
        r@ == a@ + b@ + c@,
{
    let mut out = str_chars(a);
    push_all(&mut out, &str_chars(b));
    push_all(&mut out, &str_chars(c));
    chars_to_string(out.as_slice())
}

/// A code block with a fresh identifier.
fn new_block(language: String, content: String, editable: bool, focused_lines: Option<Range<usize>>) -> (b: CodeBlock)
    ensures
        b.language@ == language@,
        b.content@ == content@,
        b.editable == editable,
        b.focused_lines == focused_lines,
{
    CodeBlock { id: new_uuid(), language, content, editable, focused_lines }
}

/// Handles conversational requests and coordinates with UI elements.
pub struct ConversationHandler {
    chat_interface: ChatInterface,
    code_context: CodeContext,
    element_graph: ElementGraph,
}

impl ConversationHandler {
    /// The chat the handler replies in.
    pub closed spec fn chat(&self) -> ChatModel {
        self.chat_interface@
    }

    /// The files the handler knows.
    pub closed spec fn files(&self) -> Seq<FileEntry> {
        self.code_context@
    }

    /// The element graph the handler coordinates with.
    pub closed spec fn graph(&self) -> GraphModel {
        self.element_graph@
    }

    /// The chat is well formed and no two files share a path.
    pub closed spec fn wf(&self) -> bool {
        self.chat_interface.wf() && self.code_context.wf()
    }

    /// A handler replying in `chat_interface`, with no files known yet.
    pub fn new(chat_interface: ChatInterface, element_graph: ElementGraph) -> (h: Self)
        requires
            chat_interface.wf(),
        ensures
            h.wf(),
            h.chat() == chat_interface@,
            h.files() == Seq::<FileEntry>::empty(),
            h.graph() == element_graph@,
    {
        ConversationHandler { chat_interface, code_context: CodeContext::new(), element_graph }
    }

    /// The chat interface.
    pub fn chat_interface(&self) -> (c: &ChatInterface)
        ensures
            c@ == self.chat(),
            self.wf() ==> c.wf(),
    {
        &self.chat_interface
    }

    /// The known files.
    pub fn code_context(&self) -> (c: &CodeContext)
        ensures
            c@ == self.files(),
            self.wf() ==> c.wf(),
    {
        &self.code_context
    }

    /// Processes a request: the reply is appended to the chat as an assistant
    /// message, and a saved file is stored.
    pub fn handle_request(&mut self, request: ConversationRequest) -> (r: UiResult<()>)
        requires
            old(self).wf(),
            request_in_range(old(self).files(), request@),
        ensures
            r is Ok,
            final(self).wf(),
            final(self).chat().messages.len() > 0,
            final(self).chat() == (ChatModel {
                messages: push_message(old(self).chat().messages, final(self).chat().messages.last()),
                dirty: true,
                ..old(self).chat()
            }),
            final(self).chat().messages.last().message_type == MessageType::Assistant,
            final(self).chat().messages.last().content@ == reply_text(old(self).files(), request@),
            blocks_match(final(self).chat().messages.last().code_blocks@, reply_blocks(old(self).files(), request@)),
            reply_blocks(old(self).files(), request@).len() > 0 ==> default_actions(final(self).chat().messages.last().context_actions@),
            reply_blocks(old(self).files(), request@).len() == 0 ==> final(self).chat().messages.last().context_actions@.len() == 0,
            final(self).files() == files_after(old(self).files(), request@),
            final(self).graph() == old(self).graph(),
    {
        let ghost req = request@;
        match request {
            ConversationRequest::ShowCode { file_path, function_name, line_range } => {
                self.show_code(file_path, function_name, line_range);
            },
            ConversationRequest::SearchCode { query, file_pattern } => {
                self.search_code(query, file_pattern);
            },
            ConversationRequest::RunCommand { command } => {
                self.run_command(command);
            },
            ConversationRequest::SaveCode { file_path, content } => {
                self.save_code(file_path, content);
            },
            ConversationRequest::ExplainCode { code, language } => {
                self.explain_code(code, language);
            },
            ConversationRequest::RefactorCode { original, instructions } => {
                self.refactor_code(original, instructions);
            },
        }
        Ok(())
    }

    /// Shows a file's code, a function of it or a range of its lines as an editable block.
    fn show_code(&mut self, file_path: String, function_name: Option<String>, line_range: Option<Range<usize>>)
        requires
            old(self).wf(),
            request_in_range(
                old(self).files(),
                RequestModel::ShowCode {
                    file_path: file_path@,
                    function_name: opt_text(function_name),
                    line_range: opt_bounds(line_range),
                },
            ),
        ensures
            final(self).wf(),
            final(self).chat().messages.len() > 0,
            final(self).chat() == (ChatModel {
                messages: push_message(old(self).chat().messages, final(self).chat().messages.last()),
                dirty: true,
                ..old(self).chat()
            }),
            final(self).chat().messages.last().message_type == MessageType::Assistant,
            final(self).chat().messages.last().content@ == "Here's the code from "@ + file_path@ + ":"@,
            blocks_match(
                final(self).chat().messages.last().code_blocks@,
                reply_blocks(
                    old(self).files(),
                    RequestModel::ShowCode {
                        file_path: file_path@,
                        function_name: opt_text(function_name),
                        line_range: opt_bounds(line_range),
                    },
                ),
            ),
            default_actions(final(self).chat().messages.last().context_actions@),
            final(self).files() == old(self).files(),
            final(self).graph() == old(self).graph(),
    {
        let ghost files = self.files();
        let content: String = match self.code_context.get_file(file_path.as_str()) {
            Some(c) => c,
            None => String::new(),
        };
        let ghost lines = text_lines(content@);
        let shown: (String, Option<Range<usize>>) = match function_name {
            Some(f) => match self.code_context.find_function(f.as_str()) {
                Some(found) => {
                    let range = found.1;
                    proof {
                        crate::chat::code_context::lemma_function_match_from_bounds(files, f@, 0);
                    }
                    let s = snippet_of(content.as_str(), range.start, range.end);
                    (s, Some(range))
                },
                None => (content.clone(), None),
            },
            None => match line_range {
                Some(r) => {
                    let s = snippet_of(content.as_str(), r.start, r.end);
                    (s, Some(r))
                },
                None => (content.clone(), None),
            },
        };
        let block = new_block(detect_language(file_path.as_str()), shown.0, true, shown.1);
        let message = concat3("Here's the code from ", file_path.as_str(), ":");
        let blocks = vec![block];
        self.chat_interface.add_assistant_message(message, blocks);
    }

    /// Searches the known files and shows the first hits.
    fn search_code(&mut self, query: String, file_pattern: Option<String>)
        requires
            old(self).wf(),
        ensures
            final(self).wf(),
            final(self).chat().messages.len() > 0,
            final(self).chat() == (ChatModel {
                messages: push_message(old(self).chat().messages, final(self).chat().messages.last()),
                dirty: true,
                ..old(self).chat()
            }),
            final(self).chat().messages.last().message_type == MessageType::Assistant,
            final(self).chat().messages.last().content@ == reply_text(
                old(self).files(),
                RequestModel::SearchCode { query: query@, file_pattern: opt_text(file_pattern) },
            ),
            blocks_match(
                final(self).chat().messages.last().code_blocks@,
                reply_blocks(old(self).files(), RequestModel::SearchCode { query: query@, file_pattern: opt_text(file_pattern) }),
            ),
            reply_blocks(old(self).files(), RequestModel::SearchCode { query: query@, file_pattern: opt_text(file_pattern) }).len() > 0
                ==> default_actions(final(self).chat().messages.last().context_actions@),
            reply_blocks(old(self).files(), RequestModel::SearchCode { query: query@, file_pattern: opt_text(file_pattern) }).len() == 0
                ==> final(self).chat().messages.last().context_actions@.len() == 0,
            final(self).files() == old(self).files(),
            final(self).graph() == old(self).graph(),
    {
        let pattern: Option<&str> = match &file_pattern {
            Some(p) => Some(p.as_str()),
            None => None,
        };
        let results = self.code_context.search_code(query.as_str(), pattern);
        let ghost hits = search_hits(self.files(), query@, opt_text(file_pattern));
        proof {
            assert(match pattern { Some(p) => Some(p@), None => None::<Seq<char>> } == opt_text(file_pattern));
        }
        let ghost specs = hit_blocks(hits);
        let n = if results.len() < MAX_SHOWN_HITS { results.len() } else { MAX_SHOWN_HITS };
        let mut blocks: Vec<CodeBlock> = Vec::new();
        let mut i: usize = 0;
        while i < n
            invariant
                0 <= i <= n,
                n <= results@.len(),
                n == specs.len(),
                specs == hit_blocks(hits),
                results@.map_values(|h: (String, usize, String)| (h.0@, h.1 as int, h.2@)) == hits,
                forall|j: int| 0 <= j < results@.len() ==> #[trigger] results@[j].1 < usize::MAX,
                blocks@.len() == i,
                forall|j: int| 0 <= j < i ==> block_matches(#[trigger] blocks@[j], specs[j]),
            decreases n - i,
        {
            let hit = &results[i];
            let ghost h = hits[i as int];
            proof {
                assert(h == (hit.0@, hit.1 as int, hit.2@));
            }
            let mut text = str_chars(hit.0.as_str());
            push_all(&mut text, &str_chars(":"));
            push_decimal(&mut text, hit.1 + 1);
            push_all(&mut text, &str_chars(": "));
            push_all(&mut text, &str_chars(hit.2.as_str()));
            let block = new_block(detect_language(hit.0.as_str()), chars_to_string(text.as_slice()), false, None);
            blocks.push(block);
            proof {
                assert(block_matches(blocks@[i as int], specs[i as int]));
            }
            i = i + 1;
        }
        let message = if results.len() == 0 {
            concat3("No results found for '", query.as_str(), "'")
        } else {
            let mut text = str_chars("Found ");
            push_decimal(&mut text, results.len());
            push_all(&mut text, &str_chars(" results for '"));
            push_all(&mut text, &str_chars(query.as_str()));
            push_all(&mut text, &str_chars("':"));
            chars_to_string(text.as_slice())
        };
        self.chat_interface.add_assistant_message(message, blocks);
    }

    /// Shows a command in a block (commands are not executed yet).
    fn run_command(&mut self, command: String)
        requires
            old(self).wf(),
        ensures
            final(self).wf(),
            final(self).chat().messages.len() > 0,
            final(self).chat() == (ChatModel {
                messages: push_message(old(self).chat().messages, final(self).chat().messages.last()),
                dirty: true,
                ..old(self).chat()
            }),
            final(self).chat().messages.last().message_type == MessageType::Assistant,
            final(self).chat().messages.last().content@ == "Command output:"@,
            blocks_match(final(self).chat().messages.last().code_blocks@, reply_blocks(old(self).files(), RequestModel::RunCommand { command: command@ })),
            default_actions(final(self).chat().messages.last().context_actions@),
            final(self).files() == old(self).files(),
            final(self).graph() == old(self).graph(),
    {
        let output = concat3("$ ", command.as_str(), "\n[Command execution not yet implemented]");
        let block = new_block(String::from_str("bash"), output, false, None);
        self.chat_interface.add_assistant_message(String::from_str("Command output:"), vec![block]);
    }

    /// Stores a file and confirms it in the chat.
    fn save_code(&mut self, file_path: String, content: String)
        requires
            old(self).wf(),
        ensures
            final(self).wf(),
            final(self).chat().messages.len() > 0,
            final(self).chat() == (ChatModel {
                messages: push_message(old(self).chat().messages, final(self).chat().messages.last()),
                dirty: true,
                ..old(self).chat()
            }),
            final(self).chat().messages.last().message_type == MessageType::Assistant,
            final(self).chat().messages.last().content@ == "Code saved to "@ + file_path@,
            final(self).chat().messages.last().code_blocks@.len() == 0,
            final(self).chat().messages.last().context_actions@.len() == 0,
            final(self).files() == files_insert(old(self).files(), file_path@, content@),
            final(self).graph() == old(self).graph(),
    {
        let message = concat3("Code saved to ", file_path.as_str(), "");
        proof {
            assert(message@ =~= "Code saved to "@ + file_path@) by {
                reveal_strlit("");
            }
        }
        self.code_context.insert_file(file_path, content);
        self.chat_interface.add_assistant_message(message, Vec::new());
    }

    /// Shows code with a placeholder explanation.
    fn explain_code(&mut self, code: String, language: String)
        requires
            old(self).wf(),
        ensures
            final(self).wf(),
            final(self).chat().messages.len() > 0,
            final(self).chat() == (ChatModel {
                messages: push_message(old(self).chat().messages, final(self).chat().messages.last()),
                dirty: true,
                ..old(self).chat()
            }),
            final(self).chat().messages.last().message_type == MessageType::Assistant,
            final(self).chat().messages.last().content@ == "Code explanation would be generated here using AI analysis."@,
            blocks_match(final(self).chat().messages.last().code_blocks@, reply_blocks(old(self).files(), RequestModel::ExplainCode { code: code@, language: language@ })),
            default_actions(final(self).chat().messages.last().context_actions@),
            final(self).files() == old(self).files(),
            final(self).graph() == old(self).graph(),
    {
        let block = new_block(language, code, false, None);
        self.chat_interface.add_assistant_message(String::from_str("Code explanation would be generated here using AI analysis."), vec![block]);
    }

    /// Shows the code to refactor, unchanged for now, as an editable block.
    fn refactor_code(&mut self, original: String, instructions: String)
        requires
            old(self).wf(),
        ensures
            final(self).wf(),
            final(self).chat().messages.len() > 0,
            final(self).chat() == (ChatModel {
                messages: push_message(old(self).chat().messages, final(self).chat().messages.last()),
                dirty: true,
                ..old(self).chat()
            }),
            final(self).chat().messages.last().message_type == MessageType::Assistant,
            final(self).chat().messages.last().content@ == "Refactored code based on: "@ + instructions@,
            blocks_match(final(self).chat().messages.last().code_blocks@, reply_blocks(old(self).files(), RequestModel::RefactorCode { original: original@, instructions: instructions@ })),
            default_actions(final(self).chat().messages.last().context_actions@),
            final(self).files() == old(self).files(),
            final(self).graph() == old(self).graph(),
    {
        let message = concat3("Refactored code based on: ", instructions.as_str(), "");
        proof {
            assert(message@ =~= "Refactored code based on: "@ + instructions@) by {
                reveal_strlit("");
            }
        }
        let block = new_block(String::from_str("rust"), original, true, None);
        self.chat_interface.add_assistant_message(message, vec![block]);
    }

    /// The language named by the extension of `file_path`.
    pub fn detect_language(&self, file_path: &str) -> (r: String)
        ensures
            r@ == language_of(file_path@),
    {
        detect_language(file_path)
    }

    /// Parses a natural-language message into the request it asks for.
    pub fn parse_message(&self, message: &str) -> (r: Option<ConversationRequest>)
        requires
            parse_slicing_ok(message@, lowercase(message@)),
        ensures
            opt_request(r) == parse_spec(message@, lowercase(message@)),
    {
        let lower = to_lowercase(message);
        parse_lowered(message, lower.as_str())
    }

    /// Parses a message when its search query starts on a character boundary
    /// of the message; `None` when it would not.
    pub fn try_parse_message(&self, message: &str) -> (r: Option<Option<ConversationRequest>>)
        ensures
            match r {
                Some(req) => parse_slicing_ok(message@, lowercase(message@)) && opt_request(req) == parse_spec(message@, lowercase(message@)),
                None => !parse_slicing_ok(message@, lowercase(message@)),
            },
    {
        let lower = to_lowercase(message);
        if can_parse_lowered(message, lower.as_str()) {
            Some(self.parse_message(message))
        } else {
            None
        }
    }
}

} // verus!
