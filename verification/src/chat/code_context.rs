//! The code the conversation can refer to: files by path, with lookup of a
//! function's lines and a line search.

use vstd::prelude::*;
use std::ops::Range;
use crate::strings::{contains_chars, contains_seq, push_all};
use crate::text::{
    chars_to_string, lemma_len_le_utf8_len, lemma_text_lines_total, lemma_total_len_take,
    split_lines, str_byte_len, str_chars, text_lines, total_len,
};

verus! {

/// A file path and its content.
pub type FileEntry = (Seq<char>, Seq<char>);

/// Number of occurrences of `c` in `s`.
pub open spec fn count_char(s: Seq<char>, c: char) -> nat
    decreases s.len(),
{
    if s.len() == 0 {
        0
    } else {
        count_char(s.drop_last(), c) + if s.last() == c { 1nat } else { 0nat }
    }
}

/// What a function header line holds: `fn ` followed by the name.
pub open spec fn fn_header(name: Seq<char>) -> Seq<char> {
    seq!['f', 'n', ' '] + name
}

/// Scan of `lines` from `idx` for a function: a line holding `pat` starts
/// (or restarts) the function with a zero brace balance; inside it each line
/// adds its `{` and takes away its `}`, and the first line that holds a `}`
/// and brings the balance to zero ends it. The result is the half-open range
/// of line numbers from the header to that line.
pub open spec fn scan_function(
    lines: Seq<Seq<char>>,
    pat: Seq<char>,
    idx: int,
    in_fn: bool,
    start: int,
    count: int,
) -> Option<(int, int)>
    decreases lines.len() - idx,
{
    if idx < 0 || idx >= lines.len() {
        None
    } else {
        let line = lines[idx];
        let header = contains_seq(line, pat);
        let in_fn2 = header || in_fn;
        let start2 = if header { idx } else { start };
        let count2 = if header { 0 } else { count };
        if in_fn2 {
            let count3 = count2 + count_char(line, '{') - count_char(line, '}');
            if count3 == 0 && count_char(line, '}') > 0 {
                Some((start2, idx + 1))
            } else {
                scan_function(lines, pat, idx + 1, in_fn2, start2, count3)
            }
        } else {
            scan_function(lines, pat, idx + 1, in_fn2, start2, count2)
        }
    }
}

/// The lines of the function `name` in `content`.
pub open spec fn function_range(content: Seq<char>, name: Seq<char>) -> Option<(int, int)> {
    scan_function(text_lines(content), fn_header(name), 0, false, 0, 0)
}

/// A function's range starts before it ends and lies within the lines scanned.
pub proof fn lemma_scan_function_bounds(
    lines: Seq<Seq<char>>,
    pat: Seq<char>,
    idx: int,
    in_fn: bool,
    start: int,
    count: int,
)
    requires
        0 <= start,
        0 <= idx,
        in_fn ==> start <= idx,
    ensures
        match scan_function(lines, pat, idx, in_fn, start, count) {
            Some(r) => 0 <= r.0 < r.1 <= lines.len(),
            None => true,
        },
    decreases lines.len() - idx,
{
    if idx < lines.len() {
        let line = lines[idx];
        let header = contains_seq(line, pat);
        let in_fn2 = header || in_fn;
        let start2 = if header { idx } else { start };
        let count2 = if header { 0 } else { count };
        let count3 = count2 + count_char(line, '{') - count_char(line, '}');
        if in_fn2 {
            lemma_scan_function_bounds(lines, pat, idx + 1, in_fn2, start2, count3);
        } else {
            lemma_scan_function_bounds(lines, pat, idx + 1, in_fn2, start2, count2);
        }
    }
}

/// The range of `function_range`, when there is one, is a non-empty range of lines of `content`.
pub proof fn lemma_function_range_bounds(content: Seq<char>, name: Seq<char>)
    ensures
        match function_range(content, name) {
            Some(r) => 0 <= r.0 < r.1 <= text_lines(content).len(),
            None => true,
        },
{
    lemma_scan_function_bounds(text_lines(content), fn_header(name), 0, false, 0, 0);
}

/// The first file, from position `i` on, in which the function `name` is found.
pub open spec fn function_match_from(files: Seq<FileEntry>, name: Seq<char>, i: int) -> Option<(Seq<char>, (int, int))>
    decreases files.len() - i,
{
    if i < 0 || i >= files.len() {
        None
    } else {
        match function_range(files[i].1, name) {
            Some(r) => Some((files[i].0, r)),
            None => function_match_from(files, name, i + 1),
        }
    }
}

/// The first file in which the function `name` is found, with its line range.
pub open spec fn function_match(files: Seq<FileEntry>, name: Seq<char>) -> Option<(Seq<char>, (int, int))> {
    function_match_from(files, name, 0)
}

/// The function found first lies on a non-empty range of lines.
pub proof fn lemma_function_match_from_bounds(files: Seq<FileEntry>, name: Seq<char>, i: int)
    requires
        0 <= i,
    ensures
        match function_match_from(files, name, i) {
            Some(found) => 0 <= found.1.0 < found.1.1,
            None => true,
        },
    decreases files.len() - i,
{
    if i < files.len() {
        lemma_function_range_bounds(files[i].1, name);
        lemma_function_match_from_bounds(files, name, i + 1);
    }
}

/// The lines numbered below `k` of `lines` that hold `query`, each with its path and number.
pub open spec fn line_hits(path: Seq<char>, lines: Seq<Seq<char>>, query: Seq<char>, k: int) -> Seq<(Seq<char>, int, Seq<char>)>
    decreases k,
{
    if k <= 0 {
        Seq::empty()
    } else {
        let prev = line_hits(path, lines, query, k - 1);
        if contains_seq(lines[k - 1], query) {
            prev.push((path, k - 1, lines[k - 1]))
        } else {
            prev
        }
    }
}

/// The lines of a file that hold `query`.
pub open spec fn file_hits(path: Seq<char>, content: Seq<char>, query: Seq<char>) -> Seq<(Seq<char>, int, Seq<char>)> {
    line_hits(path, text_lines(content), query, text_lines(content).len() as int)
}

/// The lines holding `query` over `files`, file by file, skipping the files
/// whose path does not hold `pattern` when one is given.
pub open spec fn search_hits(files: Seq<FileEntry>, query: Seq<char>, pattern: Option<Seq<char>>) -> Seq<(Seq<char>, int, Seq<char>)>
    decreases files.len(),
{
    if files.len() == 0 {
        Seq::empty()
    } else {
        let prev = search_hits(files.drop_last(), query, pattern);
        let entry = files.last();
        match pattern {
            Some(p) => if contains_seq(entry.0, p) {
                prev + file_hits(entry.0, entry.1, query)
            } else {
                prev
            },
            None => prev + file_hits(entry.0, entry.1, query),
        }
    }
}

/// The position of the file `path` among `files`, from position `i` on.
pub open spec fn path_index_from(files: Seq<FileEntry>, path: Seq<char>, i: int) -> Option<int>
    decreases files.len() - i,
{
    if i < 0 || i >= files.len() {
        None
    } else if files[i].0 == path {
        Some(i)
    } else {
        path_index_from(files, path, i + 1)
    }
}

/// The position of the file `path` among `files`.
pub open spec fn path_index(files: Seq<FileEntry>, path: Seq<char>) -> Option<int> {
    path_index_from(files, path, 0)
}

/// The content stored for `path`, or the empty text when there is none.
pub open spec fn file_content(files: Seq<FileEntry>, path: Seq<char>) -> Seq<char> {
    match path_index(files, path) {
        Some(i) => files[i].1,
        None => Seq::empty(),
    }
}

/// `files` after storing `content` under `path`: the entry of `path` is
/// replaced, or a new one is added after the others.
pub open spec fn files_insert(files: Seq<FileEntry>, path: Seq<char>, content: Seq<char>) -> Seq<FileEntry> {
    match path_index(files, path) {
        Some(i) => files.update(i, (path, content)),
        None => files.push((path, content)),
    }
}

/// No two entries of `files` have the same path.
pub open spec fn distinct_paths(files: Seq<FileEntry>) -> bool {
    forall|i: int, j: int| 0 <= i < j < files.len() ==> files[i].0 != files[j].0
}

/// `path_index_from` finds the entry of `path`, the first from `i` on.
pub proof fn lemma_path_index_from(files: Seq<FileEntry>, path: Seq<char>, i: int)
    requires
        0 <= i,
    ensures
        match path_index_from(files, path, i) {
            Some(k) => i <= k < files.len() && files[k].0 == path && forall|j: int|
                i <= j < k ==> files[j].0 != path,
            None => forall|j: int| i <= j < files.len() ==> files[j].0 != path,
        },
    decreases files.len() - i,
{
    if i < files.len() && files[i].0 != path {
        lemma_path_index_from(files, path, i + 1);
    }
}

/// Storing a file keeps the paths distinct and makes its content the stored one.
pub proof fn lemma_files_insert(files: Seq<FileEntry>, path: Seq<char>, content: Seq<char>)
    requires
        distinct_paths(files),
    ensures
        distinct_paths(files_insert(files, path, content)),
        file_content(files_insert(files, path, content), path) == content,
        forall|q: Seq<char>| q != path ==> file_content(files_insert(files, path, content), q) == file_content(files, q),
{
    lemma_path_index_from(files, path, 0);
    let next = files_insert(files, path, content);
    lemma_path_index_from(next, path, 0);
    match path_index(files, path) {
        Some(k) => {
            match path_index(next, path) {
                Some(m) => {
                    if m != k {
                        assert(next[k].0 == path);
                    }
                },
                None => {
                    assert(next[k].0 == path);
                },
            }
        },
        None => {
            match path_index(next, path) {
                Some(m) => {
                    if m != files.len() {
                        assert(files[m].0 == path);
                    }
                },
                None => {
                    assert(next[files.len() as int].0 == path);
                },
            }
        },
    }
    assert forall|q: Seq<char>| q != path implies file_content(next, q) == file_content(files, q) by {
        lemma_path_index_from(files, q, 0);
        lemma_path_index_from(next, q, 0);
        match path_index(files, q) {
            Some(k) => {
                assert(next[k].0 == q);
                match path_index(next, q) {
                    Some(m) => {
                        if m < k {
                            assert(files[m].0 == next[m].0);
                        } else if m > k {
                        }
                    },
                    None => {},
                }
            },
            None => {
                match path_index(next, q) {
                    Some(m) => {
                        if m < files.len() {
                            assert(files[m].0 == next[m].0);
                        }
                    },
                    None => {},
                }
            },
        }
    }
}

/// Files known to the conversation: each path once, in the order they were first stored.
pub struct CodeContext {
    files: Vec<(String, String)>,
}

impl View for CodeContext {
    type V = Seq<FileEntry>;

    closed spec fn view(&self) -> Seq<FileEntry> {
        self.files@.map_values(|e: (String, String)| (e.0@, e.1@))
    }
}

/// Number of `c` in `s`.
fn count_in(s: &Vec<char>, c: char) -> (n: usize)
    ensures
        n == count_char(s@, c),
        n <= s@.len(),
{
    let mut n: usize = 0;
    let mut i: usize = 0;
    proof {
        assert(s@.take(0) =~= Seq::<char>::empty());
    }
    while i < s.len()
        invariant
            0 <= i <= s@.len(),
            n == count_char(s@.take(i as int), c),
            n <= i,
        decreases s@.len() - i,
    {
        proof {
            assert(s@.take(i + 1).drop_last() =~= s@.take(i as int));
        }
        if s[i] == c {
            n = n + 1;
        }
        i = i + 1;
    }
    proof {
        assert(s@.take(s@.len() as int) =~= s@);
    }
    n
}

impl CodeContext {
    /// No two files share a path.
    pub open spec fn wf(&self) -> bool {
        distinct_paths(self@)
    }

    /// A context with no files.
    pub fn new() -> (c: Self)
        ensures
            c.wf(),
            c@ == Seq::<FileEntry>::empty(),
    {
        let c = CodeContext { files: Vec::new() };
        proof {
            assert(c@ =~= Seq::<FileEntry>::empty());
        }
        c
    }

    /// Stores `content` under `path`, replacing what was stored there.
    pub fn insert_file(&mut self, path: String, content: String)
        requires
            old(self).wf(),
        ensures
            final(self).wf(),
            final(self)@ == files_insert(old(self)@, path@, content@),
    {
        let ghost files = self@;
        proof {
            lemma_files_insert(files, path@, content@);
            lemma_path_index_from(files, path@, 0);
        }
        let mut i: usize = 0;
        while i < self.files.len()
            invariant
                0 <= i <= self.files@.len(),
                self@ == files,
                files == old(self)@,
                path_index(files, path@) == path_index_from(files, path@, i as int),
                distinct_paths(files_insert(files, path@, content@)),
            decreases self.files@.len() - i,
        {
            if self.files[i].0 == path {
                let ghost p = path@;
                let ghost c = content@;
                proof {
                    assert(path_index_from(files, p, i as int) == Some(i as int));
                }
                self.files.set(i, (path, content));
                proof {
                    assert(self@ =~= files.update(i as int, (p, c)));
                }
                return;
            }
            proof {
                assert(files[i as int].0 == self.files@[i as int].0@);
            }
            i = i + 1;
        }
        self.files.push((path, content));
        proof {
            assert(self@ =~= files.push((path@, content@)));
        }
    }

    /// The content stored for `path`, if any.
    pub fn get_file(&self, path: &str) -> (r: Option<String>)
        ensures
            match r {
                Some(c) => path_index(self@, path@) is Some && c@ == file_content(self@, path@),
                None => path_index(self@, path@) is None,
            },
    {
        let wanted = String::from_str(path);
        let mut i: usize = 0;
        while i < self.files.len()
            invariant
                0 <= i <= self.files@.len(),
                wanted@ == path@,
                path_index(self@, path@) == path_index_from(self@, path@, i as int),
            decreases self.files@.len() - i,
        {
            if self.files[i].0 == wanted {
                return Some(self.files[i].1.clone());
            }
            proof {
                assert(self@[i as int].0 == self.files@[i as int].0@);
            }
            i = i + 1;
        }
        None
    }

    /// Finds a function by name: the first file holding it, with its line range.
    pub fn find_function(&self, name: &str) -> (r: Option<(String, Range<usize>)>)
        ensures
            match r {
                Some(found) => function_match(self@, name@) == Some((found.0@, (found.1.start as int, found.1.end as int))),
                None => function_match(self@, name@) is None,
            },
    {
        let mut i: usize = 0;
        while i < self.files.len()
            invariant
                0 <= i <= self.files@.len(),
                function_match(self@, name@) == function_match_from(self@, name@, i as int),
            decreases self.files@.len() - i,
        {
            let found = self.find_function_in_file(self.files[i].1.as_str(), name);
            proof {
                assert(self@[i as int] == (self.files@[i as int].0@, self.files@[i as int].1@));
            }
            match found {
                Some(range) => {
                    return Some((self.files[i].0.clone(), range));
                },
                None => {},
            }
            i = i + 1;
        }
        None
    }

    /// The line range of the function `name` in `content`: from the line
    /// naming it to the line whose `}` closes its braces.
    pub fn find_function_in_file(&self, content: &str, name: &str) -> (r: Option<Range<usize>>)
        ensures
            match r {
                Some(range) => function_range(content@, name@) == Some((range.start as int, range.end as int)),
                None => function_range(content@, name@) is None,
            },
    {
        let chars = str_chars(content);
        let nbytes = str_byte_len(content);
        let lines = split_lines(&chars);
        let mut pat: Vec<char> = vec!['f', 'n', ' '];
        let name_chars = str_chars(name);
        push_all(&mut pat, &name_chars);
        let ghost ls = text_lines(content@);
        proof {
            lemma_text_lines_total(content@);
            lemma_len_le_utf8_len(content@);
            assert(ls.take(0) =~= Seq::<Seq<char>>::empty());
        }
        let mut in_function = false;
        let mut start_line: usize = 0;
        let mut brace_count: i64 = 0;
        let mut idx: usize = 0;
        while idx < lines.len()
            invariant
                0 <= idx <= lines@.len(),
                lines@.len() == ls.len(),
                forall|j: int| 0 <= j < lines@.len() ==> #[trigger] lines@[j]@ == ls[j],
                pat@ == fn_header(name@),
                total_len(ls) <= nbytes,
                nbytes <= isize::MAX,
                in_function ==> start_line <= idx,
                -(total_len(ls.take(idx as int)) as int) <= brace_count <= total_len(ls.take(idx as int)),
                function_range(content@, name@) == scan_function(ls, pat@, idx as int, in_function, start_line as int, brace_count as int),
            decreases lines@.len() - idx,
        {
            let line = &lines[idx];
            proof {
                assert(ls.take(idx + 1).drop_last() =~= ls.take(idx as int));
                lemma_total_len_take(ls, idx + 1);
            }
            if contains_chars(line, &pat) {
                in_function = true;
                start_line = idx;
                brace_count = 0;
            }
            if in_function {
                let opens = count_in(line, '{');
                let closes = count_in(line, '}');
                brace_count = brace_count + opens as i64 - closes as i64;
                if brace_count == 0 && closes > 0 {
                    return Some(start_line..idx + 1);
                }
            }
            idx = idx + 1;
        }
        None
    }

    /// The lines holding `query`, file by file, each with its path and line
    /// number; with a pattern, only the files whose path holds it.
    pub fn search_code(&self, query: &str, file_pattern: Option<&str>) -> (r: Vec<(String, usize, String)>)
        ensures
            r@.map_values(|h: (String, usize, String)| (h.0@, h.1 as int, h.2@)) == search_hits(
                self@,
                query@,
                match file_pattern {
                    Some(p) => Some(p@),
                    None => None,
                },
            ),
            forall|i: int| 0 <= i < r@.len() ==> #[trigger] r@[i].1 < usize::MAX,
    {
        let ghost pattern = match file_pattern {
            Some(p) => Some(p@),
            None => None::<Seq<char>>,
        };
        let query_chars = str_chars(query);
        let pattern_chars: Option<Vec<char>> = match file_pattern {
            Some(p) => Some(str_chars(p)),
            None => None,
        };
        let mut results: Vec<(String, usize, String)> = Vec::new();
        let mut f: usize = 0;
        proof {
            assert(self@.take(0) =~= Seq::<FileEntry>::empty());
            assert(results@.map_values(|h: (String, usize, String)| (h.0@, h.1 as int, h.2@)) =~= Seq::<(Seq<char>, int, Seq<char>)>::empty());
        }
        while f < self.files.len()
            invariant
                0 <= f <= self.files@.len(),
                self@.len() == self.files@.len(),
                query_chars@ == query@,
                match pattern_chars {
                    Some(p) => pattern == Some(p@),
                    None => pattern is None,
                },
                results@.map_values(|h: (String, usize, String)| (h.0@, h.1 as int, h.2@)) == search_hits(self@.take(f as int), query@, pattern),
                forall|i: int| 0 <= i < results@.len() ==> #[trigger] results@[i].1 < usize::MAX,
            decreases self.files@.len() - f,
        {
            let path = &self.files[f].0;
            let ghost entry = self@[f as int];
            proof {
                assert(self@.take(f + 1).drop_last() =~= self@.take(f as int));
                assert(self@.take(f + 1).last() == entry);
                assert(entry == (self.files@[f as int].0@, self.files@[f as int].1@));
            }
            let selected = match &pattern_chars {
                Some(p) => contains_chars(&str_chars(path.as_str()), p),
                None => true,
            };
            let ghost before = results@.map_values(|h: (String, usize, String)| (h.0@, h.1 as int, h.2@));
            if selected {
                let content_chars = str_chars(self.files[f].1.as_str());
                let lines = split_lines(&content_chars);
                let ghost ls = text_lines(entry.1);
                let mut k: usize = 0;
                while k < lines.len()
                    invariant
                        0 <= k <= lines@.len(),
                        lines@.len() == ls.len(),
                        forall|j: int| 0 <= j < lines@.len() ==> #[trigger] lines@[j]@ == ls[j],
                        query_chars@ == query@,
                        path@ == entry.0,
                        results@.map_values(|h: (String, usize, String)| (h.0@, h.1 as int, h.2@)) == before + line_hits(entry.0, ls, query@, k as int),
                        forall|i: int| 0 <= i < results@.len() ==> #[trigger] results@[i].1 < usize::MAX,
                    decreases lines@.len() - k,
                {
                    let ghost prev = results@.map_values(|h: (String, usize, String)| (h.0@, h.1 as int, h.2@));
                    if contains_chars(&lines[k], &query_chars) {
                        let line_text = chars_to_string(lines[k].as_slice());
                        results.push((path.clone(), k, line_text));
                        proof {
                            assert(results@.map_values(|h: (String, usize, String)| (h.0@, h.1 as int, h.2@)) =~= prev.push((entry.0, k as int, ls[k as int])));
                        }
                    }
                    k = k + 1;
                }
                proof {
                    assert(results@.map_values(|h: (String, usize, String)| (h.0@, h.1 as int, h.2@)) =~= search_hits(self@.take(f + 1), query@, pattern));
                }
            }
            f = f + 1;
        }
        proof {
            assert(self@.take(self@.len() as int) =~= self@);
        }
        results
    }
}

} // verus!
