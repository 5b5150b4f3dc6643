//! Character-level model of the strings the UI manipulates.
//!
//! Text is viewed as a sequence of `char`s; positions that the UI keeps as
//! byte offsets into UTF-8 text are related to character positions through
//! `utf8_len`.

use vstd::prelude::*;

verus! {

/// Number of bytes in the UTF-8 encoding of `c`.
pub open spec fn char_utf8_len(c: char) -> nat {
    if (c as u32) < 0x80 {
        1
    } else if (c as u32) < 0x800 {
        2
    } else if (c as u32) < 0x10000 {
        3
    } else {
        4
    }
}

/// Number of bytes in the UTF-8 encoding of the text `s`.
pub open spec fn utf8_len(s: Seq<char>) -> nat
    decreases s.len(),
{
    if s.len() == 0 {
        0
    } else {
        utf8_len(s.drop_last()) + char_utf8_len(s.last())
    }
}

/// Byte offset of the character position `k` in `s`.
pub open spec fn byte_offset(s: Seq<char>, k: int) -> nat {
    utf8_len(s.take(k))
}

/// `b` is the byte offset of some character position of `s` (a char boundary).
pub open spec fn is_char_boundary(s: Seq<char>, b: int) -> bool {
    exists|k: int| 0 <= k <= s.len() && #[trigger] byte_offset(s, k) == b
}

/// The byte length of a concatenation is the sum of the byte lengths.
pub proof fn lemma_utf8_len_concat(a: Seq<char>, b: Seq<char>)
    ensures
        utf8_len(a + b) == utf8_len(a) + utf8_len(b),
    decreases b.len(),
{
    if b.len() == 0 {
        assert(a + b =~= a);
    } else {
        lemma_utf8_len_concat(a, b.drop_last());
        assert((a + b).drop_last() =~= a + b.drop_last());
    }
}

/// Byte offsets grow strictly with character positions.
pub proof fn lemma_byte_offset_strict(s: Seq<char>, j: int, k: int)
    requires
        0 <= j < k <= s.len(),
    ensures
        byte_offset(s, j) < byte_offset(s, k),
    decreases k - j,
{
    let t = s.take(k);
    assert(t.drop_last() =~= s.take(k - 1));
    if j < k - 1 {
        lemma_byte_offset_strict(s, j, k - 1);
    }
}

/// Each character position has its own byte offset.
pub proof fn lemma_byte_offset_injective(s: Seq<char>, j: int, k: int)
    requires
        0 <= j <= s.len(),
        0 <= k <= s.len(),
        byte_offset(s, j) == byte_offset(s, k),
    ensures
        j == k,
{
    if j < k {
        lemma_byte_offset_strict(s, j, k);
    } else if k < j {
        lemma_byte_offset_strict(s, k, j);
    }
}

/// Byte length of one character, as `char::len_utf8` computes it.
pub fn char_len_utf8(c: char) -> (n: usize)
    ensures
        n == char_utf8_len(c),
{
    let v: u32 = c as u32;
    if v < 0x80 {
        1
    } else if v < 0x800 {
        2
    } else if v < 0x10000 {
        3
    } else {
        4
    }
}

/// The characters of `s`, in order (`str::chars`).
#[verifier::external_body]
pub(crate) fn str_chars(s: &str) -> (v: Vec<char>)
    ensures
        v@ == s@,
{
    s.chars().collect()
}

/// The string made of the characters of `v`, in order (`FromIterator<&char>` for `String`).
#[verifier::external_body]
pub(crate) fn chars_to_string(v: &[char]) -> (s: String)
    ensures
        s@ == v@,
{
    v.iter().collect()
}

/// Byte length of `s` (`str::len`, the length of its UTF-8 encoding).
#[verifier::external_body]
pub(crate) fn str_byte_len(s: &str) -> (n: usize)
    ensures
        n == utf8_len(s@),
        n <= isize::MAX,
{
    s.len()
}


/// The character position whose byte offset in `s` is `b` (meaningful when `b` is a boundary).
pub open spec fn char_index_at(s: Seq<char>, b: int) -> int {
    choose|k: int| 0 <= k <= s.len() && #[trigger] byte_offset(s, k) == b
}

/// The whole text ends at byte offset `utf8_len`.
pub proof fn lemma_byte_offset_end(s: Seq<char>)
    ensures
        byte_offset(s, s.len() as int) == utf8_len(s),
{
    assert(s.take(s.len() as int) =~= s);
}

/// A boundary is the offset of its character position, and lies within the text.
pub proof fn lemma_char_index_at(s: Seq<char>, b: int)
    requires
        is_char_boundary(s, b),
    ensures
        0 <= char_index_at(s, b) <= s.len(),
        byte_offset(s, char_index_at(s, b)) == b,
        0 <= b <= utf8_len(s),
{
    let k = char_index_at(s, b);
    lemma_byte_offset_mono(s, k, s.len() as int);
    lemma_byte_offset_end(s);
}

/// Byte offsets never decrease along the text.
pub proof fn lemma_byte_offset_mono(s: Seq<char>, j: int, k: int)
    requires
        0 <= j <= k <= s.len(),
    ensures
        byte_offset(s, j) <= byte_offset(s, k),
{
    if j < k {
        lemma_byte_offset_strict(s, j, k);
    }
}

/// Where a byte offset falls in a text.
pub enum ByteLocation {
    /// At or past the end of the text.
    AtEnd,
    /// At the start of the character with this index.
    Boundary(usize),
    /// Strictly inside the encoding of a character.
    Inside,
}

/// Locates the byte offset `b` in `s`.
pub fn locate_byte(s: &Vec<char>, b: usize) -> (r: ByteLocation)
    requires
        b + 4 <= usize::MAX,
    ensures
        match r {
            ByteLocation::AtEnd => b >= utf8_len(s@),
            ByteLocation::Boundary(k) => {
                &&& b < utf8_len(s@)
                &&& k < s@.len()
                &&& byte_offset(s@, k as int) == b
                &&& char_index_at(s@, b as int) == k
                &&& is_char_boundary(s@, b as int)
            },
            ByteLocation::Inside => b < utf8_len(s@) && !is_char_boundary(s@, b as int),
        },
{
    let mut i: usize = 0;
    let mut acc: usize = 0;
    proof {
        assert(s@.take(0) =~= Seq::<char>::empty());
    }
    while i < s.len() && acc < b
        invariant
            0 <= i <= s.len(),
            acc == byte_offset(s@, i as int),
            i > 0 ==> byte_offset(s@, i - 1) < b,
            b + 4 <= usize::MAX,
        decreases s.len() - i,
    {
        let n = char_len_utf8(s[i]);
        proof {
            assert(s@.take(i + 1).drop_last() =~= s@.take(i as int));
            assert(s@.take(i + 1).last() == s@[i as int]);
        }
        acc = acc + n;
        i = i + 1;
    }
    proof {
        lemma_byte_offset_end(s@);
    }
    if acc <= b && i == s.len() {
        proof {
            lemma_byte_offset_mono(s@, i as int, s@.len() as int);
        }
        ByteLocation::AtEnd
    } else if acc == b {
        proof {
            lemma_byte_offset_strict(s@, i as int, s@.len() as int);
            assert(is_char_boundary(s@, b as int));
            let k = char_index_at(s@, b as int);
            lemma_byte_offset_injective(s@, k, i as int);
        }
        ByteLocation::Boundary(i)
    } else {
        proof {
            lemma_byte_offset_mono(s@, i as int, s@.len() as int);
            assert forall|k: int| 0 <= k <= s@.len() implies #[trigger] byte_offset(s@, k) != b by {
                if k <= i - 1 {
                    lemma_byte_offset_mono(s@, k, i - 1);
                } else {
                    lemma_byte_offset_mono(s@, i as int, k);
                }
            }
        }
        ByteLocation::Inside
    }
}


/// The pieces of `s` between occurrences of `sep` (as `str::split` yields them).
pub open spec fn split_on(s: Seq<char>, sep: char) -> Seq<Seq<char>>
    decreases s.len(),
{
    if s.len() == 0 {
        seq![Seq::<char>::empty()]
    } else {
        let prev = split_on(s.drop_last(), sep);
        if s.last() == sep {
            prev.push(Seq::<char>::empty())
        } else {
            prev.update(prev.len() - 1, prev.last().push(s.last()))
        }
    }
}

/// `split_on` always yields at least one piece.
pub proof fn lemma_split_on_nonempty(s: Seq<char>, sep: char)
    ensures
        split_on(s, sep).len() >= 1,
    decreases s.len(),
{
    if s.len() > 0 {
        lemma_split_on_nonempty(s.drop_last(), sep);
    }
}

/// Without a separator, `split_on` yields the whole text as its only piece.
pub proof fn lemma_split_on_no_sep(s: Seq<char>, sep: char)
    requires
        forall|i: int| 0 <= i < s.len() ==> s[i] != sep,
    ensures
        split_on(s, sep) == seq![s],
    decreases s.len(),
{
    if s.len() > 0 {
        lemma_split_on_no_sep(s.drop_last(), sep);
        assert(s.drop_last().push(s.last()) =~= s);
        assert(seq![s.drop_last()].update(0, s.drop_last().push(s.last())) =~= seq![s]);
    } else {
        assert(s =~= Seq::<char>::empty());
    }
}

/// A non-empty text without newlines is a single line.
pub proof fn lemma_text_lines_single(s: Seq<char>)
    requires
        s.len() > 0,
        forall|i: int| 0 <= i < s.len() ==> s[i] != '\n',
    ensures
        text_lines(s) == seq![s],
{
    lemma_split_on_no_sep(s, '\n');
    assert(text_lines(s) =~= seq![s]);
}

/// `line` without one trailing carriage return.
pub open spec fn strip_cr(line: Seq<char>) -> Seq<char> {
    if line.len() > 0 && line.last() == '\r' {
        line.drop_last()
    } else {
        line
    }
}

/// The lines of `s` as `str::lines` yields them: split at `\n`, a `\r`
/// before a `\n` belongs to the line ending, and a final empty piece is not a line.
pub open spec fn text_lines(s: Seq<char>) -> Seq<Seq<char>> {
    let pieces = split_on(s, '\n');
    let n = pieces.len();
    let ended = Seq::new((n - 1) as nat, |i: int| strip_cr(pieces[i]));
    if pieces[n - 1].len() == 0 {
        ended
    } else {
        ended.push(pieces[n - 1])
    }
}

/// Splits `s` into its lines (`str::lines`).
pub fn split_lines(s: &Vec<char>) -> (lines: Vec<Vec<char>>)
    ensures
        lines@.len() == text_lines(s@).len(),
        forall|i: int| 0 <= i < lines@.len() ==> #[trigger] lines@[i]@ == text_lines(s@)[i],
{
    let mut done: Vec<Vec<char>> = Vec::new();
    let mut cur: Vec<char> = Vec::new();
    let mut i: usize = 0;
    proof {
        assert(s@.take(0) =~= Seq::<char>::empty());
    }
    while i < s.len()
        invariant
            0 <= i <= s.len(),
            split_on(s@.take(i as int), '\n').len() >= 1,
            done@.len() == split_on(s@.take(i as int), '\n').len() - 1,
            forall|j: int| 0 <= j < done@.len() ==> #[trigger] done@[j]@ == strip_cr(split_on(s@.take(i as int), '\n')[j]),
            cur@ == split_on(s@.take(i as int), '\n').last(),
        decreases s.len() - i,
    {
        let ch = s[i];
        proof {
            assert(s@.take(i + 1).drop_last() =~= s@.take(i as int));
            assert(s@.take(i + 1).last() == ch);
            lemma_split_on_nonempty(s@.take(i + 1), '\n');
        }
        let ghost prev = split_on(s@.take(i as int), '\n');
        if ch == '\n' {
            let n = cur.len();
            if n > 0 && cur[n - 1] == '\r' {
                cur.pop();
            }
            done.push(cur);
            cur = Vec::new();
            proof {
                let next = split_on(s@.take(i + 1), '\n');
                assert(next =~= prev.push(Seq::<char>::empty()));
                assert forall|j: int| 0 <= j < done@.len() implies #[trigger] done@[j]@ == strip_cr(next[j]) by {
                    if j < done@.len() - 1 {
                        assert(next[j] == prev[j]);
                    }
                }
            }
        } else {
            cur.push(ch);
            proof {
                let next = split_on(s@.take(i + 1), '\n');
                assert forall|j: int| 0 <= j < done@.len() implies #[trigger] done@[j]@ == strip_cr(next[j]) by {
                    assert(next[j] == prev[j]);
                }
            }
        }
        i = i + 1;
    }
    proof {
        assert(s@.take(s@.len() as int) =~= s@);
    }
    if cur.len() > 0 {
        done.push(cur);
    }
    proof {
        let t = text_lines(s@);
        assert forall|j: int| 0 <= j < done@.len() implies #[trigger] done@[j]@ == t[j] by {
        }
    }
    done
}


/// Byte length of the UTF-8 encoding of `s`.
pub fn utf8_byte_len(s: &Vec<char>) -> (n: usize)
    requires
        utf8_len(s@) <= usize::MAX,
    ensures
        n == utf8_len(s@),
{
    let mut i: usize = 0;
    let mut acc: usize = 0;
    proof {
        assert(s@.take(0) =~= Seq::<char>::empty());
        lemma_byte_offset_end(s@);
    }
    while i < s.len()
        invariant
            0 <= i <= s.len(),
            acc == byte_offset(s@, i as int),
            byte_offset(s@, s@.len() as int) <= usize::MAX,
        decreases s.len() - i,
    {
        proof {
            assert(s@.take(i + 1).drop_last() =~= s@.take(i as int));
            assert(s@.take(i + 1).last() == s@[i as int]);
            lemma_byte_offset_mono(s@, i + 1, s@.len() as int);
        }
        acc = acc + char_len_utf8(s[i]);
        i = i + 1;
    }
    proof {
        lemma_byte_offset_end(s@);
    }
    acc
}

/// Inserts the characters of `t` before position `k` of `v`.
pub fn insert_chars(v: &mut Vec<char>, k: usize, t: &Vec<char>)
    requires
        k <= old(v)@.len(),
    ensures
        final(v)@ == old(v)@.take(k as int) + t@ + old(v)@.skip(k as int),
{
    let mut j: usize = 0;
    while j < t.len()
        invariant
            0 <= j <= t@.len(),
            k <= old(v)@.len(),
            v@ == old(v)@.take(k as int) + t@.take(j as int) + old(v)@.skip(k as int),
        decreases t@.len() - j,
    {
        let len = v.len();
        proof {
            assert(k + j <= len);
        }
        v.insert(k + j, t[j]);
        proof {
            assert(t@.take(j + 1) =~= t@.take(j as int).push(t@[j as int]));
            assert(v@ =~= old(v)@.take(k as int) + t@.take(j + 1) + old(v)@.skip(k as int));
        }
        j = j + 1;
    }
    proof {
        assert(t@.take(t@.len() as int) =~= t@);
    }
}

/// Concatenation of two strings.
pub fn concat_strings(a: &str, b: &str) -> (s: String)
    ensures
        s@ == a@ + b@,
{
    let mut v = str_chars(a);
    let w = str_chars(b);
    let n = v.len();
    insert_chars(&mut v, n, &w);
    proof {
        assert(a@.take(n as int) =~= a@);
        assert(a@.skip(n as int) =~= Seq::<char>::empty());
        assert(v@ =~= a@ + b@);
    }
    chars_to_string(v.as_slice())
}


/// Dropping the last character does not make a text longer.
pub proof fn lemma_utf8_len_drop_last(s: Seq<char>)
    requires
        s.len() > 0,
    ensures
        utf8_len(s.drop_last()) <= utf8_len(s),
{
}

/// Each piece of a split is no longer than the whole text.
pub proof fn lemma_split_on_len_bound(s: Seq<char>, sep: char)
    ensures
        forall|i: int| 0 <= i < split_on(s, sep).len() ==> utf8_len(#[trigger] split_on(s, sep)[i]) <= utf8_len(s),
    decreases s.len(),
{
    if s.len() > 0 {
        lemma_split_on_len_bound(s.drop_last(), sep);
        lemma_split_on_nonempty(s.drop_last(), sep);
        let prev = split_on(s.drop_last(), sep);
        assert forall|i: int| 0 <= i < split_on(s, sep).len() implies utf8_len(#[trigger] split_on(s, sep)[i]) <= utf8_len(s) by {
            if s.last() == sep {
                if i < prev.len() {
                    assert(split_on(s, sep)[i] == prev[i]);
                } else {
                    assert(split_on(s, sep)[i] =~= Seq::<char>::empty());
                }
            } else {
                if i < prev.len() - 1 {
                    assert(split_on(s, sep)[i] == prev[i]);
                } else {
                    assert(split_on(s, sep)[i] == prev.last().push(s.last()));
                    assert(prev.last().push(s.last()).drop_last() =~= prev.last());
                }
            }
        }
    }
}

/// Each line of a text is no longer than the whole text.
pub proof fn lemma_text_lines_len_bound(s: Seq<char>)
    ensures
        forall|i: int| 0 <= i < text_lines(s).len() ==> utf8_len(#[trigger] text_lines(s)[i]) <= utf8_len(s),
{
    lemma_split_on_len_bound(s, '\n');
    lemma_split_on_nonempty(s, '\n');
    let pieces = split_on(s, '\n');
    assert forall|i: int| 0 <= i < text_lines(s).len() implies utf8_len(#[trigger] text_lines(s)[i]) <= utf8_len(s) by {
        if i < pieces.len() - 1 {
            assert(utf8_len(pieces[i]) <= utf8_len(s));
            if pieces[i].len() > 0 && pieces[i].last() == '\r' {
                lemma_utf8_len_drop_last(pieces[i]);
            }
        } else {
            assert(text_lines(s)[i] == pieces[pieces.len() - 1]);
        }
    }
}

/// The lines of `lines` joined with `sep` between consecutive ones.
pub open spec fn join_with(lines: Seq<Seq<char>>, sep: char) -> Seq<char>
    decreases lines.len(),
{
    if lines.len() == 0 {
        Seq::empty()
    } else if lines.len() == 1 {
        lines[0]
    } else {
        join_with(lines.drop_last(), sep).push(sep) + lines.last()
    }
}

/// Joins `lines` with `sep` between consecutive ones.
pub fn join_lines(lines: &Vec<Vec<char>>, sep: char) -> (s: String)
    ensures
        s@ == join_with(lines@.map_values(|l: Vec<char>| l@), sep),
{
    let ghost views = lines@.map_values(|l: Vec<char>| l@);
    let mut out: Vec<char> = Vec::new();
    let mut i: usize = 0;
    proof {
        assert(views.take(0) =~= Seq::<Seq<char>>::empty());
    }
    while i < lines.len()
        invariant
            0 <= i <= lines@.len(),
            views == lines@.map_values(|l: Vec<char>| l@),
            out@ == join_with(views.take(i as int), sep),
        decreases lines@.len() - i,
    {
        if i > 0 {
            out.push(sep);
        }
        let n = out.len();
        insert_chars(&mut out, n, &lines[i]);
        proof {
            assert(views.take(i + 1).drop_last() =~= views.take(i as int));
            assert(views.take(i + 1).last() == lines@[i as int]@);
            if i == 0 {
                assert(views.take(1) =~= seq![lines@[0]@]);
            }
            assert(out@ =~= join_with(views.take(i + 1), sep));
        }
        i = i + 1;
    }
    proof {
        assert(views.take(lines@.len() as int) =~= views);
    }
    chars_to_string(out.as_slice())
}

/// Joining the pieces of a split with the separator gives back the text.
pub proof fn lemma_join_split(s: Seq<char>, sep: char)
    ensures
        join_with(split_on(s, sep), sep) == s,
    decreases s.len(),
{
    if s.len() == 0 {
        assert(split_on(s, sep) == seq![Seq::<char>::empty()]);
        assert(s =~= Seq::<char>::empty());
    } else {
        lemma_join_split(s.drop_last(), sep);
        lemma_split_on_nonempty(s.drop_last(), sep);
        let prev = split_on(s.drop_last(), sep);
        let c = s.last();
        if c == sep {
            let next = prev.push(Seq::<char>::empty());
            assert(next.drop_last() =~= prev);
            assert(join_with(next, sep) == join_with(prev, sep).push(sep) + Seq::<char>::empty());
            assert(join_with(prev, sep).push(sep) + Seq::<char>::empty() =~= s);
        } else {
            let next = prev.update(prev.len() - 1, prev.last().push(c));
            if prev.len() == 1 {
                assert(join_with(prev, sep) == prev[0]);
                assert(next[0] == prev[0].push(c));
                assert(s =~= s.drop_last().push(c));
            } else {
                assert(next.drop_last() =~= prev.drop_last());
                assert(join_with(next, sep) == join_with(prev.drop_last(), sep).push(sep) + prev.last().push(c));
                assert(join_with(prev, sep) == join_with(prev.drop_last(), sep).push(sep) + prev.last());
                assert(join_with(prev.drop_last(), sep).push(sep) + prev.last().push(c) =~= (join_with(
                    prev.drop_last(),
                    sep,
                ).push(sep) + prev.last()).push(c));
                assert(s =~= s.drop_last().push(c));
            }
        }
    }
}

/// A character absent from the text is absent from every piece of its split.
pub proof fn lemma_split_on_absent(s: Seq<char>, sep: char, c: char)
    requires
        !s.contains(c),
    ensures
        forall|i: int| 0 <= i < split_on(s, sep).len() ==> !(#[trigger] split_on(s, sep)[i]).contains(c),
    decreases s.len(),
{
    if s.len() > 0 {
        assert(!s.drop_last().contains(c)) by {
            if s.drop_last().contains(c) {
                let j = choose|j: int| 0 <= j < s.len() - 1 && s.drop_last()[j] == c;
                assert(s[j] == c);
            }
        }
        lemma_split_on_absent(s.drop_last(), sep, c);
        lemma_split_on_nonempty(s.drop_last(), sep);
        let prev = split_on(s.drop_last(), sep);
        assert(s[s.len() - 1] != c);
        if s.last() != sep {
            let next = prev.update(prev.len() - 1, prev.last().push(s.last()));
            assert forall|i: int| 0 <= i < next.len() implies !(#[trigger] next[i]).contains(c) by {
                if i == prev.len() - 1 {
                    let l = prev.last().push(s.last());
                    if l.contains(c) {
                        let j = choose|j: int| 0 <= j < l.len() && l[j] == c;
                        assert(prev.last()[j] == c);
                        assert(prev.last().contains(c));
                        assert(prev[prev.len() - 1].contains(c));
                    }
                } else {
                    assert(next[i] == prev[i]);
                }
            }
        } else {
            let next = prev.push(Seq::<char>::empty());
            assert forall|i: int| 0 <= i < next.len() implies !(#[trigger] next[i]).contains(c) by {
                if i < prev.len() {
                    assert(next[i] == prev[i]);
                }
            }
        }
    }
}

/// The last piece of a split of a text not ending with the separator is the
/// text's last piece and is non-empty when the text is.
pub proof fn lemma_split_on_last(s: Seq<char>, sep: char)
    requires
        s.len() > 0,
        s.last() != sep,
    ensures
        split_on(s, sep).last().len() > 0,
{
    lemma_split_on_nonempty(s.drop_last(), sep);
}

/// Total number of characters in `lines`.
pub open spec fn total_len(lines: Seq<Seq<char>>) -> nat
    decreases lines.len(),
{
    if lines.len() == 0 {
        0
    } else {
        total_len(lines.drop_last()) + lines.last().len()
    }
}

/// A prefix of `lines` holds no more characters than all of them.
pub proof fn lemma_total_len_take(lines: Seq<Seq<char>>, k: int)
    requires
        0 <= k <= lines.len(),
    ensures
        total_len(lines.take(k)) <= total_len(lines),
    decreases lines.len() - k,
{
    if k == lines.len() {
        assert(lines.take(k) =~= lines);
    } else {
        lemma_total_len_take(lines, k + 1);
        assert(lines.take(k + 1).drop_last() =~= lines.take(k));
    }
}

/// The pieces of a split hold every character but the separators.
proof fn lemma_split_on_total(s: Seq<char>, sep: char)
    ensures
        total_len(split_on(s, sep)) + split_on(s, sep).len() == s.len() + 1,
    decreases s.len(),
{
    if s.len() > 0 {
        lemma_split_on_total(s.drop_last(), sep);
        lemma_split_on_nonempty(s.drop_last(), sep);
        let prev = split_on(s.drop_last(), sep);
        assert(total_len(prev) == total_len(prev.drop_last()) + prev.last().len());
        if s.last() != sep {
            let next = prev.update(prev.len() - 1, prev.last().push(s.last()));
            assert(next.drop_last() =~= prev.drop_last());
            assert(total_len(next) == total_len(next.drop_last()) + next.last().len());
            assert(next.last() == prev.last().push(s.last()));
            assert(total_len(next) == total_len(prev) + 1);
            assert(split_on(s, sep) == next);
        } else {
            let next = prev.push(Seq::<char>::empty());
            assert(next.drop_last() =~= prev);
            assert(total_len(next) == total_len(prev));
            assert(split_on(s, sep) == next);
        }
    } else {
        let one = seq![Seq::<char>::empty()];
        assert(one.drop_last() =~= Seq::<Seq<char>>::empty());
        assert(total_len(one.drop_last()) == 0);
        assert(total_len(one) == 0);
        assert(split_on(s, sep) == one);
    }
}

/// Stripping carriage returns from the first `k` pieces keeps their total no larger.
proof fn lemma_strip_cr_total(pieces: Seq<Seq<char>>, k: int)
    requires
        0 <= k <= pieces.len(),
    ensures
        total_len(Seq::new(k as nat, |i: int| strip_cr(pieces[i]))) <= total_len(pieces.take(k)),
    decreases k,
{
    if k > 0 {
        lemma_strip_cr_total(pieces, k - 1);
        assert(Seq::new(k as nat, |i: int| strip_cr(pieces[i])).drop_last() =~= Seq::new((k - 1) as nat, |i: int| strip_cr(pieces[i])));
        assert(pieces.take(k).drop_last() =~= pieces.take(k - 1));
    }
}

/// The lines of a text hold no more characters than the text.
pub proof fn lemma_text_lines_total(s: Seq<char>)
    ensures
        total_len(text_lines(s)) <= s.len(),
{
    lemma_split_on_total(s, '\n');
    lemma_split_on_nonempty(s, '\n');
    let pieces = split_on(s, '\n');
    let n = pieces.len();
    lemma_strip_cr_total(pieces, n - 1);
    let ended = Seq::new((n - 1) as nat, |i: int| strip_cr(pieces[i]));
    assert(pieces.take(n as int).drop_last() =~= pieces.take(n - 1));
    assert(pieces.take(n as int) =~= pieces);
    if pieces[n - 1].len() != 0 {
        assert(ended.push(pieces[n - 1]).drop_last() =~= ended);
    }
}

/// A text has no more characters than bytes.
pub proof fn lemma_len_le_utf8_len(s: Seq<char>)
    ensures
        s.len() <= utf8_len(s),
    decreases s.len(),
{
    if s.len() > 0 {
        lemma_len_le_utf8_len(s.drop_last());
    }
}

} // verus!
