//! Searching, trimming, word splitting and decimal rendering on character
//! sequences, with the character classes and case mapping that std decides.

use vstd::prelude::*;
use crate::terminal::websocket::{is_ascii_digit, is_ascii_letter};

verus! {

/// `needle` occurs in `hay` starting at character position `i`.
pub open spec fn occurs_at(hay: Seq<char>, needle: Seq<char>, i: int) -> bool {
    0 <= i && i + needle.len() <= hay.len() && hay.subrange(i, i + needle.len()) == needle
}

/// The first position at or after `i` where `needle` occurs in `hay`.
pub open spec fn find_from(hay: Seq<char>, needle: Seq<char>, i: int) -> Option<int>
    decreases hay.len() + 1 - i,
{
    if i < 0 || i + needle.len() > hay.len() {
        None
    } else if occurs_at(hay, needle, i) {
        Some(i)
    } else {
        find_from(hay, needle, i + 1)
    }
}

/// The first position where `needle` occurs in `hay` (`str::find`, by characters).
pub open spec fn find_seq(hay: Seq<char>, needle: Seq<char>) -> Option<int> {
    find_from(hay, needle, 0)
}

/// `needle` occurs somewhere in `hay` (`str::contains`).
pub open spec fn contains_seq(hay: Seq<char>, needle: Seq<char>) -> bool {
    exists|i: int| #[trigger] occurs_at(hay, needle, i)
}

/// `find_from` yields the least occurrence at or after `i`, or none when there is none.
pub proof fn lemma_find_from(hay: Seq<char>, needle: Seq<char>, i: int)
    requires
        0 <= i,
    ensures
        match find_from(hay, needle, i) {
            Some(k) => i <= k && occurs_at(hay, needle, k) && forall|j: int|
                i <= j < k ==> !#[trigger] occurs_at(hay, needle, j),
            None => forall|j: int| i <= j ==> !#[trigger] occurs_at(hay, needle, j),
        },
    decreases hay.len() + 1 - i,
{
    if i + needle.len() > hay.len() {
    } else if occurs_at(hay, needle, i) {
    } else {
        lemma_find_from(hay, needle, i + 1);
    }
}

/// `find_seq` succeeds exactly when the needle occurs, at its first occurrence.
pub proof fn lemma_find_seq(hay: Seq<char>, needle: Seq<char>)
    ensures
        find_seq(hay, needle) is Some <==> contains_seq(hay, needle),
        match find_seq(hay, needle) {
            Some(k) => occurs_at(hay, needle, k) && forall|j: int|
                0 <= j < k ==> !#[trigger] occurs_at(hay, needle, j),
            None => true,
        },
{
    lemma_find_from(hay, needle, 0);
}

/// `s` ends with `suffix` (`str::ends_with`).
pub open spec fn has_suffix(s: Seq<char>, suffix: Seq<char>) -> bool {
    suffix.len() <= s.len() && s.subrange(s.len() - suffix.len(), s.len() as int) == suffix
}

/// Whether `needle` occurs in `hay` at position `i`.
fn matches_at(hay: &Vec<char>, needle: &Vec<char>, i: usize) -> (b: bool)
    requires
        i + needle@.len() <= hay@.len(),
    ensures
        b == occurs_at(hay@, needle@, i as int),
{
    let n = needle.len();
    let h = hay.len();
    let mut j: usize = 0;
    while j < n
        invariant
            0 <= j <= n,
            n == needle@.len(),
            h == hay@.len(),
            i + n <= h,
            forall|k: int| 0 <= k < j ==> hay@[i + k] == needle@[k],
        decreases n - j,
    {
        if hay[i + j] != needle[j] {
            proof {
                assert(hay@.subrange(i as int, i + n)[j as int] != needle@[j as int]);
            }
            return false;
        }
        j = j + 1;
    }
    proof {
        assert(hay@.subrange(i as int, i + n) =~= needle@);
    }
    true
}

/// The first position where `needle` occurs in `hay`.
pub fn find_chars(hay: &Vec<char>, needle: &Vec<char>) -> (r: Option<usize>)
    ensures
        match r {
            Some(k) => find_seq(hay@, needle@) == Some(k as int),
            None => find_seq(hay@, needle@) is None,
        },
{
    let n = needle.len();
    let h = hay.len();
    if n > h {
        return None;
    }
    if n == 0 {
        proof {
            assert(hay@.subrange(0, 0) =~= needle@);
        }
        return Some(0);
    }
    let mut i: usize = 0;
    while i <= h - n
        invariant
            n == needle@.len(),
            h == hay@.len(),
            0 < n <= h,
            i <= h - n + 1,
            find_seq(hay@, needle@) == find_from(hay@, needle@, i as int),
        decreases h - n + 1 - i,
    {
        if matches_at(hay, needle, i) {
            return Some(i);
        }
        i = i + 1;
    }
    None
}

/// Whether `needle` occurs in `hay`.
pub fn contains_chars(hay: &Vec<char>, needle: &Vec<char>) -> (b: bool)
    ensures
        b == contains_seq(hay@, needle@),
{
    proof {
        lemma_find_seq(hay@, needle@);
    }
    find_chars(hay, needle).is_some()
}

/// Whether `s` ends with `suffix`.
pub fn ends_with_chars(s: &Vec<char>, suffix: &Vec<char>) -> (b: bool)
    ensures
        b == has_suffix(s@, suffix@),
{
    let n = suffix.len();
    let h = s.len();
    if n > h {
        return false;
    }
    let r = matches_at(s, suffix, h - n);
    proof {
        assert(h - n + n == h);
    }
    r
}

/// Whether `c` is white space (`char::is_whitespace`); what Unicode's
/// White_Space property holds for each character is not restated here.
pub uninterp spec fn char_is_whitespace(c: char) -> bool;

/// Whether `c` is alphanumeric (`char::is_alphanumeric`); the Unicode
/// tables behind it are not restated here.
pub uninterp spec fn char_is_alphanumeric(c: char) -> bool;

/// The lowercase mapping of a text (`str::to_lowercase`); the Unicode case
/// tables behind it are not restated here.
pub uninterp spec fn lowercase_of(s: Seq<char>) -> Seq<char>;

/// Whether `c` is an ASCII character.
pub open spec fn is_ascii_char(c: char) -> bool {
    (c as u32) < 128
}

/// Whether every character of `s` is ASCII.
pub open spec fn is_ascii_text(s: Seq<char>) -> bool {
    forall|i: int| 0 <= i < s.len() ==> is_ascii_char(#[trigger] s[i])
}

/// White space: within ASCII the tab, line feed, vertical tab, form feed,
/// carriage return and space; beyond it Unicode's White_Space property.
pub open spec fn white_space(c: char) -> bool {
    if is_ascii_char(c) {
        (c as u32) == 32 || (9 <= (c as u32) <= 13)
    } else {
        char_is_whitespace(c)
    }
}

/// Alphanumeric: within ASCII the letters and digits; beyond it Unicode's
/// Alphabetic and Numeric properties.
pub open spec fn alphanumeric(c: char) -> bool {
    if is_ascii_char(c) {
        is_ascii_letter(c) || is_ascii_digit(c)
    } else {
        char_is_alphanumeric(c)
    }
}

/// The lowercase form of an ASCII character: `A` to `Z` become `a` to `z`.
pub open spec fn ascii_lower(c: char) -> char {
    if 65 <= (c as u32) <= 90 {
        ((c as u32) + 32) as char
    } else {
        c
    }
}

/// The lowercase form of a text: each character lowered on ASCII text,
/// Unicode's case mapping beyond it.
pub open spec fn lowercase(s: Seq<char>) -> Seq<char> {
    if is_ascii_text(s) {
        s.map_values(|c: char| ascii_lower(c))
    } else {
        lowercase_of(s)
    }
}

/// `char::is_whitespace`: its result is `char_is_whitespace(c)`, which on
/// ASCII holds exactly for tab, line feed, vertical tab, form feed, carriage
/// return and space.
#[verifier::external_body]
pub(crate) fn is_whitespace(c: char) -> (b: bool)
    ensures
        b == char_is_whitespace(c),
        b == white_space(c),
{
    c.is_whitespace()
}

/// `char::is_alphanumeric`: its result is `char_is_alphanumeric(c)`, which
/// on ASCII holds exactly for letters and digits.
#[verifier::external_body]
pub(crate) fn is_alphanumeric(c: char) -> (b: bool)
    ensures
        b == char_is_alphanumeric(c),
        b == alphanumeric(c),
{
    c.is_alphanumeric()
}

/// `str::to_lowercase`: its result is `lowercase_of(s)`, which on ASCII
/// text lowers each of `A` to `Z` and keeps every other character.
#[verifier::external_body]
pub(crate) fn to_lowercase(s: &str) -> (r: String)
    ensures
        r@ == lowercase_of(s@),
        r@ == lowercase(s@),
{
    s.to_lowercase()
}

/// A class of characters that trimming removes.
#[derive(Clone, Copy)]
pub enum CharClass {
    /// White space (`str::trim`).
    Whitespace,
    /// Anything that is not alphanumeric (`trim_matches(|c| !c.is_alphanumeric())`).
    NotAlphanumeric,
}

/// Membership of `c` in `class`.
pub open spec fn in_class(class: CharClass, c: char) -> bool {
    match class {
        CharClass::Whitespace => white_space(c),
        CharClass::NotAlphanumeric => !alphanumeric(c),
    }
}

/// Whether `c` belongs to `class`.
pub fn char_in_class(class: CharClass, c: char) -> (b: bool)
    ensures
        b == in_class(class, c),
{
    match class {
        CharClass::Whitespace => is_whitespace(c),
        CharClass::NotAlphanumeric => !is_alphanumeric(c),
    }
}

/// `s` without its leading characters of `class`.
pub open spec fn trim_start_class(s: Seq<char>, class: CharClass) -> Seq<char>
    decreases s.len(),
{
    if s.len() > 0 && in_class(class, s[0]) {
        trim_start_class(s.drop_first(), class)
    } else {
        s
    }
}

/// `s` without its trailing characters of `class`.
pub open spec fn trim_end_class(s: Seq<char>, class: CharClass) -> Seq<char>
    decreases s.len(),
{
    if s.len() > 0 && in_class(class, s.last()) {
        trim_end_class(s.drop_last(), class)
    } else {
        s
    }
}

/// `s` without its leading and trailing characters of `class`.
pub open spec fn trim_class(s: Seq<char>, class: CharClass) -> Seq<char> {
    trim_end_class(trim_start_class(s, class), class)
}

/// `s` without its leading and trailing characters of `class`.
pub fn trim_chars(s: &Vec<char>, class: CharClass) -> (r: Vec<char>)
    ensures
        r@ == trim_class(s@, class),
{
    let n = s.len();
    let mut a: usize = 0;
    proof {
        assert(s@.skip(0) =~= s@);
    }
    while a < n && char_in_class(class, s[a])
        invariant
            0 <= a <= n,
            n == s@.len(),
            trim_start_class(s@, class) == trim_start_class(s@.skip(a as int), class),
        decreases n - a,
    {
        proof {
            assert(s@.skip(a as int).drop_first() =~= s@.skip(a + 1));
        }
        a = a + 1;
    }
    let ghost t = s@.skip(a as int);
    proof {
        if a == n {
            assert(t =~= Seq::<char>::empty());
        }
        assert(trim_start_class(s@, class) == t);
        assert(t.take(t.len() as int) =~= t);
    }
    let mut b: usize = n;
    while b > a && char_in_class(class, s[b - 1])
        invariant
            a <= b <= n,
            n == s@.len(),
            t == s@.skip(a as int),
            trim_class(s@, class) == trim_end_class(t.take(b - a), class),
        decreases b,
    {
        proof {
            assert(t.take(b - a).drop_last() =~= t.take(b - 1 - a));
            assert(t.take(b - a).last() == s@[b - 1]);
        }
        b = b - 1;
    }
    let mut r: Vec<char> = Vec::new();
    let mut k: usize = a;
    while k < b
        invariant
            a <= k <= b,
            b <= n,
            n == s@.len(),
            r@ == s@.subrange(a as int, k as int),
        decreases b - k,
    {
        r.push(s[k]);
        proof {
            assert(s@.subrange(a as int, k + 1) =~= s@.subrange(a as int, k as int).push(s@[k as int]));
        }
        k = k + 1;
    }
    proof {
        assert(t.take(b - a) =~= s@.subrange(a as int, b as int));
        if b > a {
            assert(!in_class(class, t.take(b - a).last()));
        }
    }
    r
}

/// Words collected so far and the word in progress, after reading `s`.
pub open spec fn words_state(s: Seq<char>) -> (Seq<Seq<char>>, Seq<char>)
    decreases s.len(),
{
    if s.len() == 0 {
        (Seq::empty(), Seq::empty())
    } else {
        let prev = words_state(s.drop_last());
        let c = s.last();
        if white_space(c) {
            if prev.1.len() > 0 {
                (prev.0.push(prev.1), Seq::empty())
            } else {
                (prev.0, Seq::empty())
            }
        } else {
            (prev.0, prev.1.push(c))
        }
    }
}

/// The maximal runs of non-white-space characters of `s`, in order
/// (`str::split_whitespace`).
pub open spec fn split_words(s: Seq<char>) -> Seq<Seq<char>> {
    let st = words_state(s);
    if st.1.len() > 0 {
        st.0.push(st.1)
    } else {
        st.0
    }
}

/// The words of `s` (`str::split_whitespace`).
pub fn words_of(s: &Vec<char>) -> (w: Vec<Vec<char>>)
    ensures
        w@.map_values(|x: Vec<char>| x@) == split_words(s@),
{
    let mut done: Vec<Vec<char>> = Vec::new();
    let mut cur: Vec<char> = Vec::new();
    let mut i: usize = 0;
    proof {
        assert(s@.take(0) =~= Seq::<char>::empty());
        assert(done@.map_values(|x: Vec<char>| x@) =~= Seq::<Seq<char>>::empty());
    }
    while i < s.len()
        invariant
            0 <= i <= s@.len(),
            done@.map_values(|x: Vec<char>| x@) == words_state(s@.take(i as int)).0,
            cur@ == words_state(s@.take(i as int)).1,
        decreases s@.len() - i,
    {
        let c = s[i];
        proof {
            assert(s@.take(i + 1).drop_last() =~= s@.take(i as int));
            assert(s@.take(i + 1).last() == c);
        }
        let ghost before = done@.map_values(|x: Vec<char>| x@);
        if is_whitespace(c) {
            if cur.len() > 0 {
                let w = cur;
                done.push(w);
                cur = Vec::new();
                proof {
                    assert(done@.map_values(|x: Vec<char>| x@) =~= before.push(w@));
                }
            } else {
                cur = Vec::new();
                proof {
                    assert(cur@ =~= Seq::<char>::empty());
                }
            }
        } else {
            cur.push(c);
        }
        i = i + 1;
    }
    proof {
        assert(s@.take(s@.len() as int) =~= s@);
    }
    if cur.len() > 0 {
        let ghost before = done@.map_values(|x: Vec<char>| x@);
        let w = cur;
        done.push(w);
        proof {
            assert(done@.map_values(|x: Vec<char>| x@) =~= before.push(w@));
        }
    }
    done
}

/// The decimal digit character for `d` (below ten).
pub open spec fn digit_char(d: nat) -> char {
    if d == 0 {
        '0'
    } else if d == 1 {
        '1'
    } else if d == 2 {
        '2'
    } else if d == 3 {
        '3'
    } else if d == 4 {
        '4'
    } else if d == 5 {
        '5'
    } else if d == 6 {
        '6'
    } else if d == 7 {
        '7'
    } else if d == 8 {
        '8'
    } else {
        '9'
    }
}

/// The decimal notation of `n`, without leading zeros (`Display` for integers).
pub open spec fn decimal(n: nat) -> Seq<char>
    decreases n,
{
    if n < 10 {
        seq![digit_char(n)]
    } else {
        decimal(n / 10).push(digit_char(n % 10))
    }
}

/// The digit character for `d`.
fn digit(d: usize) -> (c: char)
    requires
        d < 10,
    ensures
        c == digit_char(d as nat),
{
    if d == 0 {
        '0'
    } else if d == 1 {
        '1'
    } else if d == 2 {
        '2'
    } else if d == 3 {
        '3'
    } else if d == 4 {
        '4'
    } else if d == 5 {
        '5'
    } else if d == 6 {
        '6'
    } else if d == 7 {
        '7'
    } else if d == 8 {
        '8'
    } else {
        '9'
    }
}

/// Appends the decimal notation of `n` to `out`.
pub fn push_decimal(out: &mut Vec<char>, n: usize)
    ensures
        final(out)@ == old(out)@ + decimal(n as nat),
    decreases n,
{
    if n >= 10 {
        push_decimal(out, n / 10);
    }
    out.push(digit(n % 10));
    proof {
        assert(out@ =~= old(out)@ + decimal(n as nat));
    }
}

/// Appends the characters of `t` to `out`.
pub fn push_all(out: &mut Vec<char>, t: &Vec<char>)
    ensures
        final(out)@ == old(out)@ + t@,
{
    let mut j: usize = 0;
    while j < t.len()
        invariant
            0 <= j <= t@.len(),
            out@ == old(out)@ + t@.take(j as int),
        decreases t@.len() - j,
    {
        out.push(t[j]);
        proof {
            assert(t@.take(j + 1) =~= t@.take(j as int).push(t@[j as int]));
            assert(out@ =~= old(out)@ + t@.take(j + 1));
        }
        j = j + 1;
    }
    proof {
        assert(t@.take(t@.len() as int) =~= t@);
    }
}

} // verus!
