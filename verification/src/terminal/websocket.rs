//! Terminal wire messages and the ANSI escape-sequence parser.

use vstd::prelude::*;
use crate::text::{chars_to_string, lemma_split_on_no_sep, lemma_split_on_nonempty, split_on, str_chars};

verus! {

/// Messages exchanged with a remote terminal.
#[derive(Debug, Clone)]
pub enum TerminalMessage {
    Input(String),
    Output(String),
    Resize { cols: u16, rows: u16 },
    Connect,
    Disconnect,
    Heartbeat,
}

/// The sixteen ANSI terminal colors.
#[derive(Debug, Clone, Copy, PartialEq, Eq)]
pub enum AnsiColor {
    Black,
    Red,
    Green,
    Yellow,
    Blue,
    Magenta,
    Cyan,
    White,
    BrightBlack,
    BrightRed,
    BrightGreen,
    BrightYellow,
    BrightBlue,
    BrightMagenta,
    BrightCyan,
    BrightWhite,
}

impl AnsiColor {
    /// Color with the given ANSI index; indices above 15 give white.
    pub open spec fn spec_from_code(code: u8) -> AnsiColor {
        if code == 0 {
            AnsiColor::Black
        } else if code == 1 {
            AnsiColor::Red
        } else if code == 2 {
            AnsiColor::Green
        } else if code == 3 {
            AnsiColor::Yellow
        } else if code == 4 {
            AnsiColor::Blue
        } else if code == 5 {
            AnsiColor::Magenta
        } else if code == 6 {
            AnsiColor::Cyan
        } else if code == 7 {
            AnsiColor::White
        } else if code == 8 {
            AnsiColor::BrightBlack
        } else if code == 9 {
            AnsiColor::BrightRed
        } else if code == 10 {
            AnsiColor::BrightGreen
        } else if code == 11 {
            AnsiColor::BrightYellow
        } else if code == 12 {
            AnsiColor::BrightBlue
        } else if code == 13 {
            AnsiColor::BrightMagenta
        } else if code == 14 {
            AnsiColor::BrightCyan
        } else if code == 15 {
            AnsiColor::BrightWhite
        } else {
            AnsiColor::White
        }
    }

    /// The ANSI index of a color (the inverse of `spec_from_code` on 0..=15).
    pub open spec fn spec_code(self) -> u8 {
        match self {
            AnsiColor::Black => 0,
            AnsiColor::Red => 1,
            AnsiColor::Green => 2,
            AnsiColor::Yellow => 3,
            AnsiColor::Blue => 4,
            AnsiColor::Magenta => 5,
            AnsiColor::Cyan => 6,
            AnsiColor::White => 7,
            AnsiColor::BrightBlack => 8,
            AnsiColor::BrightRed => 9,
            AnsiColor::BrightGreen => 10,
            AnsiColor::BrightYellow => 11,
            AnsiColor::BrightBlue => 12,
            AnsiColor::BrightMagenta => 13,
            AnsiColor::BrightCyan => 14,
            AnsiColor::BrightWhite => 15,
        }
    }

    pub fn from_code(code: u8) -> (c: Self)
        ensures
            c == Self::spec_from_code(code),
    {
        match code {
            0 => AnsiColor::Black,
            1 => AnsiColor::Red,
            2 => AnsiColor::Green,
            3 => AnsiColor::Yellow,
            4 => AnsiColor::Blue,
            5 => AnsiColor::Magenta,
            6 => AnsiColor::Cyan,
            7 => AnsiColor::White,
            8 => AnsiColor::BrightBlack,
            9 => AnsiColor::BrightRed,
            10 => AnsiColor::BrightGreen,
            11 => AnsiColor::BrightYellow,
            12 => AnsiColor::BrightBlue,
            13 => AnsiColor::BrightMagenta,
            14 => AnsiColor::BrightCyan,
            15 => AnsiColor::BrightWhite,
            _ => AnsiColor::White,
        }
    }
}

/// Every color is recovered from its ANSI index.
pub proof fn lemma_color_code_round_trip(c: AnsiColor)
    ensures
        AnsiColor::spec_from_code(c.spec_code()) == c,
        c.spec_code() <= 15,
{
}


/// Text attributes selected by SGR escape sequences.
#[derive(Debug, Clone, Copy, PartialEq, Eq)]
pub struct TerminalStyle {
    pub bold: bool,
    pub italic: bool,
    pub underline: bool,
    pub fg_color: Option<AnsiColor>,
    pub bg_color: Option<AnsiColor>,
}

impl TerminalStyle {
    /// Plain style: no attribute set and no color chosen.
    pub open spec fn plain() -> TerminalStyle {
        TerminalStyle {
            bold: false,
            italic: false,
            underline: false,
            fg_color: None,
            bg_color: None,
        }
    }
}

impl Default for TerminalStyle {
    fn default() -> (s: Self)
        ensures
            s == TerminalStyle::plain(),
    {
        TerminalStyle {
            bold: false,
            italic: false,
            underline: false,
            fg_color: None,
            bg_color: None,
        }
    }
}

/// A unit of parsed terminal output.
#[derive(Debug, Clone)]
pub enum TerminalOutput {
    Text(String),
    Style(TerminalStyle),
    CursorPosition(u16, u16),
    ClearScreen,
    ClearLine,
    Unknown(String),
}

/// Mathematical model of a `TerminalOutput`, with text as character sequences.
pub enum OutputModel {
    Text(Seq<char>),
    Style(TerminalStyle),
    CursorPosition(u16, u16),
    ClearScreen,
    ClearLine,
    Unknown(Seq<char>),
}

impl View for TerminalOutput {
    type V = OutputModel;

    open spec fn view(&self) -> OutputModel {
        match self {
            TerminalOutput::Text(s) => OutputModel::Text(s@),
            TerminalOutput::Style(st) => OutputModel::Style(*st),
            TerminalOutput::CursorPosition(r, c) => OutputModel::CursorPosition(*r, *c),
            TerminalOutput::ClearScreen => OutputModel::ClearScreen,
            TerminalOutput::ClearLine => OutputModel::ClearLine,
            TerminalOutput::Unknown(s) => OutputModel::Unknown(s@),
        }
    }
}

/// Views of a sequence of outputs.
pub open spec fn outputs_view(v: Seq<TerminalOutput>) -> Seq<OutputModel> {
    v.map_values(|o: TerminalOutput| o@)
}

/// The text a terminal client passes on for an incoming text frame `raw`,
/// given what `raw` parses to as a terminal message (`None` when it is not
/// one): the output of an output message, nothing for other messages, and
/// the raw text itself when it is not a message.
pub fn forwarded_text(parsed: Option<TerminalMessage>, raw: String) -> (r: Option<String>)
    ensures
        match parsed {
            Some(TerminalMessage::Output(out)) => r == Some(out),
            Some(_) => r is None,
            None => r == Some(raw),
        },
{
    match parsed {
        Some(TerminalMessage::Output(out)) => Some(out),
        Some(_) => None,
        None => Some(raw),
    }
}

/// Whether `c` has the Unicode Alphabetic property (the result of `char::is_alphabetic`).
pub uninterp spec fn char_is_alphabetic(c: char) -> bool;

/// Whether `c` is an ASCII letter.
pub open spec fn is_ascii_letter(c: char) -> bool {
    (65 <= (c as u32) <= 90) || (97 <= (c as u32) <= 122)
}

/// Alphabetic: within ASCII the letters; beyond it Unicode's Alphabetic property.
pub open spec fn alphabetic(c: char) -> bool {
    if (c as u32) < 128 {
        is_ascii_letter(c)
    } else {
        char_is_alphabetic(c)
    }
}

/// `char::is_alphabetic`: the Unicode Alphabetic property; within ASCII exactly the letters.
#[verifier::external_body]
fn is_alphabetic(c: char) -> (b: bool)
    ensures
        b == char_is_alphabetic(c),
        b == alphabetic(c),
{
    c.is_alphabetic()
}

/// Whether `c` is an ASCII decimal digit.
pub open spec fn is_ascii_digit(c: char) -> bool {
    48 <= (c as u32) <= 57
}

/// Decimal value of a string of ASCII digits.
pub open spec fn decimal_value(s: Seq<char>) -> nat
    decreases s.len(),
{
    if s.len() == 0 {
        0
    } else {
        decimal_value(s.drop_last()) * 10 + ((s.last() as u32) - 48) as nat
    }
}

/// `s` without one leading `+`.
pub open spec fn unsigned_digits(s: Seq<char>) -> Seq<char> {
    if s.len() > 0 && s[0] == '+' {
        s.skip(1)
    } else {
        s
    }
}

/// Every character of `s` is an ASCII digit.
pub open spec fn all_digits(s: Seq<char>) -> bool {
    forall|i: int| 0 <= i < s.len() ==> is_ascii_digit(#[trigger] s[i])
}

/// The result of parsing `s` as a `u8` (`u8::from_str`): an optional `+`,
/// then at least one ASCII digit, with a value of at most 255.
pub open spec fn spec_parse_u8(s: Seq<char>) -> Option<u8> {
    let digits = unsigned_digits(s);
    if digits.len() > 0 && all_digits(digits) && decimal_value(digits) <= 255 {
        Some(decimal_value(digits) as u8)
    } else {
        None
    }
}

/// Extending a run of digits with more digits never lowers its value.
proof fn lemma_decimal_value_grows(s: Seq<char>, k: int)
    requires
        0 <= k <= s.len(),
        forall|i: int| 0 <= i < s.len() ==> is_ascii_digit(#[trigger] s[i]),
    ensures
        decimal_value(s.take(k)) <= decimal_value(s),
    decreases s.len() - k,
{
    if k < s.len() {
        lemma_decimal_value_grows(s, k + 1);
        let t = s.take(k + 1);
        assert(t.drop_last() =~= s.take(k));
        assert(t.last() == s[k]);
        assert(is_ascii_digit(s[k]));
    } else {
        assert(s.take(k) =~= s);
    }
}

/// Parses a `u8` as `str::parse::<u8>` does (an optional `+`, then decimal
/// digits, at most 255), with the error discarded.
fn parse_u8(s: &str) -> (r: Option<u8>)
    ensures
        r == spec_parse_u8(s@),
{
    let cs = str_chars(s);
    let n = cs.len();
    let start: usize = if n > 0 && cs[0] == '+' { 1 } else { 0 };
    let ghost digits = unsigned_digits(s@);
    proof {
        assert(digits =~= cs@.skip(start as int));
    }
    if start == n {
        return None;
    }
    let mut acc: u32 = 0;
    let mut i: usize = start;
    while i < n
        invariant
            start <= i <= n,
            n == cs@.len(),
            cs@ == s@,
            digits == cs@.skip(start as int),
            digits == unsigned_digits(s@),
            forall|j: int| start <= j < i ==> is_ascii_digit(#[trigger] cs@[j]),
            acc == decimal_value(cs@.subrange(start as int, i as int)),
            acc <= 255,
        decreases n - i,
    {
        let c = cs[i];
        let code = c as u32;
        if code < 48 || code > 57 {
            proof {
                assert(digits[i - start] == c);
                assert(!is_ascii_digit(digits[i - start]));
                assert(!all_digits(digits));
            }
            return None;
        }
        proof {
            let t = cs@.subrange(start as int, i + 1);
            assert(t.drop_last() =~= cs@.subrange(start as int, i as int));
            assert(t.last() == c);
        }
        acc = acc * 10 + (code - 48);
        if acc > 255 {
            proof {
                let t = cs@.subrange(start as int, i + 1);
                if all_digits(digits) {
                    lemma_decimal_value_grows(digits, i + 1 - start);
                    assert(digits.take(i + 1 - start) =~= t);
                }
            }
            return None;
        }
        i = i + 1;
    }
    proof {
        assert(cs@.subrange(start as int, n as int) =~= digits);
        assert forall|j: int| 0 <= j < digits.len() implies is_ascii_digit(#[trigger] digits[j]) by {
            assert(digits[j] == cs@[start + j]);
        }
    }
    Some(acc as u8)
}

/// Effect of one SGR parameter (as parsed) on a style.
pub open spec fn sgr_apply(style: TerminalStyle, code: Option<u8>) -> TerminalStyle {
    match code {
        Some(n) => if n == 0 {
            TerminalStyle::plain()
        } else if n == 1 {
            TerminalStyle { bold: true, ..style }
        } else if n == 3 {
            TerminalStyle { italic: true, ..style }
        } else if n == 4 {
            TerminalStyle { underline: true, ..style }
        } else if 30 <= n <= 37 {
            TerminalStyle { fg_color: Some(AnsiColor::spec_from_code((n - 30) as u8)), ..style }
        } else if 40 <= n <= 47 {
            TerminalStyle { bg_color: Some(AnsiColor::spec_from_code((n - 40) as u8)), ..style }
        } else if 90 <= n <= 97 {
            TerminalStyle { fg_color: Some(AnsiColor::spec_from_code((n - 90 + 8) as u8)), ..style }
        } else if 100 <= n <= 107 {
            TerminalStyle { bg_color: Some(AnsiColor::spec_from_code((n - 100 + 8) as u8)), ..style }
        } else {
            style
        },
        None => style,
    }
}

/// The color named by an ANSI index up to 15 has that index.
pub proof fn lemma_code_of_color_from_code(k: u8)
    requires
        k <= 15,
    ensures
        AnsiColor::spec_from_code(k).spec_code() == k,
{
}

/// SGR color parameters: 30–37 and 90–97 choose the foreground color (ANSI
/// indices 0–7 and 8–15), 40–47 and 100–107 the background color (the same
/// indices); a foreground code leaves the background and the attributes as
/// they were, and a background code leaves the foreground and the attributes.
pub proof fn lemma_sgr_color_codes(style: TerminalStyle, n: u8)
    ensures
        30 <= n <= 37 || 90 <= n <= 97 ==> {
            let r = sgr_apply(style, Some(n));
            &&& r.fg_color matches Some(c) && c.spec_code() == (if n <= 37 { n - 30 } else { n - 90 + 8 })
            &&& r.bg_color == style.bg_color
            &&& r.bold == style.bold && r.italic == style.italic && r.underline == style.underline
        },
        40 <= n <= 47 || 100 <= n <= 107 ==> {
            let r = sgr_apply(style, Some(n));
            &&& r.bg_color matches Some(c) && c.spec_code() == (if n <= 47 { n - 40 } else { n - 100 + 8 })
            &&& r.fg_color == style.fg_color
            &&& r.bold == style.bold && r.italic == style.italic && r.underline == style.underline
        },
{
    if 30 <= n <= 37 {
        lemma_code_of_color_from_code((n - 30) as u8);
    } else if 90 <= n <= 97 {
        lemma_code_of_color_from_code((n - 90 + 8) as u8);
    } else if 40 <= n <= 47 {
        lemma_code_of_color_from_code((n - 40) as u8);
    } else if 100 <= n <= 107 {
        lemma_code_of_color_from_code((n - 100 + 8) as u8);
    }
}

/// SGR attribute parameters: 0 resets to the plain style, 1 turns bold on,
/// 3 italic and 4 underline, each leaving everything else as it was; a
/// parameter that is not a known code, or that did not parse, changes nothing.
pub proof fn lemma_sgr_attribute_codes(style: TerminalStyle, code: Option<u8>)
    ensures
        code == Some(0u8) ==> sgr_apply(style, code) == TerminalStyle::plain(),
        code == Some(1u8) ==> sgr_apply(style, code) == (TerminalStyle { bold: true, ..style }),
        code == Some(3u8) ==> sgr_apply(style, code) == (TerminalStyle { italic: true, ..style }),
        code == Some(4u8) ==> sgr_apply(style, code) == (TerminalStyle { underline: true, ..style }),
        code is None ==> sgr_apply(style, code) == style,
        code matches Some(n) && n != 0 && n != 1 && n != 3 && n != 4 && !(30 <= n <= 37) && !(40 <= n <= 47)
            && !(90 <= n <= 97) && !(100 <= n <= 107) ==> sgr_apply(style, code) == style,
        TerminalStyle::plain().fg_color is None && TerminalStyle::plain().bg_color is None,
        !TerminalStyle::plain().bold && !TerminalStyle::plain().italic && !TerminalStyle::plain().underline,
{
}

/// Style obtained by applying the SGR parameters `parts` in order to the plain style.
pub open spec fn sgr_fold(parts: Seq<Seq<char>>) -> TerminalStyle
    decreases parts.len(),
{
    if parts.len() == 0 {
        TerminalStyle::plain()
    } else {
        sgr_apply(sgr_fold(parts.drop_last()), spec_parse_u8(parts.last()))
    }
}

/// Style selected by the SGR parameter list `codes` (the text between `ESC [` and `m`).
pub open spec fn sgr_style(codes: Seq<char>) -> TerminalStyle {
    sgr_fold(split_on(codes, ';'))
}

/// Output produced by a complete escape sequence `esc` (which starts with ESC).
pub open spec fn escape_output(esc: Seq<char>) -> OutputModel {
    if esc.len() >= 2 && esc[0] == '\x1b' && esc[1] == '[' && esc.len() > 2 {
        let last = esc.last();
        if last == 'm' {
            OutputModel::Style(sgr_style(esc.subrange(2, esc.len() - 1)))
        } else if last == 'H' || last == 'f' {
            OutputModel::CursorPosition(0, 0)
        } else if last == 'J' {
            OutputModel::ClearScreen
        } else if last == 'K' {
            OutputModel::ClearLine
        } else {
            OutputModel::Unknown(esc)
        }
    } else {
        OutputModel::Unknown(esc)
    }
}

/// Mathematical model of the parser state.
#[verifier::ext_equal]
pub struct ParserModel {
    pub buffer: Seq<char>,
    pub in_escape: bool,
    pub escape_buffer: Seq<char>,
}

/// A character that ends an escape sequence: a letter or `~` within ASCII,
/// an alphabetic character beyond it.
pub open spec fn ends_escape(c: char) -> bool {
    alphabetic(c) || c == '~'
}

/// Effect of one input character on the parser state, and the outputs it emits.
pub open spec fn parse_step(st: ParserModel, ch: char) -> (ParserModel, Seq<OutputModel>) {
    if st.in_escape {
        let esc = st.escape_buffer.push(ch);
        if ends_escape(ch) {
            (
                ParserModel { buffer: st.buffer, in_escape: false, escape_buffer: Seq::empty() },
                seq![escape_output(esc)],
            )
        } else {
            (ParserModel { buffer: st.buffer, in_escape: true, escape_buffer: esc }, Seq::empty())
        }
    } else if ch == '\x1b' {
        let flushed = if st.buffer.len() > 0 {
            seq![OutputModel::Text(st.buffer)]
        } else {
            Seq::empty()
        };
        (
            ParserModel {
                buffer: Seq::empty(),
                in_escape: true,
                escape_buffer: st.escape_buffer.push(ch),
            },
            flushed,
        )
    } else if ch == '\r' {
        (st, Seq::empty())
    } else if ch == '\n' {
        (
            ParserModel { buffer: Seq::empty(), ..st },
            seq![OutputModel::Text(st.buffer.push(ch))],
        )
    } else {
        (ParserModel { buffer: st.buffer.push(ch), ..st }, Seq::empty())
    }
}

/// State and outputs after feeding the characters `input` one by one.
pub open spec fn parse_run(st: ParserModel, input: Seq<char>) -> (ParserModel, Seq<OutputModel>)
    decreases input.len(),
{
    if input.len() == 0 {
        (st, Seq::empty())
    } else {
        let (mid, out1) = parse_run(st, input.drop_last());
        let (fin, out2) = parse_step(mid, input.last());
        (fin, out1 + out2)
    }
}

/// State and outputs of a whole `parse` call: the run, then a flush of pending text.
pub open spec fn parse_call(st: ParserModel, input: Seq<char>) -> (ParserModel, Seq<OutputModel>) {
    let (fin, out) = parse_run(st, input);
    if fin.buffer.len() > 0 {
        (ParserModel { buffer: Seq::empty(), ..fin }, out.push(OutputModel::Text(fin.buffer)))
    } else {
        (fin, out)
    }
}

/// `s` without its carriage returns.
pub open spec fn without_cr(s: Seq<char>) -> Seq<char>
    decreases s.len(),
{
    if s.len() == 0 {
        s
    } else if s.last() == '\r' {
        without_cr(s.drop_last())
    } else {
        without_cr(s.drop_last()).push(s.last())
    }
}

/// Outside an escape sequence, characters other than ESC and newline
/// collect as pending text, carriage returns left out, and nothing is emitted.
pub proof fn lemma_plain_run(st: ParserModel, input: Seq<char>)
    requires
        !st.in_escape,
        forall|i: int| 0 <= i < input.len() ==> input[i] != '\x1b' && input[i] != '\n',
    ensures
        parse_run(st, input).0 == (ParserModel { buffer: st.buffer + without_cr(input), ..st }),
        parse_run(st, input).1 == Seq::<OutputModel>::empty(),
    decreases input.len(),
{
    if input.len() == 0 {
        assert(st.buffer + without_cr(input) =~= st.buffer);
    } else {
        lemma_plain_run(st, input.drop_last());
        let mid = parse_run(st, input.drop_last()).0;
        assert(input.last() == input[input.len() - 1]);
        if input.last() == '\r' {
        } else {
            assert(mid.buffer.push(input.last()) =~= st.buffer + without_cr(input));
        }
        assert(Seq::<OutputModel>::empty() + Seq::<OutputModel>::empty() =~= Seq::<OutputModel>::empty());
    }
}

/// Text without escape sequences or newlines given to an idle parser comes
/// out as one text output, without its carriage returns (none when that
/// leaves nothing), and the parser stays idle.
pub proof fn lemma_plain_text_passes_through(st: ParserModel, input: Seq<char>)
    requires
        !st.in_escape,
        st.buffer.len() == 0,
        forall|i: int| 0 <= i < input.len() ==> input[i] != '\x1b' && input[i] != '\n',
    ensures
        parse_call(st, input).0 == st,
        without_cr(input).len() > 0 ==> parse_call(st, input).1 == seq![OutputModel::Text(without_cr(input))],
        without_cr(input).len() == 0 ==> parse_call(st, input).1 == Seq::<OutputModel>::empty(),
{
    lemma_plain_run(st, input);
    assert(st.buffer + without_cr(input) =~= without_cr(input));
    assert(Seq::<OutputModel>::empty().push(OutputModel::Text(without_cr(input))) =~= seq![OutputModel::Text(without_cr(input))]);
    assert((ParserModel { buffer: Seq::<char>::empty(), ..st }) == st);
}

/// Feeding `a` and then `b` is feeding `a + b`: the states agree and the
/// outputs follow one another.
pub proof fn lemma_parse_run_concat(st: ParserModel, a: Seq<char>, b: Seq<char>)
    ensures
        parse_run(st, a + b).0 == parse_run(parse_run(st, a).0, b).0,
        parse_run(st, a + b).1 == parse_run(st, a).1 + parse_run(parse_run(st, a).0, b).1,
    decreases b.len(),
{
    if b.len() == 0 {
        assert(a + b =~= a);
        assert(parse_run(st, a).1 + Seq::<OutputModel>::empty() =~= parse_run(st, a).1);
    } else {
        lemma_parse_run_concat(st, a, b.drop_last());
        assert((a + b).drop_last() =~= a + b.drop_last());
        assert((a + b).last() == b.last());
        let mid = parse_run(st, a).0;
        let step = parse_step(parse_run(mid, b.drop_last()).0, b.last());
        assert(parse_run(st, a).1 + parse_run(mid, b.drop_last()).1 + step.1 =~= parse_run(st, a).1 + (
            parse_run(mid, b.drop_last()).1 + step.1));
    }
}

/// While an escape sequence is being collected no text is pending, and one
/// step keeps it so.
proof fn lemma_parse_step_escape_clear(st: ParserModel, ch: char)
    requires
        st.in_escape ==> st.buffer.len() == 0,
    ensures
        parse_step(st, ch).0.in_escape ==> parse_step(st, ch).0.buffer.len() == 0,
{
}

proof fn lemma_parse_run_escape_clear(st: ParserModel, input: Seq<char>)
    requires
        st.in_escape ==> st.buffer.len() == 0,
    ensures
        parse_run(st, input).0.in_escape ==> parse_run(st, input).0.buffer.len() == 0,
    decreases input.len(),
{
    if input.len() > 0 {
        lemma_parse_run_escape_clear(st, input.drop_last());
        lemma_parse_step_escape_clear(parse_run(st, input.drop_last()).0, input.last());
    }
}

/// Parsing `s1` and then `s2` in two calls gives the state and the outputs of
/// parsing `s1 + s2` in one call when `s1` ends inside an escape sequence
/// (from a parser with no text pending while it collects one, as every
/// parser between calls is).
pub proof fn lemma_parse_split_in_escape(st: ParserModel, s1: Seq<char>, s2: Seq<char>)
    requires
        st.in_escape ==> st.buffer.len() == 0,
        parse_run(st, s1).0.in_escape,
    ensures
        parse_call(parse_call(st, s1).0, s2).0 == parse_call(st, s1 + s2).0,
        parse_call(st, s1).1 + parse_call(parse_call(st, s1).0, s2).1 == parse_call(st, s1 + s2).1,
{
    lemma_parse_run_escape_clear(st, s1);
    lemma_parse_run_concat(st, s1, s2);
    let mid = parse_run(st, s1).0;
    assert(parse_call(st, s1) == parse_run(st, s1));
    let fin = parse_run(mid, s2);
    if fin.0.buffer.len() > 0 {
        assert(parse_run(st, s1).1 + fin.1.push(OutputModel::Text(fin.0.buffer)) =~= (parse_run(st, s1).1 + fin.1).push(
            OutputModel::Text(fin.0.buffer),
        ));
    }
}

/// The text of `outs`: the payloads of its text outputs, one after another.
pub open spec fn text_of(outs: Seq<OutputModel>) -> Seq<char>
    decreases outs.len(),
{
    if outs.len() == 0 {
        Seq::empty()
    } else {
        match outs.last() {
            OutputModel::Text(t) => text_of(outs.drop_last()) + t,
            _ => text_of(outs.drop_last()),
        }
    }
}

/// No text output of `outs` is empty.
pub open spec fn texts_nonempty(outs: Seq<OutputModel>) -> bool {
    forall|i: int| 0 <= i < outs.len() ==> (#[trigger] outs[i] matches OutputModel::Text(t) ==> t.len() > 0)
}

/// What reading `s` leaves of it as text, starting inside an escape sequence
/// or not: escape sequences (ESC up to the character that ends them) and
/// carriage returns outside them are deleted. Also whether reading ends inside
/// an escape sequence.
pub open spec fn visible_text(in_escape: bool, s: Seq<char>) -> (bool, Seq<char>)
    decreases s.len(),
{
    if s.len() == 0 {
        (in_escape, Seq::empty())
    } else {
        let (e, v) = visible_text(in_escape, s.drop_last());
        let c = s.last();
        if e {
            (!ends_escape(c), v)
        } else if c == '\x1b' {
            (true, v)
        } else if c == '\r' {
            (false, v)
        } else {
            (false, v.push(c))
        }
    }
}

/// The text of a single output.
proof fn lemma_text_of_single(o: OutputModel)
    ensures
        text_of(seq![o]) == (match o {
            OutputModel::Text(t) => t,
            _ => Seq::<char>::empty(),
        }),
{
    let s = seq![o];
    assert(s.drop_last() =~= Seq::<OutputModel>::empty());
    assert(s.last() == o);
    assert(text_of(Seq::<OutputModel>::empty()) == Seq::<char>::empty());
    match o {
        OutputModel::Text(t) => {
            assert(Seq::<char>::empty() + t =~= t);
        },
        _ => {},
    }
}

/// The text of two output runs one after another.
pub proof fn lemma_text_of_concat(a: Seq<OutputModel>, b: Seq<OutputModel>)
    ensures
        text_of(a + b) == text_of(a) + text_of(b),
    decreases b.len(),
{
    if b.len() == 0 {
        assert(a + b =~= a);
        assert(text_of(a) + Seq::<char>::empty() =~= text_of(a));
    } else {
        lemma_text_of_concat(a, b.drop_last());
        assert((a + b).drop_last() =~= a + b.drop_last());
        assert((a + b).last() == b.last());
        match b.last() {
            OutputModel::Text(t) => {
                assert(text_of(a) + text_of(b.drop_last()) + t =~= text_of(a) + (text_of(b.drop_last()) + t));
            },
            _ => {},
        }
    }
}

proof fn lemma_texts_nonempty_concat(a: Seq<OutputModel>, b: Seq<OutputModel>)
    requires
        texts_nonempty(a),
        texts_nonempty(b),
    ensures
        texts_nonempty(a + b),
{
    assert forall|i: int| 0 <= i < (a + b).len() implies (#[trigger] (a + b)[i] matches OutputModel::Text(t) ==> t.len() > 0) by {
        if i < a.len() {
            assert((a + b)[i] == a[i]);
        } else {
            assert((a + b)[i] == b[i - a.len()]);
        }
    }
}

/// Feeding `input` emits, with the text then pending, the pending text
/// before and the visible text of `input`; no emitted text is empty, and
/// the parser is inside an escape sequence exactly when reading ends in one.
pub proof fn lemma_parse_run_text(st: ParserModel, input: Seq<char>)
    ensures
        text_of(parse_run(st, input).1) + parse_run(st, input).0.buffer == st.buffer + visible_text(st.in_escape, input).1,
        parse_run(st, input).0.in_escape == visible_text(st.in_escape, input).0,
        texts_nonempty(parse_run(st, input).1),
    decreases input.len(),
{
    if input.len() == 0 {
        assert(text_of(Seq::<OutputModel>::empty()) + st.buffer =~= st.buffer + Seq::<char>::empty());
    } else {
        lemma_parse_run_text(st, input.drop_last());
        let (mid, out1) = parse_run(st, input.drop_last());
        let c = input.last();
        let (fin, out2) = parse_step(mid, c);
        lemma_text_of_concat(out1, out2);
        let v = visible_text(st.in_escape, input.drop_last()).1;
        assert(text_of(out1) + mid.buffer == st.buffer + v);
        if mid.in_escape {
            assert(text_of(out2) =~= Seq::<char>::empty()) by {
                if ends_escape(c) {
                    lemma_text_of_single(escape_output(mid.escape_buffer.push(c)));
                }
            }
            assert(text_of(out1) + text_of(out2) + fin.buffer =~= text_of(out1) + mid.buffer);
        } else if c == '\x1b' {
            if mid.buffer.len() > 0 {
                lemma_text_of_single(OutputModel::Text(mid.buffer));
                assert(text_of(out2) =~= mid.buffer);
            } else {
                assert(text_of(out2) =~= mid.buffer);
            }
            assert(text_of(out1) + text_of(out2) + fin.buffer =~= text_of(out1) + mid.buffer);
        } else if c == '\r' {
            assert(text_of(out1) + text_of(out2) + fin.buffer =~= text_of(out1) + mid.buffer);
        } else if c == '\n' {
            lemma_text_of_single(OutputModel::Text(mid.buffer.push(c)));
            assert(text_of(out2) =~= mid.buffer.push(c));
            assert(text_of(out1) + text_of(out2) + fin.buffer =~= (text_of(out1) + mid.buffer).push(c));
            assert((st.buffer + v).push(c) =~= st.buffer + v.push(c));
        } else {
            assert(text_of(out1) + text_of(out2) + fin.buffer =~= (text_of(out1) + mid.buffer).push(c));
            assert((st.buffer + v).push(c) =~= st.buffer + v.push(c));
        }
        assert(texts_nonempty(out2));
        lemma_texts_nonempty_concat(out1, out2);
    }
}

/// A whole `parse` call from a parser with no text pending emits as text
/// exactly the input with its escape sequences and carriage returns deleted,
/// and never an empty text.
pub proof fn lemma_parse_call_text(st: ParserModel, input: Seq<char>)
    requires
        st.buffer.len() == 0,
    ensures
        text_of(parse_call(st, input).1) == visible_text(st.in_escape, input).1,
        texts_nonempty(parse_call(st, input).1),
{
    lemma_parse_run_text(st, input);
    let (fin, out) = parse_run(st, input);
    assert(st.buffer + visible_text(st.in_escape, input).1 =~= visible_text(st.in_escape, input).1);
    if fin.buffer.len() > 0 {
        let out2 = seq![OutputModel::Text(fin.buffer)];
        assert(out.push(OutputModel::Text(fin.buffer)) =~= out + out2);
        lemma_text_of_single(OutputModel::Text(fin.buffer));
        lemma_text_of_concat(out, out2);
        lemma_texts_nonempty_concat(out, out2);
        assert(text_of(out2) =~= fin.buffer);
    } else {
        assert(text_of(out) + fin.buffer =~= text_of(out));
    }
}

/// The state of a parser that has read nothing.
pub open spec fn idle_parser() -> ParserModel {
    ParserModel { buffer: Seq::empty(), in_escape: false, escape_buffer: Seq::empty() }
}

/// Inside an escape sequence, characters that do not end it are collected.
proof fn lemma_escape_collects(st: ParserModel, cs: Seq<char>)
    requires
        st.in_escape,
        forall|i: int| 0 <= i < cs.len() ==> !ends_escape(#[trigger] cs[i]),
    ensures
        parse_run(st, cs).0 == (ParserModel { escape_buffer: st.escape_buffer + cs, ..st }),
        parse_run(st, cs).1 == Seq::<OutputModel>::empty(),
    decreases cs.len(),
{
    if cs.len() == 0 {
        assert(st.escape_buffer + cs =~= st.escape_buffer);
    } else {
        lemma_escape_collects(st, cs.drop_last());
        assert(cs.last() == cs[cs.len() - 1]);
        assert(st.escape_buffer + cs.drop_last() + seq![cs.last()] =~= st.escape_buffer + cs);
        assert((st.escape_buffer + cs.drop_last()).push(cs.last()) =~= st.escape_buffer + cs);
        assert(Seq::<OutputModel>::empty() + Seq::<OutputModel>::empty() =~= Seq::<OutputModel>::empty());
    }
}

/// An idle parser given `ESC [`, a decimal SGR parameter of at most 255 and
/// `m` emits exactly one output: the plain style with that parameter applied
/// (so `ESC[101m` gives the plain style on a bright red background) and is
/// idle again.
pub proof fn lemma_sgr_sequence_style(codes: Seq<char>)
    requires
        codes.len() > 0,
        all_digits(codes),
        decimal_value(codes) <= 255,
    ensures
        parse_call(idle_parser(), seq!['\x1b', '['] + codes + seq!['m']).0 == idle_parser(),
        parse_call(idle_parser(), seq!['\x1b', '['] + codes + seq!['m']).1
            == seq![OutputModel::Style(sgr_apply(TerminalStyle::plain(), Some(decimal_value(codes) as u8)))],
{
    let st = idle_parser();
    let esc = seq!['\x1b'];
    let rest = seq!['['] + codes;
    let input = seq!['\x1b', '['] + codes + seq!['m'];
    assert(esc.drop_last() =~= Seq::<char>::empty());
    assert(esc.last() == '\x1b');
    let after_esc = ParserModel { buffer: Seq::empty(), in_escape: true, escape_buffer: esc };
    assert(parse_run(st, Seq::<char>::empty()) == (st, Seq::<OutputModel>::empty()));
    assert(parse_run(st, esc.drop_last()) == (st, Seq::<OutputModel>::empty()));
    assert(st.escape_buffer.push('\x1b') =~= esc);
    assert(parse_step(st, '\x1b').1 =~= Seq::<OutputModel>::empty());
    assert(parse_run(st, esc).0 == after_esc);
    assert(parse_run(st, esc).1 =~= Seq::<OutputModel>::empty());
    assert forall|i: int| 0 <= i < rest.len() implies !ends_escape(#[trigger] rest[i]) by {
        if i > 0 {
            assert(rest[i] == codes[i - 1]);
            assert(is_ascii_digit(codes[i - 1]));
        }
    }
    lemma_escape_collects(after_esc, rest);
    lemma_parse_run_concat(st, esc, rest);
    let body = esc + rest;
    assert(body =~= seq!['\x1b', '['] + codes);
    assert(after_esc.escape_buffer + rest =~= body);
    let mid = parse_run(st, body);
    assert(mid.0 == (ParserModel { escape_buffer: body, ..after_esc }));
    assert(mid.1 =~= Seq::<OutputModel>::empty());
    assert(input =~= body + seq!['m']);
    let m_only = seq!['m'];
    assert(m_only.drop_last() =~= Seq::<char>::empty());
    assert(m_only.last() == 'm');
    lemma_parse_run_concat(st, body, m_only);
    assert(is_ascii_letter('m'));
    assert(ends_escape('m'));
    let full = body.push('m');
    assert(full =~= input);
    assert(full.subrange(2, full.len() - 1) =~= codes);
    assert forall|i: int| 0 <= i < codes.len() implies codes[i] != ';' by {
        assert(is_ascii_digit(codes[i]));
    }
    lemma_split_on_no_sep(codes, ';');
    let parts = seq![codes];
    assert(parts.drop_last() =~= Seq::<Seq<char>>::empty());
    assert(parts.last() == codes);
    assert(codes[0] != '+') by {
        assert(is_ascii_digit(codes[0]));
    }
    assert(unsigned_digits(codes) == codes);
    assert(spec_parse_u8(codes) == Some(decimal_value(codes) as u8));
    assert(split_on(codes, ';') == parts);
    assert(sgr_fold(Seq::<Seq<char>>::empty()) == TerminalStyle::plain());
    assert(sgr_fold(parts) == sgr_apply(TerminalStyle::plain(), spec_parse_u8(codes)));
    assert(sgr_style(codes) == sgr_apply(TerminalStyle::plain(), Some(decimal_value(codes) as u8)));
    assert(escape_output(full) == OutputModel::Style(sgr_style(codes)));
    let fin = parse_run(st, input);
    assert(parse_run(mid.0, m_only.drop_last()) == (mid.0, Seq::<OutputModel>::empty()));
    assert(parse_step(mid.0, 'm').1 == seq![escape_output(full)]);
    assert(parse_run(mid.0, m_only).1 =~= seq![escape_output(full)]);
    assert(mid.1 + seq![escape_output(full)] =~= seq![escape_output(full)]);
    assert(fin.1 =~= seq![OutputModel::Style(sgr_apply(TerminalStyle::plain(), Some(decimal_value(codes) as u8)))]);
    assert(fin.0 == idle_parser());
}

/// Incremental parser that splits terminal output into text and escape sequences.
pub struct AnsiParser {
    buffer: Vec<char>,
    in_escape: bool,
    escape_buffer: Vec<char>,
}

impl View for AnsiParser {
    type V = ParserModel;

    closed spec fn view(&self) -> ParserModel {
        ParserModel {
            buffer: self.buffer@,
            in_escape: self.in_escape,
            escape_buffer: self.escape_buffer@,
        }
    }
}

impl AnsiParser {
    /// Between calls no text is pending, and an escape sequence is being
    /// collected exactly when its buffer is non-empty (it then starts with ESC).
    pub open spec fn wf(&self) -> bool {
        &&& self@.buffer.len() == 0
        &&& (self@.in_escape <==> self@.escape_buffer.len() > 0)
        &&& self@.in_escape ==> self@.escape_buffer[0] == '\x1b'
    }

    pub fn new() -> (p: Self)
        ensures
            p.wf(),
            p@.buffer == Seq::<char>::empty(),
            !p@.in_escape,
            p@.escape_buffer == Seq::<char>::empty(),
    {
        AnsiParser { buffer: Vec::new(), in_escape: false, escape_buffer: Vec::new() }
    }

    /// Feeds `input` to the parser and returns what it completes.
    pub fn parse(&mut self, input: &str) -> (outputs: Vec<TerminalOutput>)
        requires
            old(self).wf(),
        ensures
            final(self).wf(),
            final(self)@ == parse_call(old(self)@, input@).0,
            outputs_view(outputs@) == parse_call(old(self)@, input@).1,
    {
        let chars = str_chars(input);
        let mut outputs: Vec<TerminalOutput> = Vec::new();
        let ghost st0 = self@;
        let mut i: usize = 0;
        while i < chars.len()
            invariant
                0 <= i <= chars.len(),
                chars@ == input@,
                self@ == parse_run(st0, chars@.take(i as int)).0,
                outputs_view(outputs@) == parse_run(st0, chars@.take(i as int)).1,
                self@.in_escape <==> self@.escape_buffer.len() > 0,
                self@.in_escape ==> self@.escape_buffer[0] == '\x1b',
            decreases chars.len() - i,
        {
            let ch = chars[i];
            proof {
                assert(chars@.take(i + 1).drop_last() =~= chars@.take(i as int));
                assert(chars@.take(i + 1).last() == ch);
            }
            let ghost before = self@;
            let ghost out_before = outputs_view(outputs@);
            if self.in_escape {
                self.escape_buffer.push(ch);
                if is_alphabetic(ch) || ch == '~' {
                    let out = self.process_escape_sequence();
                    outputs.push(out);
                    self.in_escape = false;
                    self.escape_buffer.clear();
                }
            } else if ch == '\x1b' {
                if self.buffer.len() > 0 {
                    let text = chars_to_string(self.buffer.as_slice());
                    outputs.push(TerminalOutput::Text(text));
                    self.buffer.clear();
                }
                self.in_escape = true;
                self.escape_buffer.push(ch);
            } else if ch == '\r' {
            } else if ch == '\n' {
                self.buffer.push(ch);
                let text = chars_to_string(self.buffer.as_slice());
                outputs.push(TerminalOutput::Text(text));
                self.buffer.clear();
            } else {
                self.buffer.push(ch);
            }
            proof {
                let (st1, o1) = parse_step(before, ch);
                assert(self@ =~= st1);
                assert(outputs_view(outputs@) =~= out_before + o1);
            }
            i = i + 1;
        }
        proof {
            assert(chars@.take(chars@.len() as int) =~= chars@);
        }
        let ghost out_before = outputs_view(outputs@);
        if self.buffer.len() > 0 {
            let text = chars_to_string(self.buffer.as_slice());
            outputs.push(TerminalOutput::Text(text));
            self.buffer.clear();
        }
        proof {
            assert(outputs_view(outputs@) =~= parse_call(st0, input@).1);
        }
        outputs
    }

    /// Output for the escape sequence collected so far (which ends the sequence).
    pub fn process_escape_sequence(&self) -> (out: TerminalOutput)
        ensures
            out@ == escape_output(self@.escape_buffer),
    {
        let n = self.escape_buffer.len();
        if n >= 2 && self.escape_buffer[0] == '\x1b' && self.escape_buffer[1] == '[' && n > 2 {
            let last = self.escape_buffer[n - 1];
            if last == 'm' {
                let codes = chars_to_string(&self.escape_buffer.as_slice()[2..n - 1]);
                return self.parse_sgr_codes(codes.as_str());
            }
            if last == 'H' || last == 'f' {
                return TerminalOutput::CursorPosition(0, 0);
            }
            if last == 'J' {
                return TerminalOutput::ClearScreen;
            }
            if last == 'K' {
                return TerminalOutput::ClearLine;
            }
        }
        TerminalOutput::Unknown(chars_to_string(self.escape_buffer.as_slice()))
    }

    /// Style selected by an SGR parameter list such as `1;31`.
    pub fn parse_sgr_codes(&self, codes: &str) -> (out: TerminalOutput)
        ensures
            out@ == OutputModel::Style(sgr_style(codes@)),
    {
        let chars = str_chars(codes);
        let mut style = TerminalStyle::default();
        let mut part: Vec<char> = Vec::new();
        let mut i: usize = 0;
        proof {
            assert(chars@.take(0) =~= Seq::<char>::empty());
        }
        while i < chars.len()
            invariant
                0 <= i <= chars.len(),
                chars@ == codes@,
                split_on(chars@.take(i as int), ';').len() >= 1,
                part@ == split_on(chars@.take(i as int), ';').last(),
                style == sgr_fold(split_on(chars@.take(i as int), ';').drop_last()),
            decreases chars.len() - i,
        {
            let ch = chars[i];
            proof {
                assert(chars@.take(i + 1).drop_last() =~= chars@.take(i as int));
                assert(chars@.take(i + 1).last() == ch);
                lemma_split_on_nonempty(chars@.take(i + 1), ';');
            }
            let ghost prev = split_on(chars@.take(i as int), ';');
            if ch == ';' {
                let code = parse_u8(chars_to_string(part.as_slice()).as_str());
                style = apply_sgr_code(style, code);
                part = Vec::new();
                proof {
                    let next = split_on(chars@.take(i + 1), ';');
                    assert(next =~= prev.push(Seq::<char>::empty()));
                    assert(next.drop_last() =~= prev);
                    assert(prev =~= prev.drop_last().push(prev.last()));
                }
            } else {
                part.push(ch);
                proof {
                    let next = split_on(chars@.take(i + 1), ';');
                    assert(next.drop_last() =~= prev.drop_last());
                }
            }
            i = i + 1;
        }
        let code = parse_u8(chars_to_string(part.as_slice()).as_str());
        style = apply_sgr_code(style, code);
        proof {
            assert(chars@.take(chars@.len() as int) =~= chars@);
            let parts = split_on(chars@, ';');
            assert(parts =~= parts.drop_last().push(parts.last()));
        }
        TerminalOutput::Style(style)
    }
}

/// Applies one parsed SGR parameter to `style`.
fn apply_sgr_code(style: TerminalStyle, code: Option<u8>) -> (r: TerminalStyle)
    ensures
        r == sgr_apply(style, code),
{
    let mut style = style;
    match code {
        Some(0) => style = TerminalStyle::default(),
        Some(1) => style.bold = true,
        Some(3) => style.italic = true,
        Some(4) => style.underline = true,
        Some(n) => {
            if 30 <= n && n <= 37 {
                style.fg_color = Some(AnsiColor::from_code(n - 30));
            } else if 40 <= n && n <= 47 {
                style.bg_color = Some(AnsiColor::from_code(n - 40));
            } else if 90 <= n && n <= 97 {
                style.fg_color = Some(AnsiColor::from_code(n - 90 + 8));
            } else if 100 <= n && n <= 107 {
                style.bg_color = Some(AnsiColor::from_code(n - 100 + 8));
            }
        },
        None => {},
    }
    style
}

} // verus!
