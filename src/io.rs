//! Output buffering and the parsing of one line of input into a cell value.
use vstd::prelude::*;

use crate::errors::MyError;

verus! {

/// When written characters reach the outside: each at once, or all at the end.
#[derive(Clone, Copy, Debug, PartialEq, Eq, Structural)]
pub enum OutputMode {
    Individually,
    Bulk,
}

/// `n` is a Unicode scalar value: a code point that is no surrogate.
pub open spec fn is_scalar(n: u32) -> bool {
    n <= 0xD7FF || (0xE000 <= n && n <= 0x10FFFF)
}

/// Relies on `char::from_u32`: `Some` exactly for the Unicode scalar values,
/// holding the character of that code point.
pub assume_specification[ char::from_u32 ](i: u32) -> (r: Option<char>)
    ensures
        r is Some <==> is_scalar(i),
        r is Some ==> r->0 as u32 == i,
;

/// Relies on `String::from_iter` over characters: the string of those characters.
#[verifier::external_body]
fn string_of(chars: &Vec<char>) -> (r: String)
    ensures
        r@ == chars@,
{
    chars.iter().collect()
}

/// What `str::trim` leaves of a line.
pub uninterp spec fn trim_of(s: Seq<char>) -> Seq<char>;

/// Relies on `str::trim`: the line without its leading and trailing
/// whitespace, a part of it and so no longer.
#[verifier::external_body]
pub(crate) fn trim(s: &str) -> (r: &str)
    ensures
        r@ == trim_of(s@),
        r@.len() <= s@.len(),
{
    s.trim()
}

pub open spec fn is_digit(c: char) -> bool {
    '0' <= c && c <= '9'
}

/// The number that decimal digits `d` spell.
pub open spec fn digits_value(d: Seq<char>) -> int
    decreases d.len(),
{
    if d.len() == 0 {
        0
    } else {
        digits_value(d.drop_last()) * 10 + (d.last() as int - '0' as int)
    }
}

/// `d` without one leading `+`.
pub open spec fn unsigned_part(d: Seq<char>) -> Seq<char> {
    if d.len() > 0 && d[0] == '+' {
        d.drop_first()
    } else {
        d
    }
}

/// `d` is an optional `+` and one or more decimal digits whose value fits in a `u32`.
pub open spec fn is_u32_literal(d: Seq<char>) -> bool {
    let u = unsigned_part(d);
    &&& u.len() > 0
    &&& forall|i: int| 0 <= i < u.len() ==> is_digit(#[trigger] u[i])
    &&& digits_value(u) <= u32::MAX
}

/// Relies on `str::parse::<u32>`: an optional `+` and decimal digits whose
/// value fits give that value; anything else, the empty text included, fails.
#[verifier::external_body]
fn parse_u32(s: &str) -> (r: Result<u32, std::num::ParseIntError>)
    ensures
        r is Ok <==> is_u32_literal(s@),
        r is Ok ==> r->Ok_0 == digits_value(unsigned_part(s@)),
{
    s.parse::<u32>()
}

/// The text ends with the width suffix `u32`.
pub open spec fn ends_with_width(t: Seq<char>) -> bool {
    t.len() >= 3 && t[t.len() - 3] == 'u' && t[t.len() - 2] == '3' && t[t.len() - 1] == '2'
}

pub open spec fn ends_with_crlf(s: Seq<char>) -> bool {
    s.len() >= 2 && s[s.len() - 2] == '\r' && s[s.len() - 1] == '\n'
}

pub open spec fn ends_with_lf(s: Seq<char>) -> bool {
    s.len() >= 1 && s[s.len() - 1] == '\n'
}

/// The value of a line that does not end with the width suffix once trimmed:
/// its one character, a newline for a bare line ending, zero and the end of
/// input for a line with no line ending.
pub open spec fn char_line_value(s: Seq<char>) -> Result<(u32, bool), MyError> {
    if ends_with_crlf(s) {
        if s.len() == 3 {
            Ok((s[0] as u32, false))
        } else if s.len() == 2 {
            Ok(('\n' as u32, false))
        } else {
            Err(MyError::InputTooLong)
        }
    } else if ends_with_lf(s) {
        if s.len() == 2 {
            Ok((s[0] as u32, false))
        } else if s.len() == 1 {
            Ok(('\n' as u32, false))
        } else {
            Err(MyError::InputTooLong)
        }
    } else {
        Ok((0, true))
    }
}

/// What an input line `s`, whose trimmed text is `t`, gives: a value and
/// whether the input has ended; `None` where a malformed decimal literal
/// fails to parse.
pub open spec fn line_value(s: Seq<char>, t: Seq<char>) -> Option<Result<(u32, bool), MyError>> {
    if ends_with_width(t) {
        let d = t.take(t.len() - 3);
        if is_u32_literal(d) {
            Some(Ok((digits_value(unsigned_part(d)) as u32, false)))
        } else {
            None
        }
    } else {
        Some(char_line_value(s))
    }
}

/// Whether `r` is what line `s` with trimmed text `t` gives.
pub open spec fn parsed_as(r: Result<(u32, bool), MyError>, s: Seq<char>, t: Seq<char>) -> bool {
    match line_value(s, t) {
        Some(v) => r == v,
        None => r matches Err(MyError::Parse(_)),
    }
}

/// Parses an input line `s` whose trimmed text is `trimmed`.
pub fn parse_line(s: &str, trimmed: &str) -> (r: Result<(u32, bool), MyError>)
    ensures
        parsed_as(r, s@, trimmed@),
{
    let tl = trimmed.unicode_len();
    if tl >= 3 && trimmed.get_char(tl - 3) == 'u' && trimmed.get_char(tl - 2) == '3'
        && trimmed.get_char(tl - 1) == '2' {
        let digits = trimmed.substring_char(0, tl - 3);
        proof {
            assert(digits@ =~= trimmed@.take(tl - 3));
        }
        return match parse_u32(digits) {
            Ok(value) => Ok((value, false)),
            Err(e) => Err(MyError::Parse(e)),
        };
    }
    let n = s.unicode_len();
    if n >= 2 && s.get_char(n - 2) == '\r' && s.get_char(n - 1) == '\n' {
        if n == 3 {
            Ok((s.get_char(0) as u32, false))
        } else if n == 2 {
            Ok(('\n' as u32, false))
        } else {
            Err(MyError::InputTooLong)
        }
    } else if n >= 1 && s.get_char(n - 1) == '\n' {
        if n == 2 {
            Ok((s.get_char(0) as u32, false))
        } else if n == 1 {
            Ok(('\n' as u32, false))
        } else {
            Err(MyError::InputTooLong)
        }
    } else {
        Ok((0, true))
    }
}

/// Parses one line of input into a value and whether the input has ended:
/// a trimmed line ending in `u32` is a decimal literal, a line of one
/// character gives its code point, a bare line ending a newline, and a line
/// with no line ending zero and the end of input.
pub fn input_to_u32(s: &str) -> (r: Result<(u32, bool), MyError>)
    ensures
        parsed_as(r, s@, trim_of(s@)),
{
    parse_line(s, trim(s))
}

/// The written values, kept as code points, with the output mode.
pub struct IO {
    output_mode: OutputMode,
    output_buffer: Vec<u32>,
}

impl View for IO {
    type V = Seq<u32>;

    closed spec fn view(&self) -> Seq<u32> {
        self.output_buffer@
    }
}

impl IO {
    /// Every buffered value is a Unicode scalar value.
    pub open spec fn wf(&self) -> bool {
        forall|i: int| 0 <= i < self@.len() ==> is_scalar(#[trigger] self@[i])
    }

    pub closed spec fn mode(&self) -> OutputMode {
        self.output_mode
    }

    /// An empty buffer.
    pub fn new(output_mode: OutputMode) -> (r: IO)
        ensures
            r@ == Seq::<u32>::empty(),
            r.mode() == output_mode,
            r.wf(),
    {
        IO { output_mode, output_buffer: Vec::new() }
    }

    pub fn output_mode(&self) -> (r: OutputMode)
        ensures
            r == self.mode(),
    {
        self.output_mode
    }

    pub fn buffer(&self) -> (r: &Vec<u32>)
        ensures
            r@ == self@,
    {
        &self.output_buffer
    }

    /// The buffered characters as text.
    pub fn buffer_to_string(&self) -> (r: String)
        requires
            self.wf(),
        ensures
            r@.len() == self@.len(),
            forall|i: int| 0 <= i < self@.len() ==> r@[i] as u32 == #[trigger] self@[i],
    {
        let mut chars: Vec<char> = Vec::new();
        let mut i: usize = 0;
        while i < self.output_buffer.len()
            invariant
                self.wf(),
                i <= self@.len(),
                chars@.len() == i,
                forall|k: int| 0 <= k < i ==> chars@[k] as u32 == #[trigger] self@[k],
            decreases self@.len() - i,
        {
            let n = self.output_buffer[i];
            assert(is_scalar(self@[i as int]));
            match char::from_u32(n) {
                Some(c) => chars.push(c),
                None => {},
            }
            i = i + 1;
        }
        string_of(&chars)
    }

    /// Buffers the value `n` when it is a Unicode scalar value and returns its
    /// character; otherwise fails, leaving the buffer as it was.
    pub fn output(&mut self, n: u32) -> (r: Result<char, MyError>)
        requires
            old(self).wf(),
        ensures
            final(self).wf(),
            final(self).mode() == old(self).mode(),
            is_scalar(n) ==> (r matches Ok(c) && c as u32 == n) && final(self)@ == old(self)@.push(n),
            !is_scalar(n) ==> r == Err::<char, MyError>(MyError::InvalidScalar(n)) && final(self)@ == old(self)@,
    {
        match char::from_u32(n) {
            Some(c) => {
                self.output_buffer.push(n);
                assert forall|i: int| 0 <= i < self@.len() implies is_scalar(#[trigger] self@[i]) by {
                    if i < old(self)@.len() {
                        assert(self@[i] == old(self)@[i]);
                    }
                }
                Ok(c)
            },
            None => Err(MyError::InvalidScalar(n)),
        }
    }

    /// Empties the buffer.
    pub fn clear(&mut self)
        ensures
            final(self)@ == Seq::<u32>::empty(),
            final(self).mode() == old(self).mode(),
            final(self).wf(),
    {
        self.output_buffer = Vec::new();
    }
}

} // verus!
