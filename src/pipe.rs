//! Pipes of the main file: `input -> output`.
use vstd::prelude::*;

verus! {

/// The characters with the Unicode `White_Space` property, which is what
/// `char::is_whitespace` tests.
pub open spec fn is_white_space(c: char) -> bool {
    ('\u{9}' <= c && c <= '\u{d}') || c == ' ' || c == '\u{85}' || c == '\u{a0}' || c
        == '\u{1680}' || ('\u{2000}' <= c && c <= '\u{200a}') || c == '\u{2028}' || c
        == '\u{2029}' || c == '\u{202f}' || c == '\u{205f}' || c == '\u{3000}'
}

/// `s` without its leading white space.
pub open spec fn trim_start(s: Seq<char>) -> Seq<char>
    decreases s.len(),
{
    if s.len() > 0 && is_white_space(s[0]) {
        trim_start(s.drop_first())
    } else {
        s
    }
}

/// `s` without its trailing white space.
pub open spec fn trim_end(s: Seq<char>) -> Seq<char>
    decreases s.len(),
{
    if s.len() > 0 && is_white_space(s.last()) {
        trim_end(s.drop_last())
    } else {
        s
    }
}

/// `s` without leading and trailing white space.
pub open spec fn trimmed(s: Seq<char>) -> Seq<char> {
    trim_end(trim_start(s))
}

/// Relies on `str::trim`: the slice of `s` without leading and trailing
/// characters for which `char::is_whitespace` holds.
#[verifier::external_body]
fn trim_str<'a>(s: &'a str) -> (r: &'a str)
    ensures
        r@ == trimmed(s@),
{
    s.trim()
}

/// An arrow `->` starts at position `i` of `s`.
pub open spec fn arrow_at(s: Seq<char>, i: int) -> bool {
    0 <= i && i + 1 < s.len() && s[i] == '-' && s[i + 1] == '>'
}

/// The first arrow of `s` at or after position `k`.
pub open spec fn first_arrow_from(s: Seq<char>, k: int) -> Option<int>
    decreases s.len() - k,
{
    if k < 0 || k + 1 >= s.len() {
        None
    } else if arrow_at(s, k) {
        Some(k)
    } else {
        first_arrow_from(s, k + 1)
    }
}

/// The two sides of the only arrow in `s`, untrimmed; `None` unless `s`
/// holds exactly one arrow.
pub open spec fn pipe_sides(s: Seq<char>) -> Option<(Seq<char>, Seq<char>)> {
    match first_arrow_from(s, 0) {
        Some(p) => if first_arrow_from(s, p + 2) is None {
            Some((s.subrange(0, p), s.subrange(p + 2, s.len() as int)))
        } else {
            None
        },
        None => None,
    }
}

/// A pipe from the binding `input` to the binding `output`.
#[derive(Clone, Copy, Debug)]
pub struct Pipe<'main> {
    input: &'main str,
    output: &'main str,
}

/// The text is not of the form `input -> output`.
#[derive(Clone, Debug)]
pub struct StringToPipeParseError(pub String);

/// The first arrow of `s` at or after position `from`.
fn find_arrow(s: &str, n: usize, from: usize) -> (r: Option<usize>)
    requires
        n == s@.len(),
    ensures
        match r {
            Some(p) => first_arrow_from(s@, from as int) == Some(p as int) && p + 1 < n,
            None => first_arrow_from(s@, from as int) is None,
        },
{
    let mut k = from;
    while k < n && n - k >= 2
        invariant
            n == s@.len(),
            from <= k,
            first_arrow_from(s@, from as int) == first_arrow_from(s@, k as int),
        decreases n - k,
    {
        if s.get_char(k) == '-' && s.get_char(k + 1) == '>' {
            return Some(k);
        }
        k += 1;
    }
    None
}

impl<'main> Pipe<'main> {
    pub closed spec fn spec_input(&self) -> Seq<char> {
        self.input@
    }

    pub closed spec fn spec_output(&self) -> Seq<char> {
        self.output@
    }

    pub fn input(&self) -> (r: &'main str)
        ensures
            r@ == self.spec_input(),
    {
        self.input
    }

    pub fn output(&self) -> (r: &'main str)
        ensures
            r@ == self.spec_output(),
    {
        self.output
    }

    /// Reads `input -> output`: exactly one arrow, each side trimmed.
    pub fn parse(value: &'main str) -> (r: Result<Pipe<'main>, StringToPipeParseError>)
        ensures
            match pipe_sides(value@) {
                Some((a, b)) => r matches Ok(p) && p.spec_input() == trimmed(a) && p.spec_output()
                    == trimmed(b),
                None => r matches Err(e) && e.0@ == value@,
            },
    {
        let n = value.unicode_len();
        match find_arrow(value, n, 0) {
            Some(p) => {
                match find_arrow(value, n, p + 2) {
                    None => {
                        let input = trim_str(value.substring_char(0, p));
                        let output = trim_str(value.substring_char(p + 2, n));
                        Ok(Pipe { input, output })
                    },
                    Some(_) => Err(StringToPipeParseError(value.to_owned())),
                }
            },
            None => Err(StringToPipeParseError(value.to_owned())),
        }
    }
}

} // verus!
