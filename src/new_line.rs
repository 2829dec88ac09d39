use vstd::prelude::*;

use crate::chars::{chars_of, lower_chars, string_of, ascii_lower_seq};
use crate::error::ConfigError;

verus! {

/// `s` ends with the two characters `\r\n`.
pub open spec fn ends_with_crlf(s: Seq<char>) -> bool {
    s.len() >= 2 && s[s.len() - 2] == '\r' && s[s.len() - 1] == '\n'
}

/// `s` ends with `\n` (bare or as part of `\r\n`).
pub open spec fn ends_with_lf(s: Seq<char>) -> bool {
    s.len() >= 1 && s.last() == '\n'
}

/// A trailing `\r\n` becomes `\n`; any other line is kept.
pub open spec fn lf_of(s: Seq<char>) -> Seq<char> {
    if ends_with_crlf(s) {
        s.subrange(0, s.len() - 2).push('\n')
    } else {
        s
    }
}

/// A trailing bare `\n` becomes `\r\n`; any other line is kept.
pub open spec fn crlf_of(s: Seq<char>) -> Seq<char> {
    if ends_with_lf(s) && !ends_with_crlf(s) {
        s.drop_last() + seq!['\r', '\n']
    } else {
        s
    }
}

/// Converting to LF a second time changes nothing, unless the line ended in
/// `\r\r\n`: the first conversion then leaves a new `\r\n` behind.
pub proof fn lemma_lf_idempotent(s: Seq<char>)
    requires
        !(s.len() >= 3 && s[s.len() - 3] == '\r' && ends_with_crlf(s)),
    ensures
        lf_of(lf_of(s)) == lf_of(s),
{
}

/// Converting to CRLF a second time changes nothing.
pub proof fn lemma_crlf_idempotent(s: Seq<char>)
    ensures
        crlf_of(crlf_of(s)) == crlf_of(s),
{
    if ends_with_lf(s) && !ends_with_crlf(s) {
        let t = crlf_of(s);
        assert(t[t.len() - 2] == '\r' && t[t.len() - 1] == '\n');
    }
}

/// A line that does not end in `\n` is left as it is by either target.
pub proof fn lemma_unterminated_unchanged(target: NewLine, s: Seq<char>)
    requires
        s.len() == 0 || s.last() != '\n',
    ensures
        target.convert(s) == s,
{
}

/// Rewrites a trailing `\r\n` of `line` to `\n`; all else is left alone.
pub fn to_lf(line: String) -> (r: String)
    ensures
        r@ == lf_of(line@),
{
    let mut cs = chars_of(line.as_str());
    let n = cs.len();
    if n >= 2 && cs[n - 2] == '\r' && cs[n - 1] == '\n' {
        cs.pop();
        cs.pop();
        cs.push('\n');
        assert(cs@ =~= lf_of(line@));
        string_of(cs.as_slice())
    } else {
        line
    }
}

/// Rewrites a trailing bare `\n` of `line` to `\r\n`; all else is left alone.
pub fn to_crlf(line: String) -> (r: String)
    ensures
        r@ == crlf_of(line@),
{
    let mut cs = chars_of(line.as_str());
    let n = cs.len();
    if n >= 1 && cs[n - 1] == '\n' && !(n >= 2 && cs[n - 2] == '\r') {
        cs.pop();
        cs.push('\r');
        cs.push('\n');
        assert(cs@ =~= crlf_of(line@));
        string_of(cs.as_slice())
    } else {
        line
    }
}

/// The line ending that lines are converted to.
#[derive(Debug, Clone, Copy, PartialEq, Eq, Structural)]
pub enum NewLine {
    /// `\n`
    Lf,
    /// `\r\n`
    Crlf,
}

/// What a newline token parses to: `lf` or `crlf`, in any ASCII case.
pub open spec fn parse_newline(s: Seq<char>) -> Result<NewLine, ConfigError> {
    let l = ascii_lower_seq(s);
    if l == seq!['l', 'f'] {
        Ok(NewLine::Lf)
    } else if l == seq!['c', 'r', 'l', 'f'] {
        Ok(NewLine::Crlf)
    } else {
        Err(ConfigError::ConfigurationParse)
    }
}

/// Two tokens that differ only in ASCII case parse to the same result.
pub proof fn lemma_parse_newline_ignores_case(a: Seq<char>, b: Seq<char>)
    requires
        ascii_lower_seq(a) == ascii_lower_seq(b),
    ensures
        parse_newline(a) == parse_newline(b),
{
}

impl NewLine {
    /// The line `s` with its ending converted to this target.
    pub open spec fn convert(self, s: Seq<char>) -> Seq<char> {
        match self {
            NewLine::Lf => lf_of(s),
            NewLine::Crlf => crlf_of(s),
        }
    }

    /// Reads a newline token, ignoring ASCII case.
    pub fn parse(s: &str) -> (r: Result<NewLine, ConfigError>)
        ensures
            r == parse_newline(s@),
    {
        let l = lower_chars(s);
        if l.len() == 2 && l[0] == 'l' && l[1] == 'f' {
            assert(l@ =~= seq!['l', 'f']);
            Ok(NewLine::Lf)
        } else if l.len() == 4 && l[0] == 'c' && l[1] == 'r' && l[2] == 'l' && l[3] == 'f' {
            assert(l@ =~= seq!['c', 'r', 'l', 'f']);
            Ok(NewLine::Crlf)
        } else {
            assert(l@ != seq!['l', 'f'] && l@ != seq!['c', 'r', 'l', 'f']) by {
                if l@ == seq!['l', 'f'] {
                    assert(l@.len() == 2 && l@[0] == 'l' && l@[1] == 'f');
                }
                if l@ == seq!['c', 'r', 'l', 'f'] {
                    assert(l@.len() == 4 && l@[0] == 'c' && l@[1] == 'r' && l@[2] == 'l' && l@[3]
                        == 'f');
                }
            }
            Err(ConfigError::ConfigurationParse)
        }
    }

    /// Converts the ending of `buf` to this target.
    pub fn make_transformation(&self, buf: String) -> (r: String)
        ensures
            r@ == self.convert(buf@),
    {
        match self {
            NewLine::Lf => to_lf(buf),
            NewLine::Crlf => to_crlf(buf),
        }
    }
}

impl core::str::FromStr for NewLine {
    type Err = ConfigError;

    fn from_str(s: &str) -> (r: Result<NewLine, ConfigError>)
        ensures
            r == parse_newline(s@),
    {
        NewLine::parse(s)
    }
}

} // verus!
