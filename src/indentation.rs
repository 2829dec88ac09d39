use vstd::prelude::*;

use crate::chars::{ascii_lower_seq, chars_of, lower_chars, string_of};
use crate::decimal::{parse_usize, usize_of};
use crate::error::ConfigError;

verus! {

/// Tabs and spaces make up indentation; every other character is content.
pub open spec fn is_indent_char(c: char) -> bool {
    c == '\t' || c == ' '
}

/// Index of the first character at or after `i` that is neither a tab nor a space
/// (`s.len()` when there is none).
pub open spec fn content_start_from(s: Seq<char>, i: int) -> int
    decreases s.len() - i,
{
    if 0 <= i < s.len() && is_indent_char(s[i]) {
        content_start_from(s, i + 1)
    } else {
        i
    }
}

/// Length of the leading run of tabs and spaces of `s`.
pub open spec fn content_start(s: Seq<char>) -> int {
    content_start_from(s, 0)
}

/// How many times `c` occurs in `s`.
pub open spec fn count_of(s: Seq<char>, c: char) -> nat
    decreases s.len(),
{
    if s.len() == 0 {
        0
    } else {
        count_of(s.drop_last(), c) + if s.last() == c {
            1nat
        } else {
            0nat
        }
    }
}

/// Tabs in the leading run of `s`.
pub open spec fn tab_count(s: Seq<char>) -> nat {
    count_of(s.take(content_start(s)), '\t')
}

/// Spaces in the leading run of `s`.
pub open spec fn space_count(s: Seq<char>) -> nat {
    count_of(s.take(content_start(s)), ' ')
}

/// `n` copies of `c`.
pub open spec fn repeat(c: char, n: nat) -> Seq<char> {
    Seq::new(n, |_i: int| c)
}

/// The leading run ends where the first character that is neither a tab nor
/// a space stands.
proof fn lemma_content_start_from(s: Seq<char>, i: int)
    requires
        0 <= i <= s.len(),
    ensures
        i <= content_start_from(s, i) <= s.len(),
        forall|j: int| i <= j < content_start_from(s, i) ==> is_indent_char(#[trigger] s[j]),
        content_start_from(s, i) < s.len() ==> !is_indent_char(s[content_start_from(s, i)]),
    decreases s.len() - i,
{
    if i < s.len() && is_indent_char(s[i]) {
        lemma_content_start_from(s, i + 1);
    }
}

/// Where a run of tabs and spaces is followed by content (or nothing), the
/// leading run is exactly that run.
proof fn lemma_content_start_of_split(p: Seq<char>, rest: Seq<char>, i: int)
    requires
        0 <= i <= p.len(),
        forall|j: int| 0 <= j < p.len() ==> is_indent_char(#[trigger] p[j]),
        rest.len() == 0 || !is_indent_char(rest[0]),
    ensures
        content_start_from(p + rest, i) == p.len(),
    decreases p.len() - i,
{
    if i < p.len() {
        lemma_content_start_of_split(p, rest, i + 1);
    }
}

/// A run of one character counts that character only.
proof fn lemma_count_repeat(c: char, n: nat, d: char)
    ensures
        count_of(repeat(c, n), d) == if c == d {
            n
        } else {
            0
        },
    decreases n,
{
    if n > 0 {
        assert(repeat(c, n).drop_last() =~= repeat(c, (n - 1) as nat));
        lemma_count_repeat(c, (n - 1) as nat, d);
    }
}

/// Line `run + rest`, where `run` is `n` copies of an indentation character and
/// `rest` starts with content, has `run` as its leading run.
proof fn lemma_run_then_content(c: char, n: nat, rest: Seq<char>)
    requires
        is_indent_char(c),
        rest.len() == 0 || !is_indent_char(rest[0]),
    ensures
        content_start(repeat(c, n) + rest) == n,
        (repeat(c, n) + rest).take(n as int) == repeat(c, n),
        (repeat(c, n) + rest).subrange(n as int, (repeat(c, n) + rest).len() as int) == rest,
        tab_count(repeat(c, n) + rest) == if c == '\t' {
            n
        } else {
            0
        },
        space_count(repeat(c, n) + rest) == if c == ' ' {
            n
        } else {
            0
        },
{
    let s = repeat(c, n) + rest;
    lemma_content_start_of_split(repeat(c, n), rest, 0);
    assert(s.take(n as int) =~= repeat(c, n));
    assert(s.subrange(n as int, s.len() as int) =~= rest);
    lemma_count_repeat(c, n, '\t');
    lemma_count_repeat(c, n, ' ');
}

/// Converting the indentation a second time with the same target changes
/// nothing.
pub proof fn lemma_indentation_idempotent(target: Indentation, s: Seq<char>)
    requires
        target.wf(),
    ensures
        target.convert(target.convert(s)) == target.convert(s),
{
    let k = content_start(s);
    lemma_content_start_from(s, 0);
    if k != 0 {
        let rest = s.subrange(k, s.len() as int);
        let n = target.new_indent_len(s);
        lemma_run_then_content(target.indent_char(), n, rest);
        if n > 0 {
            match target {
                Indentation::Tabs(w) => {
                    assert(0nat / (w as nat) == 0nat);
                },
                Indentation::Spaces(w) => {
                    assert(0nat * (w as nat) == 0nat);
                },
            }
        } else {
            assert(repeat(target.indent_char(), n) + rest =~= rest);
        }
    }
}

/// A line that does not start with a tab or a space is left as it is by every
/// target.
pub proof fn lemma_unindented_unchanged(target: Indentation, s: Seq<char>)
    requires
        s.len() == 0 || !is_indent_char(s[0]),
    ensures
        target.convert(s) == s,
{
}

/// A leading run of `k` spaces becomes `k / width` tabs under `Tabs(width)`:
/// spaces short of a full group are dropped, and the content is kept.
pub proof fn lemma_spaces_to_tabs(width: usize, k: nat, rest: Seq<char>)
    requires
        width > 0,
        rest.len() == 0 || !is_indent_char(rest[0]),
    ensures
        Indentation::Tabs(width).convert(repeat(' ', k) + rest) == repeat('\t', k / (width as nat))
            + rest,
{
    lemma_run_then_content(' ', k, rest);
    if k == 0 {
        assert(repeat(' ', k) + rest =~= rest);
        assert(repeat('\t', k / (width as nat)) + rest =~= rest);
    }
}

/// Index of the first `c` in `s` at or after `i`, if there is one.
pub open spec fn find_from(s: Seq<char>, c: char, i: int) -> Option<int>
    decreases s.len() - i,
{
    if 0 <= i < s.len() {
        if s[i] == c {
            Some(i)
        } else {
            find_from(s, c, i + 1)
        }
    } else {
        None
    }
}

/// What an indentation token parses to. The token is lowered to ASCII lower
/// case and split at its first `=`: the left part names the mode (`tabs` or
/// `spaces`), the right part is the width as an unsigned decimal numeral. A
/// token of another shape is a parse error; a width of zero is refused as an
/// invalid configuration.
pub open spec fn parse_indentation(s: Seq<char>) -> Result<Indentation, ConfigError> {
    let l = ascii_lower_seq(s);
    match find_from(l, '=', 0) {
        None => Err(ConfigError::ConfigurationParse),
        Some(i) => {
            let mode = l.take(i);
            match usize_of(l.subrange(i + 1, l.len() as int)) {
                None => Err(ConfigError::ConfigurationParse),
                Some(w) => {
                    if mode == seq!['t', 'a', 'b', 's'] {
                        if w == 0 {
                            Err(ConfigError::InvalidConfiguration)
                        } else {
                            Ok(Indentation::Tabs(w))
                        }
                    } else if mode == seq!['s', 'p', 'a', 'c', 'e', 's'] {
                        if w == 0 {
                            Err(ConfigError::InvalidConfiguration)
                        } else {
                            Ok(Indentation::Spaces(w))
                        }
                    } else {
                        Err(ConfigError::ConfigurationParse)
                    }
                },
            }
        },
    }
}

/// Two tokens that differ only in ASCII case parse to the same result.
pub proof fn lemma_parse_indentation_ignores_case(a: Seq<char>, b: Seq<char>)
    requires
        ascii_lower_seq(a) == ascii_lower_seq(b),
    ensures
        parse_indentation(a) == parse_indentation(b),
{
}

/// The style that leading indentation is rewritten to.
#[derive(Debug, Clone, Copy, PartialEq, Eq, Structural)]
pub enum Indentation {
    /// Indent with tabs, where the given number of spaces make one tab.
    Tabs(usize),
    /// Indent with spaces, where each tab becomes the given number of spaces.
    Spaces(usize),
}

impl Indentation {
    /// How many spaces equal one tab.
    pub open spec fn width(self) -> usize {
        match self {
            Indentation::Tabs(w) => w,
            Indentation::Spaces(w) => w,
        }
    }

    /// A usable target has a positive width.
    pub open spec fn wf(self) -> bool {
        self.width() > 0
    }

    /// The character that the new indentation is made of.
    pub open spec fn indent_char(self) -> char {
        match self {
            Indentation::Tabs(_) => '\t',
            Indentation::Spaces(_) => ' ',
        }
    }

    /// Length of the new indentation for line `s`: tabs plus whole groups of
    /// `width` spaces for `Tabs`, spaces plus `width` per tab for `Spaces`.
    pub open spec fn new_indent_len(self, s: Seq<char>) -> nat {
        match self {
            Indentation::Tabs(w) => tab_count(s) + space_count(s) / (w as nat),
            Indentation::Spaces(w) => space_count(s) + tab_count(s) * (w as nat),
        }
    }

    /// Line `s` with its leading run of tabs and spaces replaced by one
    /// homogeneous run of the target character; a line without a leading run
    /// is kept as it is.
    pub open spec fn convert(self, s: Seq<char>) -> Seq<char> {
        let k = content_start(s);
        if k == 0 {
            s
        } else {
            repeat(self.indent_char(), self.new_indent_len(s)) + s.subrange(k, s.len() as int)
        }
    }

    /// Reads an indentation token such as `tabs=4` or `SPACES=2`.
    pub fn parse(s: &str) -> (r: Result<Indentation, ConfigError>)
        ensures
            r == parse_indentation(s@),
            r is Ok ==> r->Ok_0.wf(),
    {
        let l = lower_chars(s);
        let mut i: usize = 0;
        while i < l.len() && l[i] != '='
            invariant
                i <= l.len(),
                find_from(l@, '=', i as int) == find_from(l@, '=', 0),
            decreases l.len() - i,
        {
            i = i + 1;
        }
        if i == l.len() {
            return Err(ConfigError::ConfigurationParse);
        }
        assert(find_from(l@, '=', 0) == Some(i as int));
        let w = match parse_usize(&l, i + 1) {
            None => {
                return Err(ConfigError::ConfigurationParse);
            },
            Some(w) => w,
        };
        let ghost mode = l@.take(i as int);
        let tabs = i == 4 && l[0] == 't' && l[1] == 'a' && l[2] == 'b' && l[3] == 's';
        let spaces = i == 6 && l[0] == 's' && l[1] == 'p' && l[2] == 'a' && l[3] == 'c' && l[4]
            == 'e' && l[5] == 's';
        assert(tabs == (mode == seq!['t', 'a', 'b', 's'])) by {
            if tabs {
                assert(mode =~= seq!['t', 'a', 'b', 's']);
            }
            if mode == seq!['t', 'a', 'b', 's'] {
                assert(mode.len() == 4 && mode[0] == 't' && mode[1] == 'a' && mode[2] == 'b'
                    && mode[3] == 's');
            }
        }
        assert(spaces == (mode == seq!['s', 'p', 'a', 'c', 'e', 's'])) by {
            if spaces {
                assert(mode =~= seq!['s', 'p', 'a', 'c', 'e', 's']);
            }
            if mode == seq!['s', 'p', 'a', 'c', 'e', 's'] {
                assert(mode.len() == 6 && mode[0] == 's' && mode[1] == 'p' && mode[2] == 'a'
                    && mode[3] == 'c' && mode[4] == 'e' && mode[5] == 's');
            }
        }
        if tabs {
            if w == 0 {
                Err(ConfigError::InvalidConfiguration)
            } else {
                Ok(Indentation::Tabs(w))
            }
        } else if spaces {
            if w == 0 {
                Err(ConfigError::InvalidConfiguration)
            } else {
                Ok(Indentation::Spaces(w))
            }
        } else {
            Err(ConfigError::ConfigurationParse)
        }
    }

    /// Rewrites the leading indentation of `buf` to this style; everything
    /// from the first character that is neither a tab nor a space on is kept.
    pub fn make_transformation(&self, buf: String) -> (r: String)
        requires
            self.wf(),
        ensures
            r@ == self.convert(buf@),
    {
        let cs = chars_of(buf.as_str());
        let ghost s = cs@;
        let mut tabs: usize = 0;
        let mut spaces: usize = 0;
        let mut index: usize = 0;
        while index < cs.len() && (cs[index] == '\t' || cs[index] == ' ')
            invariant
                s == cs@,
                s == buf@,
                index <= cs.len(),
                content_start_from(s, index as int) == content_start(s),
                tabs == count_of(s.take(index as int), '\t'),
                spaces == count_of(s.take(index as int), ' '),
                tabs + spaces == index,
            decreases cs.len() - index,
        {
            assert(s.take(index + 1).drop_last() =~= s.take(index as int));
            if cs[index] == '\t' {
                tabs = tabs + 1;
            } else {
                spaces = spaces + 1;
            }
            index = index + 1;
        }
        assert(content_start(s) == index);
        if index == 0 {
            return buf;
        }
        let mut out: Vec<char> = Vec::new();
        match self {
            Indentation::Tabs(w) => {
                push_repeat(&mut out, '\t', tabs + spaces / *w);
                assert(out@ =~= repeat('\t', (tabs + spaces / *w) as nat));
            },
            Indentation::Spaces(width) => {
                let w: usize = *width;
                push_repeat(&mut out, ' ', spaces);
                assert(out@ =~= repeat(' ', (spaces + 0 * w) as nat));
                for t in 0..tabs
                    invariant
                        out@ == repeat(' ', (spaces + t * w) as nat),
                {
                    push_repeat(&mut out, ' ', w);
                    assert(repeat(' ', (spaces + t * w) as nat) + repeat(' ', w as nat) =~= repeat(
                        ' ',
                        (spaces + (t + 1) * w) as nat,
                    )) by {
                        assert((t + 1) * w == t * w + w) by (nonlinear_arith);
                    }
                }
            },
        }
        let ghost head = out@;
        assert(head == repeat(self.indent_char(), self.new_indent_len(s)));
        for i in index..cs.len()
            invariant
                s == cs@,
                index <= i <= cs.len(),
                out@ == head + s.subrange(index as int, i as int),
        {
            assert(s.subrange(index as int, i + 1) =~= s.subrange(index as int, i as int).push(
                s[i as int],
            ));
            out.push(cs[i]);
        }
        assert(s.subrange(index as int, cs.len() as int) =~= s.subrange(
            index as int,
            s.len() as int,
        ));
        string_of(out.as_slice())
    }
}

impl core::str::FromStr for Indentation {
    type Err = ConfigError;

    fn from_str(s: &str) -> (r: Result<Indentation, ConfigError>)
        ensures
            r == parse_indentation(s@),
            r is Ok ==> r->Ok_0.wf(),
    {
        Indentation::parse(s)
    }
}

/// Appends `n` copies of `c` to `out`.
fn push_repeat(out: &mut Vec<char>, c: char, n: usize)
    ensures
        final(out)@ == old(out)@ + repeat(c, n as nat),
{
    for i in 0..n
        invariant
            out@ == old(out)@ + repeat(c, i as nat),
    {
        assert(repeat(c, (i + 1) as nat) =~= repeat(c, i as nat).push(c));
        out.push(c);
    }
}

} // verus!
