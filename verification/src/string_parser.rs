//! A random-access character cursor over an immutable string: the input
//! layer under the block framer and the fixed-width header decoders.
//!
//! Lines deserve care here: the wire format uses CRLF terminators inside
//! block 4 while arbitrary lone CR characters may occur in payloads, so a
//! lone CR is part of the line text and only LF (alone or after CR) ends a
//! line.

use vstd::prelude::*;
use vstd::string::StringExecFns;

use crate::strutil::chars_of;
use crate::strutil::chars_to_string;
use crate::strutil::chars_to_vec;
use crate::swift_mt_parser::ParsingError;

verus! {

/// First index at or after `i` where `s` holds `c`, if any.
pub open spec fn find_from(s: Seq<char>, i: int, c: char) -> Option<int>
    decreases s.len() - i,
{
    if i < 0 || i >= s.len() {
        None
    } else if s[i] == c {
        Some(i)
    } else {
        find_from(s, i + 1, c)
    }
}

pub proof fn lemma_find_from_some(s: Seq<char>, i: int, c: char, j: int)
    requires
        0 <= i <= j < s.len(),
        s[j] == c,
        forall|k: int| i <= k < j ==> s[k] != c,
    ensures
        find_from(s, i, c) == Some(j),
    decreases j - i,
{
    if i < j {
        lemma_find_from_some(s, i + 1, c, j);
    }
}

pub proof fn lemma_find_from_none(s: Seq<char>, i: int, c: char)
    requires
        0 <= i <= s.len(),
        forall|k: int| i <= k < s.len() ==> s[k] != c,
    ensures
        find_from(s, i, c) is None,
    decreases s.len() - i,
{
    if i < s.len() {
        lemma_find_from_none(s, i + 1, c);
    }
}

pub proof fn lemma_find_from_spec(s: Seq<char>, i: int, c: char)
    requires
        0 <= i <= s.len(),
    ensures
        match find_from(s, i, c) {
            Some(j) => i <= j < s.len() && s[j] == c && forall|k: int| i <= k < j ==> s[k] != c,
            None => forall|k: int| i <= k < s.len() ==> s[k] != c,
        },
    decreases s.len() - i,
{
    if i < s.len() && s[i] != c {
        lemma_find_from_spec(s, i + 1, c);
    }
}

/// What a greedy read up to (and excluding) the first `c` returns.
pub open spec fn until_text(s: Seq<char>, i: int, c: char) -> Seq<char> {
    match find_from(s, i, c) {
        Some(j) => s.subrange(i, j),
        None => s.subrange(i, s.len() as int),
    }
}

/// Position after a greedy read for `c`: just past the found `c`, or the
/// end of the stream when `c` never occurs.
pub open spec fn until_next(s: Seq<char>, i: int, c: char) -> int {
    match find_from(s, i, c) {
        Some(j) => j + 1,
        None => s.len() as int,
    }
}

/// The text of the line starting at `i`. A line ends at the first LF; a CR
/// directly before that LF belongs to the terminator and is dropped, while
/// any other CR is ordinary line text. Without an LF the line is whatever
/// remains.
pub open spec fn line_text(s: Seq<char>, i: int) -> Seq<char> {
    match find_from(s, i, '\n') {
        Some(j) => if j > i && s[j - 1] == '\r' {
            s.subrange(i, j - 1)
        } else {
            s.subrange(i, j)
        },
        None => s.subrange(i, s.len() as int),
    }
}

/// Position of the character following the line that starts at `i`.
pub open spec fn line_next(s: Seq<char>, i: int) -> int {
    match find_from(s, i, '\n') {
        Some(j) => j + 1,
        None => s.len() as int,
    }
}

pub proof fn lemma_line_next_bounds(s: Seq<char>, i: int)
    requires
        0 <= i <= s.len(),
    ensures
        i <= line_next(s, i) <= s.len(),
        i < s.len() ==> i < line_next(s, i),
    decreases s.len() - i,
{
    lemma_find_from_spec(s, i, '\n');
}

/// `s` with every CRLF pair replaced by a lone LF; all other characters,
/// lone CRs included, stay as they are.
pub open spec fn normalize_crlf(s: Seq<char>) -> Seq<char>
    decreases s.len(),
{
    if s.len() == 0 {
        Seq::empty()
    } else if s.len() >= 2 && s[0] == '\r' && s[1] == '\n' {
        seq!['\n'] + normalize_crlf(s.skip(2))
    } else {
        seq![s[0]] + normalize_crlf(s.skip(1))
    }
}

/// The lines `next_line` yields from position `i` until the stream is
/// exhausted.
pub open spec fn lines_of(s: Seq<char>, i: int) -> Seq<Seq<char>>
    decreases s.len() - i,
{
    if i < 0 || i >= s.len() {
        Seq::empty()
    } else {
        let j = line_next(s, i);
        if i < j && j <= s.len() {
            seq![line_text(s, i)] + lines_of(s, j)
        } else {
            Seq::empty()
        }
    }
}

/// The lines joined with a single LF between them.
pub open spec fn join_lines(ls: Seq<Seq<char>>) -> Seq<char>
    decreases ls.len(),
{
    if ls.len() == 0 {
        Seq::empty()
    } else if ls.len() == 1 {
        ls[0]
    } else {
        ls[0] + seq!['\n'] + join_lines(ls.drop_first())
    }
}

proof fn lemma_normalize_no_lf(s: Seq<char>, i: int)
    requires
        0 <= i <= s.len(),
        forall|k: int| i <= k < s.len() ==> s[k] != '\n',
    ensures
        normalize_crlf(s.skip(i)) == s.skip(i),
    decreases s.len() - i,
{
    if i < s.len() {
        lemma_normalize_no_lf(s, i + 1);
        assert(s.skip(i)[0] == s[i]);
        assert(s.skip(i).skip(1) =~= s.skip(i + 1));
        assert(seq![s[i]] + s.skip(i + 1) =~= s.skip(i));
    } else {
        assert(s.skip(i) =~= Seq::<char>::empty());
    }
}

proof fn lemma_normalize_until_lf(s: Seq<char>, i: int, j0: int)
    requires
        0 <= i <= j0 < s.len(),
        s[j0] == '\n',
        forall|k: int| i <= k < j0 ==> s[k] != '\n',
    ensures
        normalize_crlf(s.skip(i)) == line_text(s, i) + seq!['\n'] + normalize_crlf(s.skip(j0 + 1)),
    decreases j0 - i,
{
    lemma_find_from_some(s, i, '\n', j0);
    let t = s.skip(i);
    assert(t.len() == s.len() - i);
    assert forall|k: int| 0 <= k < t.len() implies t[k] == s[i + k] by {}
    if i == j0 {
        // the line is empty and the LF is the first character
        assert(t[0] == '\n');
        assert(t.skip(1) =~= s.skip(j0 + 1));
        assert(line_text(s, i) =~= Seq::<char>::empty());
        assert(normalize_crlf(t) == seq![s[i]] + normalize_crlf(s.skip(j0 + 1)));
        assert(line_text(s, i) + seq!['\n'] + normalize_crlf(s.skip(j0 + 1)) =~= seq![s[i]]
            + normalize_crlf(s.skip(j0 + 1)));
    } else if i + 1 == j0 && s[i] == '\r' {
        // a CRLF terminator right away: the line is empty
        assert(t[0] == '\r' && t[1] == '\n');
        assert(t.skip(2) =~= s.skip(j0 + 1));
        assert(normalize_crlf(t) == seq!['\n'] + normalize_crlf(s.skip(j0 + 1)));
        assert(line_text(s, i) =~= Seq::<char>::empty());
        assert(line_text(s, i) + seq!['\n'] + normalize_crlf(s.skip(j0 + 1)) =~= seq!['\n']
            + normalize_crlf(s.skip(j0 + 1)));
    } else {
        // the first character is ordinary line text
        assert(t[0] == s[i] && s[i] != '\n');
        if t.len() >= 2 && t[0] == '\r' && t[1] == '\n' {
            assert(s[i + 1] == '\n');
            assert(i + 1 == j0);
            assert(false);
        }
        assert(normalize_crlf(t) == seq![s[i]] + normalize_crlf(t.skip(1)));
        assert(t.skip(1) =~= s.skip(i + 1));
        lemma_normalize_until_lf(s, i + 1, j0);
        lemma_find_from_some(s, i + 1, '\n', j0);
        // the line at i is its first character followed by the line at i+1
        assert(line_text(s, i) =~= seq![s[i]] + line_text(s, i + 1));
        assert(line_text(s, i) + seq!['\n'] + normalize_crlf(s.skip(j0 + 1)) =~= seq![s[i]] + (
        line_text(s, i + 1) + seq!['\n'] + normalize_crlf(s.skip(j0 + 1))));
    }
}

/// Cursor line semantics: joining the lines read from position `i` with a
/// single LF between them reproduces the remaining input, with each CRLF
/// terminator normalised to LF and every lone CR kept; an input whose
/// last character is a terminator contributes one final LF.
pub proof fn lemma_line_join(s: Seq<char>, i: int)
    requires
        0 <= i <= s.len(),
    ensures
        join_lines(lines_of(s, i)) + (if i < s.len() && s[s.len() - 1] == '\n' {
            seq!['\n']
        } else {
            Seq::<char>::empty()
        }) == normalize_crlf(s.skip(i)),
    decreases s.len() - i,
{
    let trail: Seq<char> = if i < s.len() && s[s.len() - 1] == '\n' {
        seq!['\n']
    } else {
        Seq::empty()
    };
    if i >= s.len() {
        assert(s.skip(i) =~= Seq::<char>::empty());
        assert(join_lines(lines_of(s, i)) + trail =~= Seq::<char>::empty());
    } else {
        lemma_find_from_spec(s, i, '\n');
        lemma_line_next_bounds(s, i);
        let j = line_next(s, i);
        let line = line_text(s, i);
        match find_from(s, i, '\n') {
            None => {
                // no terminator: one final unterminated line
                assert(s[s.len() - 1] != '\n');
                assert(lines_of(s, j) =~= Seq::<Seq<char>>::empty());
                assert(lines_of(s, i) == seq![line] + lines_of(s, j));
                assert(lines_of(s, i) =~= seq![line]);
                lemma_normalize_no_lf(s, i);
                assert(line =~= s.skip(i));
                assert(join_lines(lines_of(s, i)) + trail =~= s.skip(i));
            },
            Some(j0) => {
                lemma_normalize_until_lf(s, i, j0);
                lemma_line_join(s, j0 + 1);
                if j0 + 1 == s.len() {
                    // the text ends right at this terminator
                    assert(s[s.len() - 1] == '\n');
                    assert(trail =~= seq!['\n']);
                    assert(lines_of(s, j) =~= Seq::<Seq<char>>::empty());
                    assert(lines_of(s, i) == seq![line] + lines_of(s, j));
                    assert(lines_of(s, i) =~= seq![line]);
                    assert(normalize_crlf(s.skip(j0 + 1)) =~= Seq::<char>::empty());
                    assert(join_lines(lines_of(s, i)) + trail =~= line + seq!['\n']
                        + normalize_crlf(s.skip(j0 + 1)));
                } else {
                    // more lines follow the terminator
                    let rest = lines_of(s, j0 + 1);
                    assert(rest.len() > 0) by {
                        lemma_line_next_bounds(s, j0 + 1);
                    }
                    assert(lines_of(s, i) == seq![line] + rest);
                    let ls = lines_of(s, i);
                    assert(ls.len() > 1);
                    assert(ls[0] == line);
                    assert(ls.drop_first() =~= rest);
                    assert(join_lines(ls) == line + seq!['\n'] + join_lines(rest));
                    let trail2: Seq<char> = if j0 + 1 < s.len() && s[s.len() - 1] == '\n' {
                        seq!['\n']
                    } else {
                        Seq::empty()
                    };
                    assert(trail2 == trail);
                    assert(join_lines(ls) + trail =~= line + seq!['\n'] + (join_lines(rest)
                        + trail2));
                    assert(join_lines(ls) + trail =~= line + seq!['\n'] + normalize_crlf(
                        s.skip(j0 + 1),
                    ));
                }
            },
        }
    }
}

/// A character stream with a monotone position, peeking, fixed-width and
/// line-oriented reads, and checkpoint/rewind through `position` /
/// `set_position`.
pub struct StringParser {
    data: Vec<char>,
    position: usize,
}

impl StringParser {
    /// The full character sequence the cursor ranges over.
    pub closed spec fn text(self) -> Seq<char> {
        self.data@
    }

    /// The current position, between 0 and `text().len()` inclusive.
    pub closed spec fn pos(self) -> int {
        self.position as int
    }

    pub open spec fn wf(self) -> bool {
        0 <= self.pos() <= self.text().len()
    }

    /// The text always fits in memory, so its length fits in `usize`.
    pub proof fn lemma_text_len_bound(self)
        ensures
            self.text().len() <= usize::MAX,
    {
        assert(vstd::std_specs::vec::spec_vec_len(&self.data) == self.data@.len());
    }

    pub fn new(content: String) -> (r: StringParser)
        ensures
            r.wf(),
            r.text() == content@,
            r.pos() == 0,
    {
        StringParser { data: chars_of(content.as_str()), position: 0 }
    }

    pub fn has_more(&self) -> (r: bool)
        requires
            self.wf(),
        ensures
            r == (self.pos() < self.text().len()),
    {
        self.position < self.data.len()
    }

    /// The next `chars` characters as a string; fails without consuming
    /// anything when fewer remain.
    pub fn n_chars(&mut self, chars: usize) -> (r: Result<String, ParsingError>)
        requires
            old(self).wf(),
        ensures
            final(self).wf(),
            final(self).text() == old(self).text(),
            old(self).pos() + chars <= old(self).text().len() ==> {
                &&& r matches Ok(s) && s@ == old(self).text().subrange(
                    old(self).pos(),
                    old(self).pos() + chars,
                )
                &&& final(self).pos() == old(self).pos() + chars
            },
            old(self).pos() + chars > old(self).text().len() ==> {
                &&& r is Err
                &&& final(self).pos() == old(self).pos()
            },
    {
        if chars > self.data.len() - self.position {
            return Err(ParsingError { message: String::from_str("end of string") });
        }
        let s = chars_to_string(&self.data, self.position, self.position + chars);
        self.position = self.position + chars;
        Ok(s)
    }

    /// The next character, consuming it; fails at the end of the stream.
    pub fn next(&mut self) -> (r: Result<char, ParsingError>)
        requires
            old(self).wf(),
        ensures
            final(self).wf(),
            final(self).text() == old(self).text(),
            old(self).pos() < old(self).text().len() ==> {
                &&& r matches Ok(c) && c == old(self).text()[old(self).pos()]
                &&& final(self).pos() == old(self).pos() + 1
            },
            old(self).pos() >= old(self).text().len() ==> {
                &&& r is Err
                &&& final(self).pos() == old(self).pos()
            },
    {
        if self.position >= self.data.len() {
            return Err(ParsingError { message: String::from_str("end of string") });
        }
        let c = self.data[self.position];
        self.position = self.position + 1;
        Ok(c)
    }

    /// The next character without consuming it; fails at the end of the
    /// stream.
    pub fn peek(&self) -> (r: Result<char, ParsingError>)
        requires
            self.wf(),
        ensures
            self.pos() < self.text().len() ==> (r matches Ok(c) && c == self.text()[self.pos()]),
            self.pos() >= self.text().len() ==> r is Err,
    {
        if self.position >= self.data.len() {
            return Err(ParsingError { message: String::from_str("end of string") });
        }
        Ok(self.data[self.position])
    }

    pub fn position(&self) -> (r: usize)
        ensures
            r == self.pos(),
    {
        self.position
    }

    pub fn set_position(&mut self, position: usize)
        requires
            position <= old(self).text().len(),
        ensures
            final(self).wf(),
            final(self).text() == old(self).text(),
            final(self).pos() == position,
    {
        self.position = position;
    }

    /// The line at the current position, without consuming it.
    pub fn peek_line(&mut self) -> (r: Result<String, ParsingError>)
        requires
            old(self).wf(),
        ensures
            final(self).wf(),
            final(self).text() == old(self).text(),
            final(self).pos() == old(self).pos(),
            r matches Ok(line) && line@ == line_text(old(self).text(), old(self).pos()),
    {
        let old_position = self.position;
        let maybe_line = self.next_line();
        self.position = old_position;
        maybe_line
    }

    /// Consumes up to and including the first occurrence of `c`, returning
    /// the text before it. A greedy read: when `c` never occurs, the whole
    /// remainder is returned and the stream is exhausted, without error.
    pub fn until(&mut self, c: char) -> (r: Result<String, ParsingError>)
        requires
            old(self).wf(),
        ensures
            final(self).wf(),
            final(self).text() == old(self).text(),
            r matches Ok(s) && s@ == until_text(old(self).text(), old(self).pos(), c),
            final(self).pos() == until_next(old(self).text(), old(self).pos(), c),
    {
        let n = self.data.len();
        let mut j = self.position;
        while j < n && self.data[j] != c
            invariant
                self.position <= j <= n,
                n == self.text().len(),
                forall|k: int| self.pos() <= k < j ==> self.text()[k] != c,
            decreases n - j,
        {
            j = j + 1;
        }
        proof {
            if j < n {
                lemma_find_from_some(self.text(), self.pos(), c, j as int);
            } else {
                lemma_find_from_none(self.text(), self.pos(), c);
            }
        }
        let s = chars_to_string(&self.data, self.position, j);
        if j < n {
            self.position = j + 1;
        } else {
            self.position = n;
        }
        Ok(s)
    }

    /// Consumes one line and returns its text. The terminator is LF alone
    /// or CRLF and is not part of the result; a lone CR is kept in the
    /// text. At the end of the stream the empty string is returned without
    /// error.
    pub fn next_line(&mut self) -> (r: Result<String, ParsingError>)
        requires
            old(self).wf(),
        ensures
            final(self).wf(),
            final(self).text() == old(self).text(),
            r matches Ok(line) && line@ == line_text(old(self).text(), old(self).pos()),
            final(self).pos() == line_next(old(self).text(), old(self).pos()),
    {
        let v = self.next_line_chars();
        let line = chars_to_string(&v, 0, v.len());
        proof {
            assert(line@ =~= v@);
        }
        Ok(line)
    }

    /// Like `next_line`, but hands the line back as characters.
    pub(crate) fn next_line_chars(&mut self) -> (r: Vec<char>)
        requires
            old(self).wf(),
        ensures
            final(self).wf(),
            final(self).text() == old(self).text(),
            r@ == line_text(old(self).text(), old(self).pos()),
            final(self).pos() == line_next(old(self).text(), old(self).pos()),
    {
        let n = self.data.len();
        let mut j = self.position;
        while j < n && self.data[j] != '\n'
            invariant
                self.position <= j <= n,
                n == self.text().len(),
                forall|k: int| self.pos() <= k < j ==> self.text()[k] != '\n',
            decreases n - j,
        {
            j = j + 1;
        }
        if j < n {
            proof {
                lemma_find_from_some(self.text(), self.pos(), '\n', j as int);
            }
            let line = if j > self.position && self.data[j - 1] == '\r' {
                chars_to_vec(&self.data, self.position, j - 1)
            } else {
                chars_to_vec(&self.data, self.position, j)
            };
            self.position = j + 1;
            line
        } else {
            proof {
                lemma_find_from_none(self.text(), self.pos(), '\n');
            }
            let line = chars_to_vec(&self.data, self.position, n);
            self.position = n;
            line
        }
    }
}

} // verus!
