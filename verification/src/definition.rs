//! The schema and the pure decisions of the definition ingester. The
//! ingester crawls specification pages and extracts message and field
//! tables; fetching and HTML traversal happen outside the library, while
//! the rules below — which entries to skip, how a table's columns are
//! laid out, how names are cleaned and message types extracted — are
//! verified here on plain values.

use vstd::prelude::*;

use crate::digits::is_digit;
use crate::string_parser::find_from;
use crate::string_parser::lemma_find_from_none;
use crate::string_parser::lemma_find_from_some;
use crate::strutil::chars_of;
use crate::strutil::chars_to_string;
use crate::strutil::push_char;

verus! {

/// One row of the message-type index: a message type, its description
/// and the link to its specification page.
#[derive(Debug)]
pub struct IndexEntry {
    pub message_type: String,
    pub description: String,
    pub link: String,
}

/// Characters kept in a cleaned index name: letters, digits, space and
/// hyphen.
pub open spec fn allowed_name_char(c: char) -> bool {
    ('A' <= c && c <= 'Z') || ('a' <= c && c <= 'z') || ('0' <= c && c <= '9') || c == ' ' || c
        == '-'
}

/// `s` with every character outside the allowed set removed.
pub open spec fn sanitized(s: Seq<char>) -> Seq<char>
    decreases s.len(),
{
    if s.len() == 0 {
        Seq::empty()
    } else {
        (if allowed_name_char(s[0]) {
            seq![s[0]]
        } else {
            Seq::empty()
        }) + sanitized(s.skip(1))
    }
}

/// Removes every character that is not a letter, a digit, a space or a
/// hyphen.
pub fn sanitize_name(s: &str) -> (r: String)
    ensures
        r@ == sanitized(s@),
{
    let v = chars_of(s);
    let n = v.len();
    let mut out = String::new();
    let mut i: usize = 0;
    proof {
        assert(v@.skip(0) =~= v@);
    }
    while i < n
        invariant
            i <= n,
            n == v@.len(),
            v@ == s@,
            out@ + sanitized(s@.skip(i as int)) == sanitized(s@),
        decreases n - i,
    {
        let c = v[i];
        let ghost before = out@;
        if (c >= 'A' && c <= 'Z') || (c >= 'a' && c <= 'z') || (c >= '0' && c <= '9') || c == ' '
            || c == '-' {
            push_char(&mut out, c);
        }
        proof {
            assert(s@.skip(i as int)[0] == s@[i as int]);
            assert(s@.skip(i as int).skip(1) =~= s@.skip(i + 1 as int));
            if allowed_name_char(s@[i as int]) {
                assert(out@ =~= before + seq![s@[i as int]]);
            }
        }
        i = i + 1;
    }
    proof {
        assert(s@.skip(n as int) =~= Seq::<char>::empty());
        assert(out@ =~= sanitized(s@));
    }
    out
}

/// First index at or after `i` whose character differs from `c`, if any.
pub open spec fn find_from_other(s: Seq<char>, i: int, c: char) -> Option<int>
    decreases s.len() - i,
{
    if i < 0 || i >= s.len() {
        None
    } else if s[i] != c {
        Some(i)
    } else {
        find_from_other(s, i + 1, c)
    }
}

proof fn lemma_find_from_other_some(s: Seq<char>, i: int, c: char, j: int)
    requires
        0 <= i <= j < s.len(),
        s[j] != c,
        forall|k: int| i <= k < j ==> s[k] == c,
    ensures
        find_from_other(s, i, c) == Some(j),
    decreases j - i,
{
    if i < j {
        lemma_find_from_other_some(s, i + 1, c, j);
    }
}

proof fn lemma_find_from_other_none(s: Seq<char>, i: int, c: char)
    requires
        0 <= i <= s.len(),
        forall|k: int| i <= k < s.len() ==> s[k] == c,
    ensures
        find_from_other(s, i, c) is None,
    decreases s.len() - i,
{
    if i < s.len() {
        lemma_find_from_other_none(s, i + 1, c);
    }
}

/// The first space-separated token of `s`: the text from the first
/// non-space character to the next space or the end. `None` when `s` is
/// all spaces.
pub open spec fn first_token(s: Seq<char>) -> Option<Seq<char>> {
    match find_from_other(s, 0, ' ') {
        None => None,
        Some(a) => match find_from(s, a, ' ') {
            Some(b) => Some(s.subrange(a, b)),
            None => Some(s.subrange(a, s.len() as int)),
        },
    }
}

/// The first space-separated token of `s`, or `None` when there is none.
pub fn first_token_of(s: &str) -> (r: Option<String>)
    ensures
        match r {
            Some(t) => first_token(s@) == Some(t@),
            None => first_token(s@) is None,
        },
{
    let v = chars_of(s);
    let n = v.len();
    let mut a: usize = 0;
    while a < n && v[a] == ' '
        invariant
            a <= n,
            n == v@.len(),
            v@ == s@,
            forall|k: int| 0 <= k < a ==> s@[k] == ' ',
        decreases n - a,
    {
        a = a + 1;
    }
    if a >= n {
        proof {
            lemma_find_from_other_none(s@, 0, ' ');
        }
        return None;
    }
    proof {
        lemma_find_from_other_some(s@, 0, ' ', a as int);
    }
    let mut b = a;
    while b < n && v[b] != ' '
        invariant
            a <= b <= n,
            n == v@.len(),
            v@ == s@,
            forall|k: int| a <= k < b ==> s@[k] != ' ',
        decreases n - b,
    {
        b = b + 1;
    }
    proof {
        if b < n {
            lemma_find_from_some(s@, a as int, ' ', b as int);
        } else {
            lemma_find_from_none(s@, a as int, ' ');
        }
    }
    Some(chars_to_string(&v, a, b))
}

/// Builds one index entry from an anchor's text and link: the name is
/// cleaned, and the message type is the name's first token. `None` when
/// the cleaned name holds no token at all.
pub fn make_index_entry(raw_name: &str, link: String) -> (r: Option<IndexEntry>)
    ensures
        match r {
            Some(e) => {
                &&& e.description@ == sanitized(raw_name@)
                &&& e.link@ == link@
                &&& first_token(sanitized(raw_name@)) == Some(e.message_type@)
            },
            None => first_token(sanitized(raw_name@)) is None,
        },
{
    let description = sanitize_name(raw_name);
    match first_token_of(description.as_str()) {
        Some(message_type) => Some(IndexEntry { message_type, description, link }),
        None => None,
    }
}

/// An `MT` followed by a digit, a `9` and a digit starts at `i`: the
/// shape of the message types the ingester skips.
pub open spec fn mt_x9x_at(s: Seq<char>, i: int) -> bool {
    &&& 0 <= i
    &&& i + 5 <= s.len()
    &&& s[i] == 'M'
    &&& s[i + 1] == 'T'
    &&& is_digit(s[i + 2])
    &&& s[i + 3] == '9'
    &&& is_digit(s[i + 4])
}

pub open spec fn contains_mt_x9x(s: Seq<char>) -> bool {
    exists|i: int| mt_x9x_at(s, i)
}

/// Whether a description names a message of an `MTx9x` group, which the
/// ingester does not crawl.
pub fn is_mt_x9x_description(description: &str) -> (r: bool)
    ensures
        r == contains_mt_x9x(description@),
{
    let v = chars_of(description);
    let n = v.len();
    if n < 5 {
        proof {
            assert(!contains_mt_x9x(description@)) by {
                assert(forall|i: int| !mt_x9x_at(description@, i));
            }
        }
        return false;
    }
    let mut i: usize = 0;
    while i <= n - 5
        invariant
            i <= n - 4,
            5 <= n == v@.len(),
            v@ == description@,
            forall|k: int| 0 <= k < i ==> !mt_x9x_at(description@, k),
        decreases n - i,
    {
        if v[i] == 'M' && v[i + 1] == 'T' && v[i + 2] >= '0' && v[i + 2] <= '9' && v[i + 3] == '9'
            && v[i + 4] >= '0' && v[i + 4] <= '9' {
            assert(mt_x9x_at(description@, i as int));
            return true;
        }
        i = i + 1;
    }
    proof {
        assert(forall|k: int| i <= k ==> !mt_x9x_at(description@, k));
    }
    false
}

/// The column layout of a field-format table, by column index.
#[derive(Debug, Clone, Copy, PartialEq, Eq, Structural)]
pub struct FieldTableIndices {
    pub status: usize,
    pub tag: usize,
    pub name: usize,
    pub name_fallback: usize,
    pub qualifier: usize,
    pub link: usize,
}

/// The column layout for a field-format table with the given number of
/// header columns: two known layouts, five and seven columns; anything
/// else is unrecognised.
pub fn field_table_indices(header_count: usize) -> (r: Option<FieldTableIndices>)
    ensures
        header_count == 5 ==> r == Some(
            FieldTableIndices {
                status: 0usize,
                tag: 1usize,
                name: 2usize,
                name_fallback: 0usize,
                qualifier: 0usize,
                link: 4usize,
            },
        ),
        header_count == 7 ==> r == Some(
            FieldTableIndices {
                status: 0usize,
                tag: 1usize,
                name: 4usize,
                name_fallback: 3usize,
                qualifier: 2usize,
                link: 6usize,
            },
        ),
        header_count != 5 && header_count != 7 ==> r is None,
{
    if header_count == 5 {
        Some(
            FieldTableIndices {
                status: 0,
                tag: 1,
                name: 2,
                name_fallback: 0,
                qualifier: 0,
                link: 4,
            },
        )
    } else if header_count == 7 {
        Some(
            FieldTableIndices {
                status: 0,
                tag: 1,
                name: 4,
                name_fallback: 3,
                qualifier: 2,
                link: 6,
            },
        )
    } else {
        None
    }
}

/// The pattern `p` occurs in `s` starting at `i`.
pub open spec fn occurs_at(s: Seq<char>, p: Seq<char>, i: int) -> bool {
    0 <= i && i + p.len() <= s.len() && s.subrange(i, i + p.len()) == p
}

pub open spec fn contains_seq(s: Seq<char>, p: Seq<char>) -> bool {
    exists|i: int| occurs_at(s, p, i)
}

/// Whether `p` occurs anywhere in `s`.
pub fn contains_str(s: &str, p: &str) -> (r: bool)
    ensures
        r == contains_seq(s@, p@),
{
    let sv = chars_of(s);
    let pv = chars_of(p);
    let n = sv.len();
    let m = pv.len();
    if m > n {
        proof {
            assert(!contains_seq(s@, p@)) by {
                assert(forall|i: int| !occurs_at(s@, p@, i));
            }
        }
        return false;
    }
    let mut i: usize = 0;
    while i <= n - m
        invariant
            m <= n,
            i <= n - m + 1,
            n == sv@.len(),
            m == pv@.len(),
            sv@ == s@,
            pv@ == p@,
            forall|k: int| 0 <= k < i ==> !occurs_at(s@, p@, k),
        decreases n - i,
    {
        let mut j: usize = 0;
        while j < m && sv[i + j] == pv[j]
            invariant
                i + m <= n,
                j <= m,
                n == sv@.len(),
                m == pv@.len(),
                sv@ == s@,
                pv@ == p@,
                forall|k: int| 0 <= k < j ==> s@[i + k] == p@[k],
            decreases m - j,
        {
            j = j + 1;
        }
        if j == m {
            proof {
                assert(s@.subrange(i as int, i + m as int) =~= p@);
                assert(occurs_at(s@, p@, i as int));
            }
            return true;
        }
        proof {
            assert(!occurs_at(s@, p@, i as int)) by {
                if occurs_at(s@, p@, i as int) {
                    assert(s@.subrange(i as int, i + m as int)[j as int] == p@[j as int]);
                }
            }
        }
        i = i + 1;
    }
    proof {
        assert(forall|k: int| i <= k ==> !occurs_at(s@, p@, k));
    }
    false
}

/// A name cell usable as a field name: nonempty and not the qualifier
/// cross-reference placeholder.
pub open spec fn usable_name(n: Seq<char>) -> bool {
    n.len() > 0 && !contains_seq(n, "see qualifier description"@)
}

/// The name a field row gets: the name cell when usable, otherwise the
/// fallback cell when the layout has one, otherwise the tag itself.
pub fn effective_field_name(name: String, fallback: Option<String>, tag: String) -> (r: String)
    ensures
        usable_name(name@) ==> r@ == name@,
        !usable_name(name@) ==> match fallback {
            Some(f) => r@ == f@,
            None => r@ == tag@,
        },
{
    if name.as_str().is_empty() || contains_str(name.as_str(), "see qualifier description") {
        match fallback {
            Some(f) => f,
            None => tag,
        }
    } else {
        name
    }
}

} // verus!
