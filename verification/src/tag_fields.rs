//! The tag dictionary grammar shared by the user header (block 3) and the
//! trailer (block 5): a block body is `{TAG:VALUE}` entries concatenated.
//! Decoding splits the body on `}`, drops empty fragments, strips each
//! fragment's leading `{` and splits it once on the first `:`; when a tag
//! repeats, the last occurrence wins.

use vstd::prelude::*;
use vstd::string::StringExecFns;

use crate::string_parser::find_from;
use crate::string_parser::lemma_find_from_none;
use crate::string_parser::lemma_find_from_spec;
use crate::string_parser::lemma_find_from_some;
use crate::strutil::chars_of;
use crate::strutil::chars_to_string;
use crate::strutil::push_char;

verus! {

/// The key and value of one `{TAG:VALUE}` fragment `s[from..to]` (which
/// includes the leading `{` but not the closing `}`): everything between
/// the `{` and the first `:`, and everything after that `:`; without a
/// `:` the whole stripped fragment is the key and the value is empty.
pub open spec fn fragment_pair_at(s: Seq<char>, from: int, to: int) -> (Seq<char>, Seq<char>) {
    match find_from(s, from + 1, ':') {
        Some(j) => if j < to {
            (s.subrange(from + 1, j), s.subrange(j + 1, to))
        } else {
            (s.subrange(from + 1, to), Seq::empty())
        },
        None => (s.subrange(from + 1, to), Seq::empty()),
    }
}

/// The raw (tag, value) pairs of a block body read from `i`: one pair per
/// nonempty fragment between `}` separators, in order of appearance.
pub open spec fn raw_pairs_from(s: Seq<char>, i: int) -> Seq<(Seq<char>, Seq<char>)>
    decreases s.len() - i,
{
    if i < 0 || i >= s.len() {
        Seq::empty()
    } else {
        match find_from(s, i, '}') {
            Some(j) => if i <= j < s.len() {
                (if j > i {
                    seq![fragment_pair_at(s, i, j)]
                } else {
                    Seq::empty()
                }) + raw_pairs_from(s, j + 1)
            } else {
                Seq::empty()
            },
            None => seq![fragment_pair_at(s, i, s.len() as int)],
        }
    }
}

/// Whether some pair of `ps` carries the key `k`.
pub open spec fn key_in(ps: Seq<(Seq<char>, Seq<char>)>, k: Seq<char>) -> bool {
    exists|m: int| 0 <= m < ps.len() && ps[m].0 == k
}

/// Collapses repeated keys: a pair survives exactly when its key does not
/// occur again later, so the last occurrence of each key wins.
pub open spec fn last_wins(ps: Seq<(Seq<char>, Seq<char>)>) -> Seq<(Seq<char>, Seq<char>)>
    decreases ps.len(),
{
    if ps.len() == 0 {
        Seq::empty()
    } else {
        (if key_in(ps.drop_first(), ps[0].0) {
            Seq::empty()
        } else {
            seq![ps[0]]
        }) + last_wins(ps.drop_first())
    }
}

/// The decoded field dictionary of a block body: its raw pairs with the
/// last occurrence of each repeated tag kept.
pub open spec fn fields_of(c: Seq<char>) -> Seq<(Seq<char>, Seq<char>)> {
    last_wins(raw_pairs_from(c, 0))
}

/// The value under the first occurrence of `k`.
pub open spec fn assoc_get(ps: Seq<(Seq<char>, Seq<char>)>, k: Seq<char>) -> Option<Seq<char>>
    decreases ps.len(),
{
    if ps.len() == 0 {
        None
    } else if ps[0].0 == k {
        Some(ps[0].1)
    } else {
        assoc_get(ps.drop_first(), k)
    }
}

/// `ps` without the first pair keyed `k`, if there is one.
pub open spec fn remove_first_key(ps: Seq<(Seq<char>, Seq<char>)>, k: Seq<char>) -> Seq<
    (Seq<char>, Seq<char>),
>
    decreases ps.len(),
{
    if ps.len() == 0 {
        Seq::empty()
    } else if ps[0].0 == k {
        ps.drop_first()
    } else {
        seq![ps[0]] + remove_first_key(ps.drop_first(), k)
    }
}

/// `ps` with the first occurrence of each key of `ks` removed, in order.
pub open spec fn remove_keys(ps: Seq<(Seq<char>, Seq<char>)>, ks: Seq<Seq<char>>) -> Seq<
    (Seq<char>, Seq<char>),
>
    decreases ks.len(),
{
    if ks.len() == 0 {
        ps
    } else {
        remove_keys(remove_first_key(ps, ks[0]), ks.drop_first())
    }
}

/// The pairs of a vector of owned strings, as sequences.
pub open spec fn pairs_view(v: Seq<(String, String)>) -> Seq<(Seq<char>, Seq<char>)> {
    v.map(|m: int, p: (String, String)| (p.0@, p.1@))
}

pub open spec fn opt_str_view(o: Option<String>) -> Option<Seq<char>> {
    match o {
        Option::Some(s) => Some(s@),
        Option::None => None,
    }
}

proof fn lemma_assoc_get_found(ps: Seq<(Seq<char>, Seq<char>)>, k: Seq<char>, i: int)
    requires
        0 <= i < ps.len(),
        ps[i].0 == k,
        forall|m: int| 0 <= m < i ==> ps[m].0 != k,
    ensures
        assoc_get(ps, k) == Some(ps[i].1),
        remove_first_key(ps, k) == ps.remove(i),
    decreases i,
{
    if i == 0 {
        assert(ps.remove(0) =~= ps.drop_first());
    } else {
        lemma_assoc_get_found(ps.drop_first(), k, i - 1);
        assert(seq![ps[0]] + ps.drop_first().remove(i - 1) =~= ps.remove(i));
    }
}

proof fn lemma_assoc_get_absent(ps: Seq<(Seq<char>, Seq<char>)>, k: Seq<char>)
    requires
        forall|m: int| 0 <= m < ps.len() ==> ps[m].0 != k,
    ensures
        assoc_get(ps, k) is None,
        remove_first_key(ps, k) == ps,
    decreases ps.len(),
{
    if ps.len() > 0 {
        lemma_assoc_get_absent(ps.drop_first(), k);
        assert(seq![ps[0]] + ps.drop_first() =~= ps);
    }
}

/// Removing one key leaves the lookup of every other key unchanged.
pub proof fn lemma_assoc_get_after_remove(
    ps: Seq<(Seq<char>, Seq<char>)>,
    k1: Seq<char>,
    k2: Seq<char>,
)
    requires
        k1 != k2,
    ensures
        assoc_get(remove_first_key(ps, k1), k2) == assoc_get(ps, k2),
    decreases ps.len(),
{
    if ps.len() > 0 {
        lemma_assoc_get_after_remove(ps.drop_first(), k1, k2);
        if ps[0].0 != k1 {
            let r = seq![ps[0]] + remove_first_key(ps.drop_first(), k1);
            assert(r.drop_first() =~= remove_first_key(ps.drop_first(), k1));
        }
    }
}

/// Removing one key leaves the lookup of every other key unchanged.
pub proof fn lemma_assoc_get_after_remove_all(ps: Seq<(Seq<char>, Seq<char>)>, k1: Seq<char>)
    ensures
        forall|k2: Seq<char>|
            k2 != k1 ==> assoc_get(remove_first_key(ps, k1), k2) == assoc_get(ps, k2),
{
    assert forall|k2: Seq<char>|
        k2 != k1 implies assoc_get(remove_first_key(ps, k1), k2) == assoc_get(ps, k2) by {
        lemma_assoc_get_after_remove(ps, k1, k2);
    }
}

/// Splits a block body into its field dictionary: the `{TAG:VALUE}`
/// pairs, empty fragments dropped, the last occurrence of a repeated tag
/// winning, ordered by last occurrence.
pub fn read_sys_block_fields(content: String) -> (r: Vec<(String, String)>)
    ensures
        pairs_view(r@) == fields_of(content@),
{
    let v = chars_of(content.as_str());
    let ghost c = content@;
    let n = v.len();
    let mut raw: Vec<(String, String)> = Vec::new();
    let mut i: usize = 0;
    while i < n
        invariant
            i <= n,
            n == c.len(),
            v@ == c,
            raw_pairs_from(c, 0) == pairs_view(raw@) + raw_pairs_from(c, i as int),
        decreases n - i,
    {
        let ghost fstart = i as int;
        let mut j = i;
        while j < n && v[j] != '}'
            invariant
                i <= j <= n,
                n == c.len(),
                v@ == c,
                forall|m: int| i <= m < j ==> c[m] != '}',
            decreases n - j,
        {
            j = j + 1;
        }
        proof {
            if j < n {
                lemma_find_from_some(c, i as int, '}', j as int);
            } else {
                lemma_find_from_none(c, i as int, '}');
            }
        }
        let to = j;
        if to > i {
            let mut k = i + 1;
            while k < n && v[k] != ':'
                invariant
                    i + 1 <= k <= n,
                    n == c.len(),
                    v@ == c,
                    forall|m: int| i + 1 <= m < k ==> c[m] != ':',
                decreases n - k,
            {
                k = k + 1;
            }
            proof {
                if k < n {
                    lemma_find_from_some(c, i + 1 as int, ':', k as int);
                } else {
                    lemma_find_from_none(c, i + 1 as int, ':');
                }
            }
            let ghost before = raw@;
            if k < to {
                let key = chars_to_string(&v, i + 1, k);
                let value = chars_to_string(&v, k + 1, to);
                raw.push((key, value));
            } else {
                let key = chars_to_string(&v, i + 1, to);
                let value = String::new();
                raw.push((key, value));
            }
            proof {
                assert(pairs_view(raw@) =~= pairs_view(before) + seq![
                    fragment_pair_at(c, fstart, to as int),
                ]);
            }
        }
        if j < n {
            i = j + 1;
        } else {
            i = n;
        }
        proof {
            assert(raw_pairs_from(c, 0) =~= pairs_view(raw@) + raw_pairs_from(c, i as int));
        }
    }
    let m = raw.len();
    let mut fields: Vec<(String, String)> = Vec::new();
    let mut a: usize = 0;
    proof {
        assert(pairs_view(raw@).skip(0) =~= pairs_view(raw@));
    }
    while a < m
        invariant
            a <= m,
            m == raw@.len(),
            last_wins(pairs_view(raw@)) == pairs_view(fields@) + last_wins(
                pairs_view(raw@).skip(a as int),
            ),
        decreases m - a,
    {
        let ghost pv = pairs_view(raw@);
        let mut dup = false;
        let mut b = a + 1;
        while b < m
            invariant
                a < m,
                a + 1 <= b <= m,
                m == raw@.len(),
                pv == pairs_view(raw@),
                dup == exists|t: int| a + 1 <= t < b && pv[t].0 == pv[a as int].0,
            decreases m - b,
        {
            let same = raw[b].0 == raw[a].0;
            proof {
                assert(pv[b as int] == (raw@[b as int].0@, raw@[b as int].1@));
                assert(pv[a as int] == (raw@[a as int].0@, raw@[a as int].1@));
            }
            if same {
                dup = true;
            }
            b = b + 1;
        }
        proof {
            let tail = pv.skip(a as int);
            assert forall|t: int| 0 <= t < tail.drop_first().len() implies tail.drop_first()[t]
                == pv[a + 1 + t] by {
                assert(tail.drop_first() =~= pv.skip(a + 1 as int));
            }
            assert(tail.drop_first() =~= pv.skip(a + 1 as int));
            if dup {
                let t = choose|t: int| a + 1 <= t < m && pv[t].0 == pv[a as int].0;
                assert(pv.skip(a + 1 as int)[t - a - 1] == pv[t]);
                assert(key_in(tail.drop_first(), tail[0].0));
            } else {
                assert forall|t: int| 0 <= t < tail.drop_first().len() implies tail.drop_first()[
                    t
                ].0 != tail[0].0 by {
                    assert(pv.skip(a + 1 as int)[t] == pv[a + 1 + t]);
                }
                assert(!key_in(tail.drop_first(), tail[0].0));
            }
        }
        let ghost before = fields@;
        if !dup {
            let key = raw[a].0.clone();
            let value = raw[a].1.clone();
            fields.push((key, value));
            proof {
                assert(pairs_view(fields@) =~= pairs_view(before) + seq![
                    pairs_view(raw@)[a as int],
                ]);
            }
        }
        a = a + 1;
        proof {
            assert(last_wins(pairs_view(raw@)) =~= pairs_view(fields@) + last_wins(
                pairs_view(raw@).skip(a as int),
            ));
        }
    }
    proof {
        assert(pairs_view(raw@).skip(m as int) =~= Seq::<(Seq<char>, Seq<char>)>::empty());
        assert(pairs_view(fields@) =~= last_wins(pairs_view(raw@)));
    }
    fields
}

/// Removes the first field keyed `tag` and hands back its value.
pub fn take_tag(fields: &mut Vec<(String, String)>, tag: &String) -> (r: Option<String>)
    ensures
        opt_str_view(r) == assoc_get(pairs_view(old(fields)@), tag@),
        pairs_view(final(fields)@) == remove_first_key(pairs_view(old(fields)@), tag@),
{
    let n = fields.len();
    let mut i: usize = 0;
    while i < n
        invariant
            i <= n,
            n == fields@.len(),
            fields@ == old(fields)@,
            forall|m: int| 0 <= m < i ==> pairs_view(fields@)[m].0 != tag@,
        decreases n - i,
    {
        if fields[i].0 == *tag {
            proof {
                lemma_assoc_get_found(pairs_view(fields@), tag@, i as int);
            }
            let pair = fields.remove(i);
            proof {
                assert(pairs_view(fields@) =~= pairs_view(old(fields)@).remove(i as int));
            }
            return Some(pair.1);
        }
        i = i + 1;
    }
    proof {
        lemma_assoc_get_absent(pairs_view(fields@), tag@);
    }
    None
}

/// The wire text of one optional tag: `{TAG:VALUE}` when the value is
/// present, nothing otherwise.
pub open spec fn tag_entry(tag: Seq<char>, v: Option<Seq<char>>) -> Seq<char> {
    match v {
        Some(x) => seq!['{'] + tag + seq![':'] + x + seq!['}'],
        None => Seq::empty(),
    }
}

/// The wire text of a list of known tags with their optional values.
pub open spec fn entries(tags: Seq<Seq<char>>, vs: Seq<Option<Seq<char>>>) -> Seq<char>
    decreases tags.len(),
{
    if tags.len() == 0 || vs.len() == 0 {
        Seq::empty()
    } else {
        tag_entry(tags[0], vs[0]) + entries(tags.drop_first(), vs.drop_first())
    }
}

/// The wire text of the unknown fields, in their stored order.
pub open spec fn unknown_entries(ps: Seq<(Seq<char>, Seq<char>)>) -> Seq<char>
    decreases ps.len(),
{
    if ps.len() == 0 {
        Seq::empty()
    } else {
        tag_entry(ps[0].0, Some(ps[0].1)) + unknown_entries(ps.drop_first())
    }
}

/// A tag that can appear on the wire unescaped: no `:` and no `}`.
pub open spec fn tag_wf(t: Seq<char>) -> bool {
    !t.contains(':') && !t.contains('}')
}

/// A value that can appear on the wire unescaped: no `}`.
pub open spec fn value_wf(v: Seq<char>) -> bool {
    !v.contains('}')
}

pub open spec fn pairs_wf(ps: Seq<(Seq<char>, Seq<char>)>) -> bool {
    forall|m: int| #![trigger ps[m]] 0 <= m < ps.len() ==> tag_wf(ps[m].0) && value_wf(ps[m].1)
}

pub open spec fn keys_unique(ps: Seq<(Seq<char>, Seq<char>)>) -> bool {
    forall|m: int, n: int| #![trigger ps[m], ps[n]] 0 <= m < n < ps.len() ==> ps[m].0 != ps[n].0
}

/// The pairs contributed by a list of known tags with optional values:
/// one pair per present value, in tag order.
pub open spec fn known_pairs(tags: Seq<Seq<char>>, vs: Seq<Option<Seq<char>>>) -> Seq<
    (Seq<char>, Seq<char>),
>
    decreases tags.len(),
{
    if tags.len() == 0 || vs.len() == 0 {
        Seq::empty()
    } else {
        (match vs[0] {
            Some(x) => seq![(tags[0], x)],
            None => Seq::empty(),
        }) + known_pairs(tags.drop_first(), vs.drop_first())
    }
}

proof fn lemma_find_from_append(a: Seq<char>, b: Seq<char>, i: int, c: char)
    requires
        0 <= i,
    ensures
        find_from(a + b, a.len() + i, c) == match find_from(b, i, c) {
            Some(j) => Some(a.len() + j),
            None => None::<int>,
        },
    decreases b.len() - i,
{
    if i < b.len() {
        assert((a + b)[a.len() + i] == b[i]);
        if b[i] != c {
            lemma_find_from_append(a, b, i + 1, c);
        }
    }
}

proof fn lemma_fragment_pair_append(a: Seq<char>, b: Seq<char>, from: int, to: int)
    requires
        0 <= from < to <= b.len(),
    ensures
        fragment_pair_at(a + b, a.len() + from, a.len() + to) == fragment_pair_at(b, from, to),
{
    let s = a + b;
    lemma_find_from_append(a, b, from + 1, ':');
    lemma_find_from_spec(b, from + 1, ':');
    match find_from(b, from + 1, ':') {
        Some(j) => {
            if j < to {
                assert(s.subrange(a.len() + from + 1, a.len() + j) =~= b.subrange(from + 1, j));
                assert(s.subrange(a.len() + j + 1, a.len() + to) =~= b.subrange(j + 1, to));
            } else {
                assert(s.subrange(a.len() + from + 1, a.len() + to) =~= b.subrange(from + 1, to));
            }
        },
        None => {
            assert(s.subrange(a.len() + from + 1, a.len() + to) =~= b.subrange(from + 1, to));
        },
    }
}

proof fn lemma_raw_pairs_append(a: Seq<char>, b: Seq<char>, i: int)
    requires
        0 <= i,
    ensures
        raw_pairs_from(a + b, a.len() + i) == raw_pairs_from(b, i),
    decreases b.len() - i,
{
    let s = a + b;
    assert(s.len() == a.len() + b.len());
    if i < b.len() {
        lemma_find_from_append(a, b, i, '}');
        lemma_find_from_spec(b, i, '}');
        match find_from(b, i, '}') {
            Some(j) => {
                if j > i {
                    lemma_fragment_pair_append(a, b, i, j);
                }
                lemma_raw_pairs_append(a, b, j + 1);
            },
            None => {
                lemma_fragment_pair_append(a, b, i, b.len() as int);
            },
        }
    }
}

/// Parsing one well-formed `{tag:value}` entry followed by more text
/// yields that pair followed by the pairs of the rest.
proof fn lemma_raw_pairs_entry(t: Seq<char>, v: Seq<char>, rest: Seq<char>)
    requires
        tag_wf(t),
        value_wf(v),
    ensures
        raw_pairs_from(tag_entry(t, Some(v)) + rest, 0) == seq![(t, v)] + raw_pairs_from(rest, 0),
{
    let e = tag_entry(t, Some(v));
    let s = e + rest;
    let tl = t.len() as int;
    let vl = v.len() as int;
    let j = 2 + tl + vl;
    assert(e.len() == j + 1);
    assert(s[0] == '{');
    assert(s[1 + tl] == ':');
    assert(s[j] == '}');
    assert forall|k: int| 0 <= k < j implies s[k] != '}' by {
        if 1 <= k < 1 + tl {
            assert(s[k] == t[k - 1]);
            if s[k] == '}' {
                assert(t.contains('}'));
            }
        } else if 1 + tl < k < j {
            assert(s[k] == v[k - 2 - tl]);
            if s[k] == '}' {
                assert(v.contains('}'));
            }
        }
    }
    lemma_find_from_some(s, 0, '}', j);
    assert forall|k: int| 1 <= k < 1 + tl implies s[k] != ':' by {
        assert(s[k] == t[k - 1]);
        if s[k] == ':' {
            assert(t.contains(':'));
        }
    }
    lemma_find_from_some(s, 1, ':', 1 + tl);
    assert(s.subrange(1, 1 + tl) =~= t);
    assert(s.subrange(2 + tl, j) =~= v);
    assert(fragment_pair_at(s, 0, j) == (t, v));
    lemma_raw_pairs_append(e, rest, 0);
    assert(raw_pairs_from(s, 0) =~= seq![(t, v)] + raw_pairs_from(rest, 0));
}

proof fn lemma_raw_pairs_entry_opt(t: Seq<char>, v: Option<Seq<char>>, rest: Seq<char>)
    requires
        tag_wf(t),
        v matches Some(x) ==> value_wf(x),
    ensures
        raw_pairs_from(tag_entry(t, v) + rest, 0) == (match v {
            Some(x) => seq![(t, x)],
            None => Seq::<(Seq<char>, Seq<char>)>::empty(),
        }) + raw_pairs_from(rest, 0),
{
    match v {
        Some(x) => lemma_raw_pairs_entry(t, x, rest),
        None => {
            assert(tag_entry(t, None) + rest =~= rest);
            assert(Seq::<(Seq<char>, Seq<char>)>::empty() + raw_pairs_from(rest, 0)
                =~= raw_pairs_from(rest, 0));
        },
    }
}

/// Parsing the encoded unknown fields gives back exactly those fields.
pub proof fn lemma_raw_pairs_unknown(ps: Seq<(Seq<char>, Seq<char>)>)
    requires
        pairs_wf(ps),
    ensures
        raw_pairs_from(unknown_entries(ps), 0) == ps,
    decreases ps.len(),
{
    if ps.len() == 0 {
        assert(raw_pairs_from(unknown_entries(ps), 0) =~= ps);
    } else {
        assert(pairs_wf(ps.drop_first())) by {
            assert(forall|m: int|
                #![trigger ps.drop_first()[m]]
                0 <= m < ps.drop_first().len() ==> ps.drop_first()[m] == ps[m + 1]);
        }
        lemma_raw_pairs_unknown(ps.drop_first());
        lemma_raw_pairs_entry(ps[0].0, ps[0].1, unknown_entries(ps.drop_first()));
        assert((ps[0].0, ps[0].1) == ps[0]);
        assert(seq![ps[0]] + ps.drop_first() =~= ps);
    }
}

/// Parsing the encoded known tags followed by more text gives their
/// pairs followed by the pairs of the rest.
pub proof fn lemma_raw_pairs_entries(
    tags: Seq<Seq<char>>,
    vs: Seq<Option<Seq<char>>>,
    rest_text: Seq<char>,
    rest_pairs: Seq<(Seq<char>, Seq<char>)>,
)
    requires
        tags.len() == vs.len(),
        forall|m: int| 0 <= m < tags.len() ==> tag_wf(#[trigger] tags[m]),
        forall|m: int| 0 <= m < vs.len() ==> (#[trigger] vs[m] matches Some(x) ==> value_wf(x)),
        raw_pairs_from(rest_text, 0) == rest_pairs,
    ensures
        raw_pairs_from(entries(tags, vs) + rest_text, 0) == known_pairs(tags, vs) + rest_pairs,
    decreases tags.len(),
{
    if tags.len() == 0 {
        assert(entries(tags, vs) + rest_text =~= rest_text);
        assert(known_pairs(tags, vs) + rest_pairs =~= rest_pairs);
    } else {
        let tags2 = tags.drop_first();
        let vs2 = vs.drop_first();
        assert(forall|m: int| 0 <= m < tags2.len() ==> #[trigger] tags2[m] == tags[m + 1]);
        assert(forall|m: int| 0 <= m < vs2.len() ==> #[trigger] vs2[m] == vs[m + 1]);
        lemma_raw_pairs_entries(tags2, vs2, rest_text, rest_pairs);
        let etail = entries(tags2, vs2);
        assert(entries(tags, vs) + rest_text =~= tag_entry(tags[0], vs[0]) + (etail + rest_text));
        lemma_raw_pairs_entry_opt(tags[0], vs[0], etail + rest_text);
        assert(known_pairs(tags, vs) + rest_pairs =~= (match vs[0] {
            Some(x) => seq![(tags[0], x)],
            None => Seq::<(Seq<char>, Seq<char>)>::empty(),
        }) + (known_pairs(tags2, vs2) + rest_pairs));
    }
}

/// One step of the recursion of `entries`, at position `k` of the lists.
pub proof fn lemma_entries_step(tags: Seq<Seq<char>>, vs: Seq<Option<Seq<char>>>, k: int)
    requires
        tags.len() == vs.len(),
        0 <= k < tags.len(),
    ensures
        entries(tags.skip(k), vs.skip(k)) == tag_entry(tags[k], vs[k]) + entries(
            tags.skip(k + 1),
            vs.skip(k + 1),
        ),
{
    assert(tags.skip(k)[0] == tags[k] && vs.skip(k)[0] == vs[k]);
    assert(tags.skip(k).drop_first() =~= tags.skip(k + 1));
    assert(vs.skip(k).drop_first() =~= vs.skip(k + 1));
}

/// Concatenation of character sequences associates.
pub proof fn lemma_concat_assoc(a: Seq<char>, b: Seq<char>, c: Seq<char>)
    ensures
        (a + b) + c == a + (b + c),
{
    assert((a + b) + c =~= a + (b + c));
}

/// When every key occurs once, collapsing repeated keys changes nothing.
pub proof fn lemma_last_wins_id(ps: Seq<(Seq<char>, Seq<char>)>)
    requires
        keys_unique(ps),
    ensures
        last_wins(ps) == ps,
    decreases ps.len(),
{
    if ps.len() > 0 {
        assert(forall|m: int|
            0 <= m < ps.drop_first().len() ==> #[trigger] ps.drop_first()[m] == ps[m + 1]);
        lemma_last_wins_id(ps.drop_first());
        assert(!key_in(ps.drop_first(), ps[0].0)) by {
            if key_in(ps.drop_first(), ps[0].0) {
                let m = choose|m: int|
                    0 <= m < ps.drop_first().len() && ps.drop_first()[m].0 == ps[0].0;
                assert(ps[m + 1].0 == ps[0].0);
            }
        }
        assert(seq![ps[0]] + ps.drop_first() =~= ps);
    }
}

/// Every pair a field dictionary holds comes from one of its raw pairs,
/// its keys occur once each, and well-formedness carries over.
pub proof fn lemma_last_wins_props(ps: Seq<(Seq<char>, Seq<char>)>)
    ensures
        keys_unique(last_wins(ps)),
        forall|m: int|
            #![trigger last_wins(ps)[m]]
            0 <= m < last_wins(ps).len() ==> exists|n: int|
                0 <= n < ps.len() && last_wins(ps)[m] == ps[n],
    decreases ps.len(),
{
    if ps.len() > 0 {
        let tail = ps.drop_first();
        assert(forall|m: int| 0 <= m < tail.len() ==> #[trigger] tail[m] == ps[m + 1]);
        lemma_last_wins_props(tail);
        let lw = last_wins(ps);
        let lwt = last_wins(tail);
        if key_in(tail, ps[0].0) {
            assert(lw =~= lwt);
            assert forall|m: int| 0 <= m < lw.len() implies exists|n: int|
                0 <= n < ps.len() && #[trigger] lw[m] == ps[n] by {
                let n = choose|n: int| 0 <= n < tail.len() && lwt[m] == tail[n];
                assert(lw[m] == ps[n + 1]);
            }
        } else {
            assert(lw =~= seq![ps[0]] + lwt);
            assert forall|m: int| 0 <= m < lw.len() implies exists|n: int|
                0 <= n < ps.len() && #[trigger] lw[m] == ps[n] by {
                if m == 0 {
                    assert(lw[0] == ps[0]);
                } else {
                    let n = choose|n: int| 0 <= n < tail.len() && lwt[m - 1] == tail[n];
                    assert(lw[m] == ps[n + 1]);
                }
            }
            assert(keys_unique(lw)) by {
                assert forall|m: int, n: int|
                    #![trigger lw[m], lw[n]]
                    0 <= m < n < lw.len() implies lw[m].0 != lw[n].0 by {
                    if m == 0 {
                        let w = choose|w: int| 0 <= w < tail.len() && lwt[n - 1] == tail[w];
                        assert(lw[n] == tail[w]);
                        assert(!key_in(tail, ps[0].0));
                        if lw[n].0 == ps[0].0 {
                            assert(tail[w].0 == ps[0].0);
                            assert(key_in(tail, ps[0].0));
                        }
                    } else {
                        assert(lw[m] == lwt[m - 1] && lw[n] == lwt[n - 1]);
                    }
                }
            }
        }
    }
}

pub proof fn lemma_assoc_get_member(ps: Seq<(Seq<char>, Seq<char>)>, k: Seq<char>)
    ensures
        assoc_get(ps, k) matches Some(x) ==> exists|n: int| 0 <= n < ps.len() && ps[n] == (k, x),
    decreases ps.len(),
{
    if ps.len() > 0 {
        if ps[0].0 == k {
            assert(ps[0] == (k, ps[0].1));
        } else {
            lemma_assoc_get_member(ps.drop_first(), k);
            if assoc_get(ps, k) is Some {
                let x = assoc_get(ps, k)->0;
                let n = choose|n: int|
                    0 <= n < ps.drop_first().len() && ps.drop_first()[n] == (k, x);
                assert(ps[n + 1] == (k, x));
            }
        }
    }
}

proof fn lemma_fragment_pair_wf(s: Seq<char>, from: int, to: int)
    requires
        0 <= from < to <= s.len(),
        forall|k: int| from <= k < to ==> s[k] != '}',
    ensures
        tag_wf(fragment_pair_at(s, from, to).0),
        value_wf(fragment_pair_at(s, from, to).1),
{
    lemma_find_from_spec(s, from + 1, ':');
    let pair = fragment_pair_at(s, from, to);
    assert(!pair.0.contains('}')) by {
        if pair.0.contains('}') {
            let m = choose|m: int| 0 <= m < pair.0.len() && pair.0[m] == '}';
            assert(pair.0[m] == s[from + 1 + m]);
        }
    }
    assert(!pair.0.contains(':')) by {
        if pair.0.contains(':') {
            let m = choose|m: int| 0 <= m < pair.0.len() && pair.0[m] == ':';
            assert(pair.0[m] == s[from + 1 + m]);
        }
    }
    assert(!pair.1.contains('}')) by {
        if pair.1.contains('}') {
            let m = choose|m: int| 0 <= m < pair.1.len() && pair.1[m] == '}';
            match find_from(s, from + 1, ':') {
                Some(j) => {
                    if j < to {
                        assert(pair.1[m] == s[j + 1 + m]);
                    }
                },
                None => {},
            }
        }
    }
}

/// Every raw pair of any block body is well-formed: its key holds no `:`
/// and neither side holds a `}`.
pub proof fn lemma_raw_pairs_wf(s: Seq<char>, i: int)
    requires
        0 <= i,
    ensures
        pairs_wf(raw_pairs_from(s, i)),
    decreases s.len() - i,
{
    if 0 <= i < s.len() {
        lemma_find_from_spec(s, i, '}');
        let r = raw_pairs_from(s, i);
        match find_from(s, i, '}') {
            Some(j) => {
                lemma_raw_pairs_wf(s, j + 1);
                let rest = raw_pairs_from(s, j + 1);
                if j > i {
                    lemma_fragment_pair_wf(s, i, j);
                    assert forall|m: int| #![trigger r[m]] 0 <= m < r.len() implies tag_wf(
                        r[m].0,
                    ) && value_wf(r[m].1) by {
                        if m == 0 {
                            assert(r[0] == fragment_pair_at(s, i, j));
                        } else {
                            assert(r[m] == rest[m - 1]);
                        }
                    }
                } else {
                    assert forall|m: int| #![trigger r[m]] 0 <= m < r.len() implies tag_wf(
                        r[m].0,
                    ) && value_wf(r[m].1) by {
                        assert(r[m] == rest[m]);
                    }
                }
            },
            None => {
                lemma_fragment_pair_wf(s, i, s.len() as int);
                assert(r[0] == fragment_pair_at(s, i, s.len() as int));
            },
        }
    }
}

proof fn lemma_remove_first_key_props(ps: Seq<(Seq<char>, Seq<char>)>, k: Seq<char>)
    ensures
        forall|m: int|
            #![trigger remove_first_key(ps, k)[m]]
            0 <= m < remove_first_key(ps, k).len() ==> exists|n: int|
                0 <= n < ps.len() && remove_first_key(ps, k)[m] == ps[n],
        keys_unique(ps) ==> keys_unique(remove_first_key(ps, k)),
        keys_unique(ps) ==> !key_in(remove_first_key(ps, k), k),
    decreases ps.len(),
{
    if ps.len() > 0 {
        let tail = ps.drop_first();
        assert(forall|m: int| 0 <= m < tail.len() ==> #[trigger] tail[m] == ps[m + 1]);
        let r = remove_first_key(ps, k);
        if ps[0].0 == k {
            assert(r == tail);
            assert forall|m: int| 0 <= m < r.len() implies exists|n: int|
                0 <= n < ps.len() && #[trigger] r[m] == ps[n] by {
                assert(r[m] == ps[m + 1]);
            }
            if keys_unique(ps) {
                assert(!key_in(r, k)) by {
                    if key_in(r, k) {
                        let m = choose|m: int| 0 <= m < r.len() && r[m].0 == k;
                        assert(ps[m + 1].0 == k && ps[0].0 == k);
                    }
                }
            }
        } else {
            lemma_remove_first_key_props(tail, k);
            let rt = remove_first_key(tail, k);
            assert(r == seq![ps[0]] + rt);
            assert forall|m: int| 0 <= m < r.len() implies exists|n: int|
                0 <= n < ps.len() && #[trigger] r[m] == ps[n] by {
                if m == 0 {
                    assert(r[0] == ps[0]);
                } else {
                    assert(r[m] == rt[m - 1]);
                    let n = choose|n: int| 0 <= n < tail.len() && rt[m - 1] == tail[n];
                    assert(r[m] == ps[n + 1]);
                }
            }
            if keys_unique(ps) {
                assert(keys_unique(tail));
                assert(keys_unique(r)) by {
                    assert forall|m: int, n: int|
                        #![trigger r[m], r[n]]
                        0 <= m < n < r.len() implies r[m].0 != r[n].0 by {
                        if m == 0 {
                            assert(r[n] == rt[n - 1]);
                            let w = choose|w: int| 0 <= w < tail.len() && rt[n - 1] == tail[w];
                            assert(r[n] == ps[w + 1]);
                        } else {
                            assert(r[m] == rt[m - 1] && r[n] == rt[n - 1]);
                        }
                    }
                }
                assert(!key_in(r, k)) by {
                    if key_in(r, k) {
                        let m = choose|m: int| 0 <= m < r.len() && r[m].0 == k;
                        if m > 0 {
                            assert(rt[m - 1].0 == k);
                            assert(key_in(rt, k));
                        }
                    }
                }
            }
        }
    }
}

/// Removing a list of keys keeps every surviving pair, keeps keys unique,
/// and leaves none of the removed keys behind.
pub proof fn lemma_remove_keys_props(ps: Seq<(Seq<char>, Seq<char>)>, ks: Seq<Seq<char>>)
    requires
        keys_unique(ps),
    ensures
        keys_unique(remove_keys(ps, ks)),
        forall|m: int|
            #![trigger remove_keys(ps, ks)[m]]
            0 <= m < remove_keys(ps, ks).len() ==> exists|n: int|
                0 <= n < ps.len() && remove_keys(ps, ks)[m] == ps[n],
        forall|m: int| 0 <= m < ks.len() ==> !key_in(remove_keys(ps, ks), #[trigger] ks[m]),
    decreases ks.len(),
{
    let r = remove_keys(ps, ks);
    if ks.len() == 0 {
        assert forall|m: int| 0 <= m < r.len() implies exists|n: int|
            0 <= n < ps.len() && #[trigger] r[m] == ps[n] by {
            assert(r[m] == ps[m]);
        }
    } else {
        lemma_remove_first_key_props(ps, ks[0]);
        let p1 = remove_first_key(ps, ks[0]);
        lemma_remove_keys_props(p1, ks.drop_first());
        assert(forall|m: int| 0 <= m < ks.drop_first().len() ==> #[trigger] ks.drop_first()[m]
            == ks[m + 1]);
        assert(r == remove_keys(p1, ks.drop_first()));
        assert forall|m: int| 0 <= m < r.len() implies exists|n: int|
            0 <= n < ps.len() && #[trigger] r[m] == ps[n] by {
            let w = choose|w: int| 0 <= w < p1.len() && r[m] == p1[w];
            let n = choose|n: int| 0 <= n < ps.len() && p1[w] == ps[n];
            assert(r[m] == ps[n]);
        }
        assert forall|m: int| 0 <= m < ks.len() implies !key_in(r, #[trigger] ks[m]) by {
            if m == 0 {
                if key_in(r, ks[0]) {
                    let w = choose|w: int| 0 <= w < r.len() && r[w].0 == ks[0];
                    let n = choose|n: int| 0 <= n < p1.len() && r[w] == p1[n];
                    assert(p1[n].0 == ks[0]);
                    assert(key_in(p1, ks[0]));
                }
            } else {
                assert(ks.drop_first()[m - 1] == ks[m]);
            }
        }
    }
}

proof fn lemma_known_pairs_keys(tags: Seq<Seq<char>>, vs: Seq<Option<Seq<char>>>)
    ensures
        forall|m: int|
            #![trigger known_pairs(tags, vs)[m]]
            0 <= m < known_pairs(tags, vs).len() ==> tags.contains(known_pairs(tags, vs)[m].0),
    decreases tags.len(),
{
    if tags.len() > 0 && vs.len() > 0 {
        let kp = known_pairs(tags, vs);
        let tags2 = tags.drop_first();
        let vs2 = vs.drop_first();
        lemma_known_pairs_keys(tags2, vs2);
        let kpt = known_pairs(tags2, vs2);
        assert(forall|n: int| 0 <= n < tags2.len() ==> #[trigger] tags2[n] == tags[n + 1]);
        assert forall|m: int| #![trigger kp[m]] 0 <= m < kp.len() implies tags.contains(
            kp[m].0,
        ) by {
            match vs[0] {
                Some(x) => {
                    if m == 0 {
                        assert(kp[0].0 == tags[0]);
                        assert(tags[0] == kp[m].0);
                    } else {
                        assert(kp[m] == kpt[m - 1]);
                        assert(tags2.contains(kpt[m - 1].0));
                        let n = choose|n: int| 0 <= n < tags2.len() && tags2[n] == kpt[m - 1].0;
                        assert(tags[n + 1] == kp[m].0);
                    }
                },
                None => {
                    assert(kp[m] == kpt[m]);
                    assert(tags2.contains(kpt[m].0));
                    let n = choose|n: int| 0 <= n < tags2.len() && tags2[n] == kpt[m].0;
                    assert(tags[n + 1] == kp[m].0);
                },
            }
        }
    }
}

/// With distinct tags, unique unknown keys, and no unknown key equal to a
/// tag, the combined pair list has unique keys throughout.
pub proof fn lemma_combined_unique(
    tags: Seq<Seq<char>>,
    vs: Seq<Option<Seq<char>>>,
    unk: Seq<(Seq<char>, Seq<char>)>,
)
    requires
        tags.len() == vs.len(),
        forall|m: int, n: int| #![trigger tags[m], tags[n]] 0 <= m < n < tags.len() ==> tags[m]
            != tags[n],
        keys_unique(unk),
        forall|m: int| #![trigger unk[m]] 0 <= m < unk.len() ==> !tags.contains(unk[m].0),
    ensures
        keys_unique(known_pairs(tags, vs) + unk),
    decreases tags.len(),
{
    let kp = known_pairs(tags, vs);
    let p = kp + unk;
    if tags.len() == 0 {
        assert(p =~= unk);
    } else {
        let tags2 = tags.drop_first();
        let vs2 = vs.drop_first();
        assert(forall|n: int| 0 <= n < tags2.len() ==> #[trigger] tags2[n] == tags[n + 1]);
        assert forall|m: int| 0 <= m < unk.len() implies !tags2.contains(#[trigger] unk[m].0) by {
            if tags2.contains(unk[m].0) {
                let n = choose|n: int| 0 <= n < tags2.len() && tags2[n] == unk[m].0;
                assert(tags[n + 1] == unk[m].0);
                assert(tags.contains(unk[m].0));
            }
        }
        lemma_combined_unique(tags2, vs2, unk);
        let p2 = known_pairs(tags2, vs2) + unk;
        lemma_known_pairs_keys(tags2, vs2);
        match vs[0] {
            Some(x) => {
                assert(p =~= seq![(tags[0], x)] + p2);
                assert forall|m: int, n: int|
                    #![trigger p[m], p[n]]
                    0 <= m < n < p.len() implies p[m].0 != p[n].0 by {
                    if m == 0 {
                        assert(p[n] == p2[n - 1]);
                        if n - 1 < known_pairs(tags2, vs2).len() {
                            assert(tags2.contains(known_pairs(tags2, vs2)[n - 1].0));
                            let w = choose|w: int|
                                0 <= w < tags2.len() && tags2[w] == known_pairs(tags2, vs2)[n
                                    - 1].0;
                            assert(p[n].0 == tags[w + 1]);
                        } else {
                            let u = p2[n - 1];
                            assert(u == unk[n - 1 - known_pairs(tags2, vs2).len()]);
                            if u.0 == tags[0] {
                                assert(tags.contains(u.0));
                            }
                        }
                    } else {
                        assert(p[m] == p2[m - 1] && p[n] == p2[n - 1]);
                    }
                }
            },
            None => {
                assert(p =~= p2);
            },
        }
    }
}

/// Looking the tags up in their own encoded pairs gives back the values,
/// and removing them leaves exactly the unknown fields.
pub proof fn lemma_extract(
    tags: Seq<Seq<char>>,
    vs: Seq<Option<Seq<char>>>,
    unk: Seq<(Seq<char>, Seq<char>)>,
)
    requires
        tags.len() == vs.len(),
        forall|m: int, n: int| #![trigger tags[m], tags[n]] 0 <= m < n < tags.len() ==> tags[m]
            != tags[n],
        forall|m: int| #![trigger unk[m]] 0 <= m < unk.len() ==> !tags.contains(unk[m].0),
    ensures
        forall|m: int|
            0 <= m < tags.len() ==> assoc_get(known_pairs(tags, vs) + unk, #[trigger] tags[m])
                == vs[m],
        remove_keys(known_pairs(tags, vs) + unk, tags) == unk,
    decreases tags.len(),
{
    let p = known_pairs(tags, vs) + unk;
    if tags.len() == 0 {
        assert(p =~= unk);
        assert(remove_keys(unk, tags) == unk);
    } else {
        let tags2 = tags.drop_first();
        let vs2 = vs.drop_first();
        assert(forall|n: int| 0 <= n < tags2.len() ==> #[trigger] tags2[n] == tags[n + 1]);
        assert(forall|n: int| 0 <= n < vs2.len() ==> #[trigger] vs2[n] == vs[n + 1]);
        assert forall|m: int| 0 <= m < unk.len() implies !tags2.contains(#[trigger] unk[m].0) by {
            if tags2.contains(unk[m].0) {
                let n = choose|n: int| 0 <= n < tags2.len() && tags2[n] == unk[m].0;
                assert(tags[n + 1] == unk[m].0);
                assert(tags.contains(unk[m].0));
            }
        }
        lemma_extract(tags2, vs2, unk);
        let p2 = known_pairs(tags2, vs2) + unk;
        lemma_known_pairs_keys(tags2, vs2);
        // the key of no pair of p2 is tags[0]
        assert forall|m: int| 0 <= m < p2.len() implies #[trigger] p2[m].0 != tags[0] by {
            if m < known_pairs(tags2, vs2).len() {
                assert(tags2.contains(known_pairs(tags2, vs2)[m].0));
                let w = choose|w: int|
                    0 <= w < tags2.len() && tags2[w] == known_pairs(tags2, vs2)[m].0;
                assert(p2[m].0 == tags[w + 1]);
            } else {
                assert(p2[m] == unk[m - known_pairs(tags2, vs2).len()]);
                if p2[m].0 == tags[0] {
                    assert(tags.contains(p2[m].0));
                }
            }
        }
        match vs[0] {
            Some(x) => {
                assert(p =~= seq![(tags[0], x)] + p2);
                assert(p[0] == (tags[0], x));
                assert(p.drop_first() =~= p2);
                assert(assoc_get(p, tags[0]) == Some(x));
                assert(remove_first_key(p, tags[0]) == p2);
            },
            None => {
                assert(p =~= p2);
                lemma_assoc_get_absent(p2, tags[0]);
                assert(assoc_get(p, tags[0]) is None);
                assert(remove_first_key(p, tags[0]) == p2);
            },
        }
        assert forall|m: int|
            0 <= m < tags.len() implies assoc_get(p, #[trigger] tags[m]) == vs[m] by {
            if m > 0 {
                assert(tags[m] == tags2[m - 1]);
                assert(assoc_get(p2, tags2[m - 1]) == vs2[m - 1]);
                match vs[0] {
                    Some(x) => {
                        assert(p[0].0 == tags[0]);
                        assert(tags[0] != tags[m]);
                        assert(assoc_get(p, tags[m]) == assoc_get(p.drop_first(), tags[m]));
                    },
                    None => {},
                }
            }
        }
        assert(remove_keys(p, tags) == remove_keys(p2, tags2));
    }
}

/// Appends `{tag:value}` when the value is present.
pub fn append_tag_entry(ret: &mut String, tag: &str, v: &Option<String>)
    ensures
        final(ret)@ == old(ret)@ + tag_entry(tag@, opt_str_view(*v)),
{
    match v {
        Some(x) => {
            push_char(ret, '{');
            ret.append(tag);
            push_char(ret, ':');
            ret.append(x.as_str());
            push_char(ret, '}');
            proof {
                assert(ret@ =~= old(ret)@ + tag_entry(tag@, opt_str_view(*v)));
            }
        },
        None => {},
    }
}

/// Appends every unknown field as `{tag:value}`, in stored order.
pub fn append_unknown_entries(ret: &mut String, fields: &Vec<(String, String)>)
    ensures
        final(ret)@ == old(ret)@ + unknown_entries(pairs_view(fields@)),
{
    let n = fields.len();
    let mut i: usize = 0;
    proof {
        assert(pairs_view(fields@).skip(0) =~= pairs_view(fields@));
    }
    while i < n
        invariant
            i <= n,
            n == fields@.len(),
            ret@ + unknown_entries(pairs_view(fields@).skip(i as int)) == old(ret)@
                + unknown_entries(pairs_view(fields@)),
        decreases n - i,
    {
        let ghost pv = pairs_view(fields@);
        let ghost before = ret@;
        push_char(ret, '{');
        ret.append(fields[i].0.as_str());
        push_char(ret, ':');
        ret.append(fields[i].1.as_str());
        push_char(ret, '}');
        proof {
            assert(ret@ =~= before + tag_entry(pv[i as int].0, Some(pv[i as int].1)));
            assert(pv.skip(i as int).drop_first() =~= pv.skip(i + 1 as int));
            assert(pv.skip(i as int)[0] == pv[i as int]);
        }
        i = i + 1;
    }
    proof {
        assert(pairs_view(fields@).skip(n as int) =~= Seq::<(Seq<char>, Seq<char>)>::empty());
    }
}

} // verus!
