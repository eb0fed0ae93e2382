//! The plaintext record format inside the encrypted container: one
//! `key:value` line per entry, newline-terminated.
//!
//! A line is well-formed when it holds exactly one `:`; any other line is
//! skipped on parsing. Serializing a collection whose keys and values are
//! free of `:` and newline and parsing the text back yields the collection
//! unchanged ([`lemma_parse_serialize_pairs`]).

use vstd::prelude::*;
use vstd::string::StrSliceExecFns;
use vstd::string::StringExecFns;

verus! {

/// Index of the first occurrence of `c` in `s`, or `s.len()` when `c` is
/// absent.
pub open spec fn find_char(s: Seq<char>, c: char) -> int
    decreases s.len(),
{
    if s.len() == 0 {
        0
    } else if s[0] == c {
        0
    } else {
        1 + find_char(s.drop_first(), c)
    }
}

pub proof fn lemma_find_char_props(s: Seq<char>, c: char)
    ensures
        0 <= find_char(s, c) <= s.len(),
        find_char(s, c) < s.len() ==> s[find_char(s, c)] == c,
        forall|j: int| 0 <= j < find_char(s, c) ==> s[j] != c,
    decreases s.len(),
{
    if s.len() != 0 && s[0] != c {
        lemma_find_char_props(s.drop_first(), c);
        assert forall|j: int| 0 <= j < find_char(s, c) implies s[j] != c by {
            if j > 0 {
                assert(s.drop_first()[j - 1] == s[j]);
            }
        }
    }
}

/// `find_char` is pinned down by the position of a first occurrence.
pub proof fn lemma_find_char_at(s: Seq<char>, c: char, i: int)
    requires
        0 <= i <= s.len(),
        i < s.len() ==> s[i] == c,
        forall|j: int| 0 <= j < i ==> s[j] != c,
    ensures
        find_char(s, c) == i,
    decreases s.len(),
{
    if s.len() == 0 {
    } else if s[0] == c {
        assert(i == 0);
    } else {
        assert(i > 0);
        let t = s.drop_first();
        assert(i - 1 < t.len() ==> t[i - 1] == s[i]);
        assert forall|j: int| 0 <= j < i - 1 implies t[j] != c by {
            assert(t[j] == s[j + 1]);
        }
        lemma_find_char_at(t, c, i - 1);
    }
}

/// The serialized text of one entry.
pub open spec fn record_text(k: Seq<char>, v: Seq<char>) -> Seq<char> {
    k + seq![':'] + v + seq!['\n']
}

/// The serialized text of a whole sequence of entries.
pub open spec fn serialize_pairs(pairs: Seq<(Seq<char>, Seq<char>)>) -> Seq<char>
    decreases pairs.len(),
{
    if pairs.len() == 0 {
        Seq::empty()
    } else {
        record_text(pairs[0].0, pairs[0].1) + serialize_pairs(pairs.drop_first())
    }
}

pub proof fn lemma_serialize_pairs_push(pairs: Seq<(Seq<char>, Seq<char>)>, k: Seq<char>, v: Seq<char>)
    ensures
        serialize_pairs(pairs.push((k, v))) == serialize_pairs(pairs) + record_text(k, v),
    decreases pairs.len(),
{
    if pairs.len() == 0 {
        assert(pairs.push((k, v))[0] == (k, v));
        assert(pairs.push((k, v)).drop_first() =~= Seq::<(Seq<char>, Seq<char>)>::empty());
        assert(serialize_pairs(pairs.push((k, v))) == record_text(k, v) + serialize_pairs(
            Seq::<(Seq<char>, Seq<char>)>::empty(),
        ));
        assert(serialize_pairs(pairs.push((k, v))) =~= serialize_pairs(pairs) + record_text(k, v));
    } else {
        assert(pairs.push((k, v))[0] == pairs[0]);
        assert(pairs.push((k, v)).drop_first() =~= pairs.drop_first().push((k, v)));
        lemma_serialize_pairs_push(pairs.drop_first(), k, v);
        assert(serialize_pairs(pairs.push((k, v))) =~= serialize_pairs(pairs) + record_text(k, v));
    }
}

/// Splits a line into its key and value when it holds exactly one `:`.
pub open spec fn split_line(line: Seq<char>) -> Option<(Seq<char>, Seq<char>)> {
    let i = find_char(line, ':');
    if i < line.len() && find_char(line.subrange(i + 1, line.len() as int), ':') == line.len() - i
        - 1 {
        Some((line.subrange(0, i), line.subrange(i + 1, line.len() as int)))
    } else {
        None
    }
}

/// The entries described by a text: one candidate entry per line, lines that
/// do not split into exactly two parts skipped.
pub open spec fn parse_pairs(s: Seq<char>) -> Seq<(Seq<char>, Seq<char>)>
    decreases s.len(),
    via parse_pairs_decreases
{
    if s.len() == 0 {
        Seq::empty()
    } else {
        let n = find_char(s, '\n');
        let line = s.subrange(0, n);
        let rest = if n == s.len() {
            Seq::<char>::empty()
        } else {
            s.subrange(n + 1, s.len() as int)
        };
        match split_line(line) {
            Some(p) => seq![p] + parse_pairs(rest),
            None => parse_pairs(rest),
        }
    }
}

#[via_fn]
proof fn parse_pairs_decreases(s: Seq<char>) {
    lemma_find_char_props(s, '\n');
}

/// True when the text holds neither the record delimiter nor a newline.
pub open spec fn text_clean(s: Seq<char>) -> bool {
    forall|i: int| 0 <= i < s.len() ==> s[i] != ':' && s[i] != '\n'
}

/// True when every key and value in the sequence is clean.
pub open spec fn pairs_clean(pairs: Seq<(Seq<char>, Seq<char>)>) -> bool {
    forall|i: int|
        0 <= i < pairs.len() ==> text_clean((#[trigger] pairs[i]).0) && text_clean(pairs[i].1)
}

/// Parsing a text that begins with one clean record yields that record
/// followed by whatever the remainder parses to.
proof fn lemma_parse_record_prefix(k: Seq<char>, v: Seq<char>, t: Seq<char>)
    requires
        text_clean(k),
        text_clean(v),
    ensures
        parse_pairs(record_text(k, v) + t) == seq![(k, v)] + parse_pairs(t),
{
    let s = record_text(k, v) + t;
    let n = k.len() + 1 + v.len() as int;
    assert(s.len() == n + 1 + t.len());
    assert(s[n] == '\n');
    assert forall|j: int| 0 <= j < n implies s[j] != '\n' by {
        if j < k.len() {
            assert(s[j] == k[j]);
        } else if j == k.len() {
            assert(s[j] == ':');
        } else {
            assert(s[j] == v[j - k.len() - 1]);
        }
    }
    lemma_find_char_at(s, '\n', n);
    let line = s.subrange(0, n);
    assert(line =~= k + seq![':'] + v);
    assert(s.subrange(n + 1, s.len() as int) =~= t);
    // the line splits exactly at the delimiter between key and value
    assert(line[k.len() as int] == ':');
    assert forall|j: int| 0 <= j < k.len() implies line[j] != ':' by {
        assert(line[j] == k[j]);
    }
    lemma_find_char_at(line, ':', k.len() as int);
    let tail = line.subrange(k.len() as int + 1, line.len() as int);
    assert(tail =~= v);
    lemma_find_char_at(tail, ':', tail.len() as int);
    assert(split_line(line) == Some((line.subrange(0, k.len() as int), tail)));
    assert(line.subrange(0, k.len() as int) =~= k);
}

/// Law: parsing inverts serialization. A collection whose keys and values
/// hold neither `:` nor a newline is recovered exactly, entry for entry and
/// in order, from its serialized text.
pub proof fn lemma_parse_serialize_pairs(pairs: Seq<(Seq<char>, Seq<char>)>)
    requires
        pairs_clean(pairs),
    ensures
        parse_pairs(serialize_pairs(pairs)) == pairs,
    decreases pairs.len(),
{
    if pairs.len() == 0 {
        assert(parse_pairs(serialize_pairs(pairs)) =~= pairs);
    } else {
        let rest = pairs.drop_first();
        assert(pairs[0] == (pairs[0].0, pairs[0].1));
        lemma_parse_record_prefix(pairs[0].0, pairs[0].1, serialize_pairs(rest));
        assert forall|i: int| 0 <= i < rest.len() implies text_clean((#[trigger] rest[i]).0)
            && text_clean(rest[i].1) by {
            assert(rest[i] == pairs[i + 1]);
        }
        lemma_parse_serialize_pairs(rest);
        assert(seq![(pairs[0].0, pairs[0].1)] + rest =~= pairs);
    }
}

/// First index at or after `from` where the text holds `c`, or the text's
/// length when there is none.
pub(crate) fn find_char_from(s: &str, from: usize, len: usize, c: char) -> (r: usize)
    requires
        len == s@.len(),
        from <= len,
    ensures
        from <= r <= len,
        r < len ==> s@[r as int] == c,
        forall|j: int| from <= j < r ==> s@[j] != c,
{
    let mut i = from;
    while i < len
        invariant
            from <= i <= len,
            len == s@.len(),
            forall|j: int| from <= j < i ==> s@[j] != c,
        decreases len - i,
    {
        if s.get_char(i) == c {
            return i;
        }
        i = i + 1;
    }
    i
}

/// Split one line into key and value if it holds exactly one `:`.
pub(crate) fn split_line_exec(line: &str) -> (r: Option<(String, String)>)
    ensures
        r is Some <==> split_line(line@) is Some,
        r matches Some(p) ==> split_line(line@) == Some((p.0@, p.1@)),
{
    let n = line.unicode_len();
    let i = find_char_from(line, 0, n, ':');
    proof {
        lemma_find_char_at(line@, ':', i as int);
    }
    if i < n {
        let j = find_char_from(line, i + 1, n, ':');
        proof {
            let tail = line@.subrange(i + 1, n as int);
            assert(j < n ==> tail[j - i - 1] == line@[j as int]);
            assert forall|y: int| 0 <= y < j - i - 1 implies tail[y] != ':' by {
                assert(tail[y] == line@[i + 1 + y]);
            }
            lemma_find_char_at(tail, ':', j - i - 1);
        }
        if j == n {
            let key = String::from_str(line.substring_char(0, i));
            let value = String::from_str(line.substring_char(i + 1, n));
            Some((key, value))
        } else {
            None
        }
    } else {
        None
    }
}

} // verus!
