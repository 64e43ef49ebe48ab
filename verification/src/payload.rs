//! The `key=value` line format of message bodies.
use vstd::prelude::*;
use vstd::utf8::{decode_utf8, encode_utf8, valid_utf8};
use crate::text::{
    append_chars, chars_of, find_first, first_index, has_char, lemma_first_index,
    lemma_lines_scan_plain, lemma_trim_strip_cr, lines, lines_scan, slice_part, split_lines,
    str_of_utf8, string_of, strip_cr, trim, trim_end, trim_start, trimmed, utf8_bytes, views,
    chars_equal, is_whitespace,
};

verus! {

/// The line of one entry: key, `=`, value.
pub open spec fn entry_line(e: (Seq<char>, Seq<char>)) -> Seq<char> {
    e.0 + seq!['='] + e.1
}

/// The entries one per line, each line ended by a line feed.
pub open spec fn payload_text(entries: Seq<(Seq<char>, Seq<char>)>) -> Seq<char>
    decreases entries.len(),
{
    if entries.len() == 0 {
        seq![]
    } else {
        payload_text(entries.drop_last()) + entry_line(entries.last()) + seq!['\n']
    }
}

/// The entries read from lines: blank lines are skipped, every other line is
/// split at its first `=` into a trimmed key and a trimmed value; a line
/// without `=` makes the whole text unreadable.
pub open spec fn pairs_of_lines(ls: Seq<Seq<char>>) -> Option<Seq<(Seq<char>, Seq<char>)>>
    decreases ls.len(),
{
    if ls.len() == 0 {
        Some(seq![])
    } else {
        match pairs_of_lines(ls.drop_last()) {
            None => None,
            Some(p) => {
                let l = ls.last();
                if trim(l).len() == 0 {
                    Some(p)
                } else {
                    match first_index(l, '=') {
                        None => None,
                        Some(i) => Some(p.push((trim(l.take(i)), trim(l.skip(i + 1))))),
                    }
                }
            },
        }
    }
}

/// The entries of a body: present when the body is UTF-8 and every non-blank
/// line holds a `=`.
pub open spec fn payload_pairs(body: Seq<u8>) -> Option<Seq<(Seq<char>, Seq<char>)>> {
    if valid_utf8(body) {
        pairs_of_lines(lines(decode_utf8(body)))
    } else {
        None
    }
}

/// The value of the last entry with the given key (later entries override
/// earlier ones).
pub open spec fn payload_get(pairs: Seq<(Seq<char>, Seq<char>)>, key: Seq<char>) -> Option<
    Seq<char>,
>
    decreases pairs.len(),
{
    if pairs.len() == 0 {
        None
    } else if pairs.last().0 == key {
        Some(pairs.last().1)
    } else {
        payload_get(pairs.drop_last(), key)
    }
}

pub open spec fn pair_views(v: Seq<(Vec<char>, Vec<char>)>) -> Seq<(Seq<char>, Seq<char>)> {
    v.map_values(|p: (Vec<char>, Vec<char>)| (p.0@, p.1@))
}

pub open spec fn entry_views(v: Seq<(&str, String)>) -> Seq<(Seq<char>, Seq<char>)> {
    v.map_values(|e: (&str, String)| (e.0@, e.1@))
}

/// The decimal text of a number.
pub fn decimal_string(n: u64) -> (s: String)
    ensures
        s@ == crate::text::decimal(n as nat),
{
    let mut v: Vec<char> = Vec::new();
    crate::text::push_decimal(&mut v, n);
    assert(v@ =~= crate::text::decimal(n as nat));
    string_of(v.as_slice())
}

/// The body holding the entries, one `key=value` line each, UTF-8 encoded.
pub fn serialize_entries(entries: &[(&str, String)]) -> (b: Vec<u8>)
    ensures
        b@ == encode_utf8(payload_text(entry_views(entries@))),
{
    let mut out: Vec<char> = Vec::new();
    let n = entries.len();
    let ghost all = entry_views(entries@);
    for i in 0..n
        invariant
            n == entries@.len(),
            all == entry_views(entries@),
            out@ == payload_text(all.take(i as int)),
    {
        proof {
            assert(all.take(i + 1).drop_last() =~= all.take(i as int));
            assert(all.take(i + 1).last() == all[i as int]);
        }
        append_chars(&mut out, chars_of(entries[i].0).as_slice());
        out.push('=');
        append_chars(&mut out, chars_of(entries[i].1.as_str()).as_slice());
        out.push('\n');
        assert(out@ =~= payload_text(all.take(i + 1)));
    }
    assert(all.take(n as int) =~= all);
    let text = string_of(out.as_slice());
    utf8_bytes(text.as_str())
}

proof fn lemma_pairs_prefix_none(ls: Seq<Seq<char>>, k: int)
    requires
        0 <= k <= ls.len(),
        pairs_of_lines(ls.take(k)) is None,
    ensures
        pairs_of_lines(ls) is None,
    decreases ls.len() - k,
{
    if k < ls.len() {
        assert(ls.take(k + 1).drop_last() =~= ls.take(k));
        lemma_pairs_prefix_none(ls, k + 1);
    } else {
        assert(ls.take(k) =~= ls);
    }
}

/// The entries of a body, read as `payload_pairs` says.
pub fn parse_entries(body: &[u8]) -> (r: Option<Vec<(Vec<char>, Vec<char>)>>)
    ensures
        match r {
            Some(v) => payload_pairs(body@) == Some(pair_views(v@)),
            None => payload_pairs(body@) is None,
        },
{
    let text = match str_of_utf8(body) {
        Some(t) => t,
        None => return None,
    };
    proof {
        vstd::utf8::encode_utf8_decode_utf8(text@);
    }
    let chars = chars_of(text);
    let ls = split_lines(chars.as_slice());
    let ghost all = views(ls@);
    let mut out: Vec<(Vec<char>, Vec<char>)> = Vec::new();
    let n = ls.len();
    assert(all.take(0) =~= Seq::<Seq<char>>::empty());
    assert(pair_views(out@) =~= Seq::<(Seq<char>, Seq<char>)>::empty());
    for i in 0..n
        invariant
            n == ls@.len(),
            all == views(ls@),
            all == lines(decode_utf8(body@)),
            valid_utf8(body@),
            pairs_of_lines(all.take(i as int)) == Some(pair_views(out@)),
    {
        let line = ls[i].as_slice();
        proof {
            assert(all.take(i + 1).drop_last() =~= all.take(i as int));
            assert(all.take(i + 1).last() == line@);
        }
        let t = trimmed(line);
        if t.len() != 0 {
            proof {
                lemma_first_index(line@, '=');
            }
            match find_first(line, '=') {
                None => {
                    proof {
                        lemma_pairs_prefix_none(all, i + 1);
                    }
                    return None;
                },
                Some(k) => {
                    assert(k < line@.len());
                    let key = trimmed(slice_part(line, 0, k).as_slice());
                    let value = trimmed(slice_part(line, k + 1, line.len()).as_slice());
                    assert(line@.take(k as int) =~= line@.subrange(0, k as int));
                    assert(line@.skip(k + 1) =~= line@.subrange(k + 1, line@.len() as int));
                    let ghost before = pair_views(out@);
                    out.push((key, value));
                    assert(pair_views(out@) =~= before.push((key@, value@)));
                },
            }
        }
    }
    assert(all.take(n as int) =~= all);
    Some(out)
}

/// The value stored under `key`, as `payload_get` says.
pub fn lookup(pairs: &Vec<(Vec<char>, Vec<char>)>, key: &str) -> (r: Option<String>)
    ensures
        match r {
            Some(v) => payload_get(pair_views(pairs@), key@) == Some(v@),
            None => payload_get(pair_views(pairs@), key@) is None,
        },
{
    let k = chars_of(key);
    let mut i = pairs.len();
    let ghost all = pair_views(pairs@);
    assert(all.take(i as int) =~= all);
    while i > 0
        invariant
            i <= pairs@.len(),
            all == pair_views(pairs@),
            k@ == key@,
            payload_get(all, key@) == payload_get(all.take(i as int), key@),
        decreases i,
    {
        let ghost t = all.take(i as int);
        assert(t.drop_last() =~= all.take(i - 1));
        assert(t.last() == all[i - 1]);
        assert(all[i - 1] == (pairs@[i - 1].0@, pairs@[i - 1].1@));
        if chars_equal(pairs[i - 1].0.as_slice(), k.as_slice()) {
            return Some(string_of(pairs[i - 1].1.as_slice()));
        }
        i = i - 1;
    }
    assert(all.take(0) =~= Seq::<(Seq<char>, Seq<char>)>::empty());
    None
}

/// An entry that survives a round trip through the line format: its key has
/// neither `=` nor a line feed, its value no line feed.
pub open spec fn plain_entry(e: (Seq<char>, Seq<char>)) -> bool {
    !has_char(e.0, '=') && !has_char(e.0, '\n') && !has_char(e.1, '\n')
}

/// The entries with keys and values trimmed.
pub open spec fn trimmed_entries(entries: Seq<(Seq<char>, Seq<char>)>) -> Seq<
    (Seq<char>, Seq<char>),
> {
    entries.map_values(|e: (Seq<char>, Seq<char>)| (trim(e.0), trim(e.1)))
}

proof fn lemma_entry_line_plain(e: (Seq<char>, Seq<char>))
    requires
        plain_entry(e),
    ensures
        !has_char(entry_line(e), '\n'),
{
    let l = entry_line(e);
    if has_char(l, '\n') {
        let k = choose|k: int| 0 <= k < l.len() && l[k] == '\n';
        if k < e.0.len() {
            assert(l[k] == e.0[k]);
        } else if k > e.0.len() {
            assert(l[k] == e.1[k - e.0.len() - 1]);
        }
    }
}

proof fn lemma_lines_scan_payload(entries: Seq<(Seq<char>, Seq<char>)>)
    requires
        forall|i: int| 0 <= i < entries.len() ==> plain_entry(#[trigger] entries[i]),
    ensures
        lines_scan(payload_text(entries)) == (
            entries.map_values(|e: (Seq<char>, Seq<char>)| strip_cr(entry_line(e))),
            Seq::<char>::empty(),
        ),
    decreases entries.len(),
{
    if entries.len() > 0 {
        let init = entries.drop_last();
        assert forall|i: int| 0 <= i < init.len() implies plain_entry(#[trigger] init[i]) by {
            assert(init[i] == entries[i]);
        }
        lemma_lines_scan_payload(init);
        let p = payload_text(init);
        let l = entry_line(entries.last());
        assert(plain_entry(entries[entries.len() - 1]));
        lemma_entry_line_plain(entries.last());
        lemma_lines_scan_plain(p, l);
        let pl = p + l;
        let t = pl + seq!['\n'];
        assert(t.drop_last() =~= pl);
        assert(payload_text(entries) == t);
        assert(entries.map_values(|e: (Seq<char>, Seq<char>)| strip_cr(entry_line(e))) =~= init.map_values(
            |e: (Seq<char>, Seq<char>)| strip_cr(entry_line(e)),
        ).push(strip_cr(l)));
    } else {
        assert(entries.map_values(|e: (Seq<char>, Seq<char>)| strip_cr(entry_line(e))) =~= Seq::<
            Seq<char>,
        >::empty());
    }
}

proof fn lemma_pair_of_line(e: (Seq<char>, Seq<char>))
    requires
        plain_entry(e),
    ensures
        ({
            let l = strip_cr(entry_line(e));
            &&& trim(l).len() != 0
            &&& first_index(l, '=') == Some(e.0.len() as int)
            &&& trim(l.take(e.0.len() as int)) == trim(e.0)
            &&& trim(l.skip(e.0.len() as int + 1)) == trim(e.1)
        }),
{
    let line = entry_line(e);
    let l = strip_cr(line);
    let k = e.0.len() as int;
    assert(line[k] == '=');
    assert(l.len() > k);
    assert(l[k] == '=') by {
        if line.len() > 0 && line.last() == '\r' {
            assert(l[k] == line[k]);
        }
    }
    assert forall|j: int| 0 <= j < k implies l[j] != '=' by {
        assert(l[j] == line[j]);
        assert(line[j] == e.0[j]);
    }
    lemma_first_index(l, '=');
    assert(first_index(l, '=') == Some(k));
    assert(l.take(k) =~= e.0);
    if e.1.len() > 0 && e.1.last() == '\r' {
        assert(line.last() == '\r');
        assert(l.skip(k + 1) =~= e.1.drop_last());
        assert(strip_cr(e.1) == e.1.drop_last());
    } else {
        assert(l == line);
        assert(l.skip(k + 1) =~= e.1);
    }
    lemma_trim_strip_cr(e.1);
    // A line holding `=` is not blank.
    if trim(l).len() == 0 {
        lemma_trim_keeps(l, k);
    }
}

/// A character that is not whitespace survives trimming.
proof fn lemma_trim_keeps(s: Seq<char>, k: int)
    requires
        0 <= k < s.len(),
        !is_whitespace(s[k]),
    ensures
        trim(s).len() > 0,
{
    lemma_trim_start_keeps(s, k);
    let t = trim_start(s);
    let j = t.len() - 1;
    lemma_trim_end_nonempty(t);
}

proof fn lemma_trim_start_keeps(s: Seq<char>, k: int)
    requires
        0 <= k < s.len(),
        !is_whitespace(s[k]),
    ensures
        trim_start(s).len() > 0,
        !is_whitespace(trim_start(s)[0]),
    decreases s.len(),
{
    if is_whitespace(s[0]) {
        assert(s.drop_first()[k - 1] == s[k]);
        lemma_trim_start_keeps(s.drop_first(), k - 1);
    }
}

proof fn lemma_trim_end_nonempty(t: Seq<char>)
    requires
        t.len() > 0,
        !is_whitespace(t[0]),
    ensures
        trim_end(t).len() > 0,
    decreases t.len(),
{
    if is_whitespace(t.last()) {
        assert(t.len() > 1);
        assert(t.drop_last()[0] == t[0]);
        lemma_trim_end_nonempty(t.drop_last());
    }
}

/// Reading back written entries gives them trimmed, when no key holds `=` or
/// a line feed and no value a line feed.
pub proof fn lemma_payload_roundtrip(entries: Seq<(Seq<char>, Seq<char>)>)
    requires
        forall|i: int| 0 <= i < entries.len() ==> plain_entry(#[trigger] entries[i]),
    ensures
        payload_pairs(encode_utf8(payload_text(entries))) == Some(trimmed_entries(entries)),
{
    let t = payload_text(entries);
    vstd::utf8::encode_utf8_valid_utf8(t);
    vstd::utf8::encode_utf8_decode_utf8(t);
    lemma_lines_scan_payload(entries);
    lemma_pairs_of_payload_lines(entries);
}

proof fn lemma_pairs_of_payload_lines(entries: Seq<(Seq<char>, Seq<char>)>)
    requires
        forall|i: int| 0 <= i < entries.len() ==> plain_entry(#[trigger] entries[i]),
    ensures
        pairs_of_lines(entries.map_values(|e: (Seq<char>, Seq<char>)| strip_cr(entry_line(e))))
            == Some(trimmed_entries(entries)),
    decreases entries.len(),
{
    let ls = entries.map_values(|e: (Seq<char>, Seq<char>)| strip_cr(entry_line(e)));
    if entries.len() == 0 {
        assert(trimmed_entries(entries) =~= Seq::<(Seq<char>, Seq<char>)>::empty());
    } else {
        let init = entries.drop_last();
        assert forall|i: int| 0 <= i < init.len() implies plain_entry(#[trigger] init[i]) by {
            assert(init[i] == entries[i]);
        }
        lemma_pairs_of_payload_lines(init);
        assert(ls.drop_last() =~= init.map_values(
            |e: (Seq<char>, Seq<char>)| strip_cr(entry_line(e)),
        ));
        let e = entries.last();
        assert(plain_entry(entries[entries.len() - 1]));
        lemma_pair_of_line(e);
        assert(ls.last() == strip_cr(entry_line(e)));
        assert(trimmed_entries(entries) =~= trimmed_entries(init).push((trim(e.0), trim(e.1))));
    }
}

/// A key that reads back as itself: its own trim, with neither `=` nor a line
/// feed.
pub open spec fn plain_key(k: Seq<char>) -> bool {
    trim(k) == k && !has_char(k, '=') && !has_char(k, '\n')
}

/// A key made of ASCII lower-case letters and underscores is plain.
pub proof fn lemma_plain_key(k: Seq<char>)
    requires
        k.len() > 0,
        forall|i: int| 0 <= i < k.len() ==> ('a' <= #[trigger] k[i] <= 'z' || k[i] == '_'),
    ensures
        plain_key(k),
{
    crate::text::lemma_trim_id(k);
    assert(!has_char(k, '=')) by {
        if has_char(k, '=') {
            let j = choose|j: int| 0 <= j < k.len() && k[j] == '=';
            assert('a' <= k[j] <= 'z' || k[j] == '_');
        }
    }
    assert(!has_char(k, '\n')) by {
        if has_char(k, '\n') {
            let j = choose|j: int| 0 <= j < k.len() && k[j] == '\n';
            assert('a' <= k[j] <= 'z' || k[j] == '_');
        }
    }
}

} // verus!
