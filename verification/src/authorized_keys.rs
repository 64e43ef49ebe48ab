//! The block of an `authorized_keys` file that this tool manages, between a
//! begin and an end marker line; every line outside it is kept.
use vstd::prelude::*;
use crate::ssh_keys::{lemma_normalized_line, normalize_key_spec, normalize_public_key};
use crate::text::{
    chars_equal, chars_of, join, join_parts, lines, slice_part, split_lines, string_of, trim,
    trimmed, views, lemma_views_push, has_char, ends_with_cr, lemma_lines_of_join,
    lemma_lines_no_newline, lemma_trim_id, is_whitespace,
};

verus! {

#[derive(Debug, Clone, PartialEq, Eq)]
pub enum AuthorizedKeysError {
    MissingManagedEnd,
    InvalidPublicKey,
    ReadFailed(String),
    WriteFailed(String),
    SyncFailed(String),
    RenameFailed(String),
    SetPermissionsFailed(String),
}

/// The line that opens the managed block.
pub open spec fn managed_begin() -> Seq<char> {
    "# ssh-key-sync begin"@
}

/// The line that closes the managed block.
pub open spec fn managed_end() -> Seq<char> {
    "# ssh-key-sync end"@
}

/// The keys normalised, each kept once, in order of first appearance; an
/// error when some key is not a valid public key line.
pub open spec fn normalized_keys(keys: Seq<Seq<char>>) -> Result<Seq<Seq<char>>, AuthorizedKeysError>
    decreases keys.len(),
{
    if keys.len() == 0 {
        Ok(seq![])
    } else {
        match normalized_keys(keys.drop_last()) {
            Err(e) => Err(e),
            Ok(ks) => match normalize_key_spec(keys.last()) {
                Err(_) => Err(AuthorizedKeysError::InvalidPublicKey),
                Ok(n) => if ks.contains(n) {
                    Ok(ks)
                } else {
                    Ok(ks.push(n))
                },
            },
        }
    }
}

/// The position of the first line that is `marker` once trimmed.
pub open spec fn first_marker(ls: Seq<Seq<char>>, marker: Seq<char>) -> Option<int>
    decreases ls.len(),
{
    if ls.len() == 0 {
        None
    } else {
        match first_marker(ls.drop_last(), marker) {
            Some(i) => Some(i),
            None => if trim(ls.last()) == marker {
                Some(ls.len() - 1)
            } else {
                None
            },
        }
    }
}

/// The managed block holding the given key lines.
pub open spec fn managed_block(keys: Seq<Seq<char>>) -> Seq<Seq<char>> {
    seq![managed_begin()] + keys + seq![managed_end()]
}

/// The lines of the updated file: with both markers present, everything from
/// the first begin marker to the first end marker is replaced by the block;
/// with no begin marker, the block is appended after an empty line (unless
/// the last line is already empty); a begin marker with no end marker is an
/// error.
pub open spec fn upsert_lines(ls: Seq<Seq<char>>, keys: Seq<Seq<char>>) -> Result<
    Seq<Seq<char>>,
    AuthorizedKeysError,
> {
    let b = first_marker(ls, managed_begin());
    let e = first_marker(ls, managed_end());
    if b is Some && e is None {
        Err(AuthorizedKeysError::MissingManagedEnd)
    } else if b is Some && e is Some {
        Ok(ls.take(b->0) + managed_block(keys) + ls.skip(e->0 + 1))
    } else {
        let pad: Seq<Seq<char>> = if ls.len() > 0 && ls.last().len() != 0 {
            seq![seq![]]
        } else {
            seq![]
        };
        Ok(ls + pad + managed_block(keys))
    }
}

/// What updating a file's content with a set of managed keys gives.
pub open spec fn upsert_spec(existing: Seq<char>, keys: Seq<Seq<char>>) -> Result<
    Seq<char>,
    AuthorizedKeysError,
> {
    match normalized_keys(keys) {
        Err(e) => Err(e),
        Ok(ks) => match upsert_lines(lines(existing), ks) {
            Err(e) => Err(e),
            Ok(out) => Ok(join(out, seq!['\n'])),
        },
    }
}

/// The character sequences of a slice of strings.
pub open spec fn string_views(v: Seq<String>) -> Seq<Seq<char>> {
    v.map_values(|s: String| s@)
}

fn contains_line(ls: &Vec<Vec<char>>, x: &[char]) -> (b: bool)
    ensures
        b == views(ls@).contains(x@),
{
    let n = ls.len();
    for i in 0..n
        invariant
            n == ls@.len(),
            forall|j: int| 0 <= j < i ==> views(ls@)[j] != x@,
    {
        if chars_equal(ls[i].as_slice(), x) {
            assert(views(ls@)[i as int] == x@);
            return true;
        }
    }
    false
}

fn normalize_and_dedup(managed_keys: &[String]) -> (r: Result<Vec<Vec<char>>, AuthorizedKeysError>)
    ensures
        match r {
            Ok(v) => normalized_keys(string_views(managed_keys@)) == Ok::<
                Seq<Seq<char>>,
                AuthorizedKeysError,
            >(views(v@)),
            Err(e) => normalized_keys(string_views(managed_keys@)) == Err::<
                Seq<Seq<char>>,
                AuthorizedKeysError,
            >(e),
        },
{
    let mut output: Vec<Vec<char>> = Vec::new();
    let n = managed_keys.len();
    let ghost all = string_views(managed_keys@);
    assert(all.take(0) =~= Seq::<Seq<char>>::empty());
    assert(views(output@) =~= Seq::<Seq<char>>::empty());
    for i in 0..n
        invariant
            n == managed_keys@.len(),
            all == string_views(managed_keys@),
            normalized_keys(all.take(i as int)) == Ok::<Seq<Seq<char>>, AuthorizedKeysError>(
                views(output@),
            ),
    {
        proof {
            assert(all.take(i + 1).drop_last() =~= all.take(i as int));
            assert(all.take(i + 1).last() == managed_keys@[i as int]@);
        }
        let normalized = match normalize_public_key(managed_keys[i].as_str()) {
            Ok(s) => s,
            Err(_) => {
                proof {
                    lemma_normalized_keys_prefix_err(all, i + 1);
                }
                return Err(AuthorizedKeysError::InvalidPublicKey);
            },
        };
        let line = chars_of(normalized.as_str());
        if !contains_line(&output, line.as_slice()) {
            proof {
                lemma_views_push(output@, line);
            }
            output.push(line);
        }
    }
    assert(all.take(n as int) =~= all);
    Ok(output)
}

proof fn lemma_normalized_keys_prefix_err(keys: Seq<Seq<char>>, k: int)
    requires
        0 <= k <= keys.len(),
        normalized_keys(keys.take(k)) is Err,
    ensures
        normalized_keys(keys) == Err::<Seq<Seq<char>>, AuthorizedKeysError>(
            AuthorizedKeysError::InvalidPublicKey,
        ),
    decreases keys.len() - k,
{
    lemma_normalized_keys_err_kind(keys.take(k));
    if k < keys.len() {
        assert(keys.take(k + 1).drop_last() =~= keys.take(k));
        lemma_normalized_keys_prefix_err(keys, k + 1);
    } else {
        assert(keys.take(k) =~= keys);
    }
}

proof fn lemma_normalized_keys_err_kind(keys: Seq<Seq<char>>)
    ensures
        normalized_keys(keys) is Err ==> normalized_keys(keys) == Err::<
            Seq<Seq<char>>,
            AuthorizedKeysError,
        >(AuthorizedKeysError::InvalidPublicKey),
    decreases keys.len(),
{
    if keys.len() > 0 {
        lemma_normalized_keys_err_kind(keys.drop_last());
    }
}

proof fn lemma_first_marker(ls: Seq<Seq<char>>, m: Seq<char>)
    ensures
        first_marker(ls, m) matches Some(i) ==> 0 <= i < ls.len() && trim(ls[i]) == m && forall|j: int|
            0 <= j < i ==> trim(#[trigger] ls[j]) != m,
        first_marker(ls, m) is None ==> forall|j: int| 0 <= j < ls.len() ==> trim(#[trigger] ls[j]) != m,
    decreases ls.len(),
{
    if ls.len() > 0 {
        lemma_first_marker(ls.drop_last(), m);
        assert forall|j: int| 0 <= j < ls.len() - 1 implies ls.drop_last()[j] == ls[j] by {}
    }
}

fn find_marker(ls: &Vec<Vec<char>>, m: &[char]) -> (r: Option<usize>)
    ensures
        r matches Some(i) ==> first_marker(views(ls@), m@) == Some(i as int),
        r is None ==> first_marker(views(ls@), m@) is None,
{
    proof {
        lemma_first_marker(views(ls@), m@);
    }
    let n = ls.len();
    for i in 0..n
        invariant
            n == ls@.len(),
            forall|j: int| 0 <= j < i ==> trim(#[trigger] views(ls@)[j]) != m@,
            first_marker(views(ls@), m@) matches Some(k) ==> 0 <= k < n && trim(views(ls@)[k])
                == m@ && forall|j: int| 0 <= j < k ==> trim(#[trigger] views(ls@)[j]) != m@,
            first_marker(views(ls@), m@) is None ==> forall|j: int|
                0 <= j < n ==> trim(#[trigger] views(ls@)[j]) != m@,
    {
        let t = trimmed(ls[i].as_slice());
        assert(views(ls@)[i as int] == ls@[i as int]@);
        if chars_equal(t.as_slice(), m) {
            return Some(i);
        }
    }
    None
}

fn push_copies(out: &mut Vec<Vec<char>>, ls: &Vec<Vec<char>>, from: usize, to: usize)
    requires
        from <= to <= ls@.len(),
    ensures
        views(final(out)@) == views(old(out)@) + views(ls@).subrange(from as int, to as int),
{
    let mut i = from;
    while i < to
        invariant
            from <= i <= to <= ls@.len(),
            views(out@) == views(old(out)@) + views(ls@).subrange(from as int, i as int),
        decreases to - i,
    {
        let l = ls[i].as_slice();
        let copy = slice_part(l, 0, l.len());
        assert(copy@ =~= l@);
        proof {
            lemma_views_push(out@, copy);
        }
        out.push(copy);
        i = i + 1;
        assert(views(out@) =~= views(old(out)@) + views(ls@).subrange(from as int, i as int));
    }
}

fn append_managed_block(output_lines: &mut Vec<Vec<char>>, keys: &Vec<Vec<char>>)
    ensures
        views(final(output_lines)@) == views(old(output_lines)@) + managed_block(views(keys@)),
{
    let b = chars_of("# ssh-key-sync begin");
    proof {
        lemma_views_push(output_lines@, b);
    }
    output_lines.push(b);
    push_copies(output_lines, keys, 0, keys.len());
    let e = chars_of("# ssh-key-sync end");
    proof {
        lemma_views_push(output_lines@, e);
    }
    output_lines.push(e);
    assert(views(keys@).subrange(0, keys@.len() as int) =~= views(keys@));
    assert(views(output_lines@) =~= views(old(output_lines)@) + managed_block(views(keys@)));
}

/// Replaces (or adds) the managed block of an `authorized_keys` text with the
/// given keys, normalised and without repeats; every other line is kept.
pub fn upsert_managed_block(existing_content: &str, managed_keys: &[String]) -> (r: Result<
    String,
    AuthorizedKeysError,
>)
    ensures
        match r {
            Ok(s) => upsert_spec(existing_content@, string_views(managed_keys@)) == Ok::<
                Seq<char>,
                AuthorizedKeysError,
            >(s@),
            Err(e) => upsert_spec(existing_content@, string_views(managed_keys@)) == Err::<
                Seq<char>,
                AuthorizedKeysError,
            >(e),
        },
{
    let normalized_keys = match normalize_and_dedup(managed_keys) {
        Ok(v) => v,
        Err(e) => return Err(e),
    };
    let text = chars_of(existing_content);
    let lines = split_lines(text.as_slice());
    let begin_index = find_marker(&lines, chars_of("# ssh-key-sync begin").as_slice());
    let end_index = find_marker(&lines, chars_of("# ssh-key-sync end").as_slice());
    if begin_index.is_some() && end_index.is_none() {
        return Err(AuthorizedKeysError::MissingManagedEnd);
    }
    let ghost ls = views(lines@);
    proof {
        lemma_first_marker(ls, managed_begin());
        lemma_first_marker(ls, managed_end());
    }
    let mut output_lines: Vec<Vec<char>> = Vec::new();
    match (begin_index, end_index) {
        (Some(begin), Some(end)) => {
            push_copies(&mut output_lines, &lines, 0, begin);
            append_managed_block(&mut output_lines, &normalized_keys);
            push_copies(&mut output_lines, &lines, end + 1, lines.len());
            assert(views(output_lines@) =~= ls.take(begin as int) + managed_block(
                views(normalized_keys@),
            ) + ls.skip(end + 1));
        },
        _ => {
            push_copies(&mut output_lines, &lines, 0, lines.len());
            assert(views(output_lines@) =~= ls);
            let n = output_lines.len();
            if n > 0 && output_lines[n - 1].len() != 0 {
                let empty: Vec<char> = Vec::new();
                proof {
                    lemma_views_push(output_lines@, empty);
                }
                output_lines.push(empty);
            }
            let ghost before = views(output_lines@);
            append_managed_block(&mut output_lines, &normalized_keys);
            assert(before =~= ls + (if ls.len() > 0 && ls.last().len() != 0 {
                seq![Seq::<char>::empty()]
            } else {
                Seq::<Seq<char>>::empty()
            }));
        },
    }
    let sep: Vec<char> = vec!['\n'];
    assert(sep@ =~= seq!['\n']);
    let joined = join_parts(output_lines.as_slice(), 0, sep.as_slice());
    assert(views(output_lines@).skip(0) =~= views(output_lines@));
    Ok(string_of(joined.as_slice()))
}

/// A line that may stand in the managed block as a key: not empty, its own
/// trim, starting with a letter, and free of line feeds and carriage returns.
pub open spec fn is_key_line(k: Seq<char>) -> bool {
    &&& k.len() > 0
    &&& trim(k) == k
    &&& (k[0] == 's' || k[0] == 'e')
    &&& !has_char(k, '\n')
    &&& !has_char(k, '\r')
}

proof fn lemma_normalized_keys_lines(keys: Seq<Seq<char>>)
    requires
        normalized_keys(keys) is Ok,
    ensures
        forall|i: int|
            0 <= i < normalized_keys(keys)->Ok_0.len() ==> is_key_line(
                #[trigger] normalized_keys(keys)->Ok_0[i],
            ),
    decreases keys.len(),
{
    if keys.len() > 0 {
        lemma_normalized_keys_lines(keys.drop_last());
        let ks = normalized_keys(keys.drop_last())->Ok_0;
        lemma_normalized_line(keys.last());
        let n = normalize_key_spec(keys.last())->Ok_0;
        if !ks.contains(n) {
            assert forall|i: int| 0 <= i < ks.push(n).len() implies is_key_line(#[trigger] ks.push(n)[i]) by {
                if i < ks.len() {
                    assert(ks.push(n)[i] == ks[i]);
                }
            }
        }
    }
}

proof fn lemma_marker_lines()
    ensures
        managed_begin().len() > 0,
        managed_end().len() > 0,
        managed_begin()[0] == '#',
        managed_end()[0] == '#',
        trim(managed_begin()) == managed_begin(),
        trim(managed_end()) == managed_end(),
        managed_begin() != managed_end(),
        !has_char(managed_begin(), '\n'),
        !has_char(managed_end(), '\n'),
        !ends_with_cr(managed_end()),
{
    reveal_strlit("# ssh-key-sync begin");
    reveal_strlit("# ssh-key-sync end");
    let b = managed_begin();
    let e = managed_end();
    lemma_trim_id(b);
    lemma_trim_id(e);
    assert(!has_char(b, '\n')) by {
        if has_char(b, '\n') {
            let k = choose|k: int| 0 <= k < b.len() && b[k] == '\n';
            assert(0 <= k < 20);
            assert(b[k] != '\n');
        }
    }
    assert(!has_char(e, '\n')) by {
        if has_char(e, '\n') {
            let k = choose|k: int| 0 <= k < e.len() && e[k] == '\n';
            assert(0 <= k < 18);
            assert(e[k] != '\n');
        }
    }
}

/// Whether the first begin marker comes before the first end marker, or
/// neither occurs.
pub open spec fn markers_in_order(ls: Seq<Seq<char>>) -> bool {
    match (first_marker(ls, managed_begin()), first_marker(ls, managed_end())) {
        (Some(b), Some(e)) => b < e,
        (None, Some(_)) => false,
        _ => true,
    }
}

/// Whether lines joined by line feeds split back into the same lines: no line
/// but the last ends with a carriage return, and the last is not empty.
pub open spec fn rejoins(ls: Seq<Seq<char>>) -> bool {
    &&& forall|i: int| 0 <= i < ls.len() - 1 ==> !ends_with_cr(#[trigger] ls[i])
    &&& ls.len() > 0 ==> ls.last().len() > 0
}

proof fn lemma_first_marker_at(ls: Seq<Seq<char>>, m: Seq<char>, p: int)
    requires
        0 <= p < ls.len(),
        trim(ls[p]) == m,
        forall|j: int| 0 <= j < p ==> trim(#[trigger] ls[j]) != m,
    ensures
        first_marker(ls, m) == Some(p),
{
    lemma_first_marker(ls, m);
}

/// Updating again with the same keys changes nothing, unless an end marker
/// comes before the first begin marker, or the result does not split back
/// into its own lines (a kept line ends with a carriage return, or the text
/// ends with an empty line).
pub proof fn lemma_upsert_idempotent(existing: Seq<char>, keys: Seq<Seq<char>>)
    requires
        upsert_spec(existing, keys) is Ok,
        markers_in_order(lines(existing)),
        rejoins(upsert_lines(lines(existing), normalized_keys(keys)->Ok_0)->Ok_0),
    ensures
        upsert_spec(upsert_spec(existing, keys)->Ok_0, keys) == upsert_spec(existing, keys),
{
    let ks = normalized_keys(keys)->Ok_0;
    let ls = lines(existing);
    let out = upsert_lines(ls, ks)->Ok_0;
    let bm = managed_begin();
    let em = managed_end();
    let blk = managed_block(ks);
    lemma_normalized_keys_lines(keys);
    lemma_marker_lines();
    lemma_lines_no_newline(existing);
    lemma_first_marker(ls, bm);
    lemma_first_marker(ls, em);
    // The block's lines: the begin marker, keys that are no marker, the end marker.
    assert forall|t: int| 0 <= t < blk.len() implies !has_char(#[trigger] blk[t], '\n') by {
        if 0 < t < blk.len() - 1 {
            assert(blk[t] == ks[t - 1]);
            assert(is_key_line(ks[t - 1]));
        }
    }
    assert forall|t: int| 0 < t < blk.len() - 1 implies trim(#[trigger] blk[t]) != bm && trim(blk[t]) != em by {
        assert(blk[t] == ks[t - 1]);
        assert(is_key_line(ks[t - 1]));
    }
    assert(blk[0] == bm);
    assert(blk[blk.len() - 1] == em);
    // The lines of the joined result are the result's lines.
    let b = first_marker(ls, bm);
    let e = first_marker(ls, em);
    let p: int = if b is Some { b->0 } else {
        ls.len() + (if ls.len() > 0 && ls.last().len() != 0 { 1int } else { 0int })
    };
    assert(out.take(p) + blk + out.skip(p + blk.len()) =~= out) by {
        if b is Some {
            assert(out =~= ls.take(p) + blk + ls.skip(e->0 + 1));
        } else {
            if ls.len() > 0 && ls.last().len() != 0 {
                assert(out =~= ls + seq![Seq::<char>::empty()] + blk);
            } else {
                assert(out =~= ls + blk);
            }
        }
    }
    assert forall|j: int| 0 <= j < p implies trim(#[trigger] out[j]) != bm && trim(out[j]) != em by {
        if b is Some {
            assert(out[j] == ls[j]);
        } else if j < ls.len() {
            assert(out[j] == ls[j]);
        } else {
            assert(out[j] == Seq::<char>::empty());
            assert(trim(Seq::<char>::empty()) =~= Seq::<char>::empty());
        }
    }
    assert forall|j: int| 0 <= j < out.len() implies !has_char(#[trigger] out[j], '\n') by {
        if j < p {
            if b is Some || j < ls.len() {
                assert(out[j] == ls[j]);
            } else {
                assert(out[j] == Seq::<char>::empty());
            }
        } else if j < p + blk.len() {
            assert(out[j] == blk[j - p]);
        } else {
            assert(out[j] == ls[j - p - blk.len() + e->0 + 1]);
        }
    }
    lemma_lines_of_join(out);
    let joined = join(out, seq!['\n']);
    assert(lines(joined) == out);
    // The markers are found where the block stands.
    assert(out[p] == bm);
    lemma_first_marker_at(out, bm, p);
    assert(out[p + blk.len() - 1] == em);
    assert forall|j: int| 0 <= j < p + blk.len() - 1 implies trim(#[trigger] out[j]) != em by {
        if j >= p {
            assert(out[j] == blk[j - p]);
        }
    }
    lemma_first_marker_at(out, em, p + blk.len() - 1);
    assert(out.take(p) + blk + out.skip(p + blk.len()) == out);
}

} // verus!
