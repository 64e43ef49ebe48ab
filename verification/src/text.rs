//! Character-level text handling: whitespace, trimming, splitting into words
//! and lines, joining, and conversion between `&str`, `String` and `Vec<char>`.
use vstd::prelude::*;

verus! {

/// Unicode `White_Space`, the property that `char::is_whitespace` tests.
pub open spec fn is_whitespace(c: char) -> bool {
    let u = c as u32;
    ||| 0x09 <= u <= 0x0d
    ||| u == 0x20
    ||| u == 0x85
    ||| u == 0xa0
    ||| u == 0x1680
    ||| 0x2000 <= u <= 0x200a
    ||| u == 0x2028
    ||| u == 0x2029
    ||| u == 0x202f
    ||| u == 0x205f
    ||| u == 0x3000
}

/// `is_whitespace(c)`, computed.
pub fn char_is_whitespace(c: char) -> (b: bool)
    ensures
        b == is_whitespace(c),
{
    let u = c as u32;
    (0x09 <= u && u <= 0x0d) || u == 0x20 || u == 0x85 || u == 0xa0 || u == 0x1680 || (0x2000
        <= u && u <= 0x200a) || u == 0x2028 || u == 0x2029 || u == 0x202f || u == 0x205f || u
        == 0x3000
}

/// The characters of a string slice, in order.
pub fn chars_of(s: &str) -> (v: Vec<char>)
    ensures
        v@ == s@,
{
    let mut v: Vec<char> = Vec::new();
    for c in it: s.chars()
        invariant
            v@ == it.seq().take(it.index() as int),
    {
        v.push(c);
    }
    v
}


/// A `String` holding exactly the given characters.
///
/// Trusted: calls std's `FromIterator<&char> for String` (`collect`), which
/// documents that the string consists of the characters in iteration order.
#[verifier::external_body]
pub(crate) fn string_of(v: &[char]) -> (s: String)
    ensures
        s@ == v@,
{
    v.iter().collect()
}

/// Leading whitespace removed (`str::trim_start`).
pub open spec fn trim_start(s: Seq<char>) -> Seq<char>
    decreases s.len(),
{
    if s.len() > 0 && is_whitespace(s[0]) {
        trim_start(s.drop_first())
    } else {
        s
    }
}

/// Trailing whitespace removed (`str::trim_end`).
pub open spec fn trim_end(s: Seq<char>) -> Seq<char>
    decreases s.len(),
{
    if s.len() > 0 && is_whitespace(s.last()) {
        trim_end(s.drop_last())
    } else {
        s
    }
}

/// Leading and trailing whitespace removed (`str::trim`).
pub open spec fn trim(s: Seq<char>) -> Seq<char> {
    trim_end(trim_start(s))
}

proof fn lemma_trim_start_step(s: Seq<char>, i: int)
    requires
        0 <= i < s.len(),
        is_whitespace(s[i]),
    ensures
        trim_start(s.subrange(i, s.len() as int)) == trim_start(s.subrange(i + 1, s.len() as int)),
{
    let t = s.subrange(i, s.len() as int);
    assert(t.drop_first() =~= s.subrange(i + 1, s.len() as int));
}

proof fn lemma_trim_end_step(s: Seq<char>, j: int)
    requires
        0 < j <= s.len(),
        is_whitespace(s[j - 1]),
    ensures
        trim_end(s.subrange(0, j)) == trim_end(s.subrange(0, j - 1)),
{
    let t = s.subrange(0, j);
    assert(t.drop_last() =~= s.subrange(0, j - 1));
}

/// The bounds `(start, end)` such that `s[start..end]` is `trim(s)`.
pub fn trim_bounds(s: &[char]) -> (r: (usize, usize))
    ensures
        r.0 <= r.1 <= s@.len(),
        s@.subrange(r.0 as int, r.1 as int) == trim(s@),
{
    let n = s.len();
    let mut i: usize = 0;
    assert(s@.subrange(0, n as int) =~= s@);
    while i < n && char_is_whitespace(s[i])
        invariant
            i <= n == s@.len(),
            trim_start(s@) == trim_start(s@.subrange(i as int, n as int)),
        decreases n - i,
    {
        proof {
            lemma_trim_start_step(s@, i as int);
        }
        i = i + 1;
    }
    let ghost t = s@.subrange(i as int, n as int);
    assert(trim_start(s@) == t);
    let mut j: usize = n;
    while j > i && char_is_whitespace(s[j - 1])
        invariant
            i <= j <= n == s@.len(),
            t == s@.subrange(i as int, n as int),
            trim_end(t) == trim_end(s@.subrange(i as int, j as int)),
        decreases j - i,
    {
        proof {
            let u = s@.subrange(i as int, j as int);
            lemma_trim_end_step(u, (j - i) as int);
            assert(u.subrange(0, (j - i) as int) =~= u);
            assert(u.subrange(0, (j - i - 1) as int) =~= s@.subrange(i as int, j - 1));
        }
        j = j - 1;
    }
    proof {
        let u = s@.subrange(i as int, j as int);
        if j > i {
            assert(u.last() == s@[j - 1]);
        }
        assert(trim_end(u) == u);
        assert(t.subrange(0, (n - i) as int) =~= t);
    }
    (i, j)
}

/// `trim(s)` as a vector.
pub fn trimmed(s: &[char]) -> (r: Vec<char>)
    ensures
        r@ == trim(s@),
{
    let (a, b) = trim_bounds(s);
    slice_part(s, a, b)
}

/// `s[a..b]` as a vector.
pub fn slice_part(s: &[char], a: usize, b: usize) -> (r: Vec<char>)
    requires
        a <= b <= s@.len(),
    ensures
        r@ == s@.subrange(a as int, b as int),
{
    let mut r: Vec<char> = Vec::new();
    let mut k = a;
    while k < b
        invariant
            a <= k <= b <= s@.len(),
            r@ == s@.subrange(a as int, k as int),
        decreases b - k,
    {
        r.push(s[k]);
        k = k + 1;
        assert(r@ =~= s@.subrange(a as int, k as int));
    }
    r
}

/// Whether two character sequences are equal.
pub fn chars_equal(a: &[char], b: &[char]) -> (r: bool)
    ensures
        r == (a@ == b@),
{
    if a.len() != b.len() {
        return false;
    }
    let mut i: usize = 0;
    while i < a.len()
        invariant
            a@.len() == b@.len(),
            0 <= i <= a@.len(),
            forall|k: int| 0 <= k < i ==> a@[k] == b@[k],
        decreases a.len() - i,
    {
        if a[i] != b[i] {
            return false;
        }
        i = i + 1;
    }
    assert(a@ =~= b@);
    true
}

/// Appends all of `b` to `a`.
pub fn append_chars(a: &mut Vec<char>, b: &[char])
    ensures
        final(a)@ == old(a)@ + b@,
{
    let mut i: usize = 0;
    while i < b.len()
        invariant
            0 <= i <= b@.len(),
            a@ == old(a)@ + b@.subrange(0, i as int),
        decreases b.len() - i,
    {
        a.push(b[i]);
        i = i + 1;
        assert(a@ =~= old(a)@ + b@.subrange(0, i as int));
    }
    assert(b@.subrange(0, b@.len() as int) =~= b@);
}


/// The character sequences held by a vector of character vectors.
pub open spec fn views(v: Seq<Vec<char>>) -> Seq<Seq<char>> {
    v.map_values(|x: Vec<char>| x@)
}

pub proof fn lemma_views_push(v: Seq<Vec<char>>, x: Vec<char>)
    ensures
        views(v.push(x)) == views(v).push(x@),
{
    assert(views(v.push(x)) =~= views(v).push(x@));
}

/// The state of a left-to-right scan that splits at whitespace: the words
/// finished so far and the word being read.
pub open spec fn words_scan(s: Seq<char>) -> (Seq<Seq<char>>, Seq<char>)
    decreases s.len(),
{
    if s.len() == 0 {
        (seq![], seq![])
    } else {
        let (done, cur) = words_scan(s.drop_last());
        let c = s.last();
        if is_whitespace(c) {
            if cur.len() > 0 {
                (done.push(cur), seq![])
            } else {
                (done, seq![])
            }
        } else {
            (done, cur.push(c))
        }
    }
}

/// The maximal runs of non-whitespace characters (`str::split_whitespace`).
pub open spec fn words(s: Seq<char>) -> Seq<Seq<char>> {
    let (done, cur) = words_scan(s);
    if cur.len() > 0 {
        done.push(cur)
    } else {
        done
    }
}

/// `words(s)`, computed.
pub fn split_words(s: &[char]) -> (r: Vec<Vec<char>>)
    ensures
        views(r@) == words(s@),
{
    let mut done: Vec<Vec<char>> = Vec::new();
    let mut cur: Vec<char> = Vec::new();
    let n = s.len();
    for i in 0..n
        invariant
            n == s@.len(),
            (views(done@), cur@) == words_scan(s@.take(i as int)),
    {
        let c = s[i];
        proof {
            assert(s@.take(i + 1).drop_last() =~= s@.take(i as int));
            assert(s@.take(i + 1).last() == c);
        }
        if char_is_whitespace(c) {
            if cur.len() > 0 {
                proof {
                    lemma_views_push(done@, cur);
                }
                done.push(cur);
                cur = Vec::new();
            }
        } else {
            cur.push(c);
        }
    }
    assert(s@.take(n as int) =~= s@);
    if cur.len() > 0 {
        proof {
            lemma_views_push(done@, cur);
        }
        done.push(cur);
    }
    done
}

/// A trailing carriage return removed.
pub open spec fn strip_cr(l: Seq<char>) -> Seq<char> {
    if l.len() > 0 && l.last() == '\r' {
        l.drop_last()
    } else {
        l
    }
}

/// The state of a left-to-right scan that splits at line feeds.
pub open spec fn lines_scan(s: Seq<char>) -> (Seq<Seq<char>>, Seq<char>)
    decreases s.len(),
{
    if s.len() == 0 {
        (seq![], seq![])
    } else {
        let (done, cur) = lines_scan(s.drop_last());
        let c = s.last();
        if c == '\n' {
            (done.push(strip_cr(cur)), seq![])
        } else {
            (done, cur.push(c))
        }
    }
}

/// The lines of a text (`str::lines`): split at `\n`, a `\r` just before a
/// `\n` dropped, and no empty line after a final `\n`.
pub open spec fn lines(s: Seq<char>) -> Seq<Seq<char>> {
    let (done, cur) = lines_scan(s);
    if cur.len() > 0 {
        done.push(cur)
    } else {
        done
    }
}

/// `lines(s)`, computed.
pub fn split_lines(s: &[char]) -> (r: Vec<Vec<char>>)
    ensures
        views(r@) == lines(s@),
{
    let mut done: Vec<Vec<char>> = Vec::new();
    let mut cur: Vec<char> = Vec::new();
    let n = s.len();
    for i in 0..n
        invariant
            n == s@.len(),
            (views(done@), cur@) == lines_scan(s@.take(i as int)),
    {
        let c = s[i];
        proof {
            assert(s@.take(i + 1).drop_last() =~= s@.take(i as int));
            assert(s@.take(i + 1).last() == c);
        }
        if c == '\n' {
            let ghost before = cur@;
            let l = cur.len();
            if l > 0 && cur[l - 1] == '\r' {
                cur.pop();
                assert(cur@ =~= before.drop_last());
            }
            assert(cur@ == strip_cr(before));
            proof {
                lemma_views_push(done@, cur);
            }
            done.push(cur);
            cur = Vec::new();
        } else {
            cur.push(c);
        }
    }
    assert(s@.take(n as int) =~= s@);
    if cur.len() > 0 {
        proof {
            lemma_views_push(done@, cur);
        }
        done.push(cur);
    }
    done
}

/// The parts with the separator between each two (`join`).
pub open spec fn join(parts: Seq<Seq<char>>, sep: Seq<char>) -> Seq<char>
    decreases parts.len(),
{
    if parts.len() == 0 {
        seq![]
    } else if parts.len() == 1 {
        parts[0]
    } else {
        join(parts.drop_last(), sep) + sep + parts.last()
    }
}

/// `join` of the parts from position `from` on, computed.
pub fn join_parts(parts: &[Vec<char>], from: usize, sep: &[char]) -> (r: Vec<char>)
    requires
        from <= parts@.len(),
    ensures
        r@ == join(views(parts@).skip(from as int), sep@),
{
    let mut r: Vec<char> = Vec::new();
    let n = parts.len();
    let ghost all = views(parts@).skip(from as int);
    let mut i = from;
    while i < n
        invariant
            from <= i <= n == parts@.len(),
            all == views(parts@).skip(from as int),
            r@ == join(all.take(i - from), sep@),
        decreases n - i,
    {
        proof {
            let p = all.take(i - from + 1);
            assert(p.drop_last() =~= all.take(i - from));
            assert(p.last() == parts@[i as int]@);
        }
        if i > from {
            append_chars(&mut r, sep);
        }
        append_chars(&mut r, parts[i].as_slice());
        proof {
            if i == from {
                assert(r@ =~= parts@[i as int]@);
            }
        }
        i = i + 1;
    }
    assert(all.take(n - from) =~= all);
    r
}

/// Neither empty nor holding whitespace: what `split_whitespace` yields.
pub open spec fn is_word(w: Seq<char>) -> bool {
    w.len() > 0 && forall|i: int| 0 <= i < w.len() ==> !is_whitespace(#[trigger] w[i])
}

pub open spec fn all_words(ws: Seq<Seq<char>>) -> bool {
    forall|i: int| 0 <= i < ws.len() ==> is_word(#[trigger] ws[i])
}

proof fn lemma_words_scan_shape(s: Seq<char>)
    ensures
        all_words(words_scan(s).0),
        forall|i: int| 0 <= i < words_scan(s).1.len() ==> !is_whitespace(#[trigger] words_scan(s).1[i]),
    decreases s.len(),
{
    if s.len() > 0 {
        lemma_words_scan_shape(s.drop_last());
        let (d, c) = words_scan(s.drop_last());
        if !is_whitespace(s.last()) {
            assert forall|i: int| 0 <= i < c.push(s.last()).len() implies !is_whitespace(
                #[trigger] c.push(s.last())[i],
            ) by {
                if i < c.len() {
                    assert(c.push(s.last())[i] == c[i]);
                }
            }
        } else if c.len() > 0 {
            assert forall|i: int| 0 <= i < d.push(c).len() implies is_word(#[trigger] d.push(c)[i]) by {
                if i < d.len() {
                    assert(d.push(c)[i] == d[i]);
                }
            }
        }
    }
}

/// Every piece that `words` yields is a word.
pub proof fn lemma_words_are_words(s: Seq<char>)
    ensures
        all_words(words(s)),
{
    lemma_words_scan_shape(s);
}

/// Scanning a word after a finished scan extends the current piece by it.
proof fn lemma_words_scan_word(a: Seq<char>, b: Seq<char>)
    requires
        words_scan(a).1.len() == 0,
        forall|i: int| 0 <= i < b.len() ==> !is_whitespace(#[trigger] b[i]),
    ensures
        words_scan(a + b) == (words_scan(a).0, b),
    decreases b.len(),
{
    if b.len() == 0 {
        assert(a + b =~= a);
    } else {
        lemma_words_scan_word(a, b.drop_last());
        assert((a + b).drop_last() =~= a + b.drop_last());
        assert((a + b).last() == b.last());
        assert(b.drop_last().push(b.last()) =~= b);
    }
}

/// `words` takes back what `join` with single spaces put together.
pub proof fn lemma_words_of_join(ws: Seq<Seq<char>>)
    requires
        all_words(ws),
    ensures
        words(join(ws, seq![' '])) == ws,
    decreases ws.len(),
{
    let sp = seq![' '];
    if ws.len() == 0 {
    } else if ws.len() == 1 {
        assert(is_word(ws[0]));
        let e = Seq::<char>::empty();
        lemma_words_scan_word(e, ws[0]);
        assert(e + ws[0] =~= ws[0]);
        assert(seq![ws[0]] =~= ws);
    } else {
        let init = ws.drop_last();
        assert forall|i: int| 0 <= i < init.len() implies is_word(#[trigger] init[i]) by {
            assert(init[i] == ws[i]);
        }
        lemma_words_of_join(init);
        let j = join(init, sp);
        let js = j + sp;
        assert(js.drop_last() =~= j);
        assert(js.last() == ' ');
        assert(is_word(ws.last()));
        lemma_words_scan_word(js, ws.last());
        assert(join(ws, sp) == js + ws.last());
        assert(init.push(ws.last()) =~= ws);
    }
}

proof fn lemma_trim_start_id(s: Seq<char>)
    requires
        s.len() > 0,
        !is_whitespace(s[0]),
    ensures
        trim_start(s) == s,
{
}

proof fn lemma_trim_end_id(s: Seq<char>)
    requires
        s.len() > 0,
        !is_whitespace(s.last()),
    ensures
        trim_end(s) == s,
{
}

/// A text that starts and ends with a non-whitespace character is its own trim.
pub proof fn lemma_trim_id(s: Seq<char>)
    requires
        s.len() > 0,
        !is_whitespace(s[0]),
        !is_whitespace(s.last()),
    ensures
        trim(s) == s,
{
    lemma_trim_start_id(s);
    lemma_trim_end_id(s);
}

/// Where a join of words starts and ends.
pub proof fn lemma_join_ends(ws: Seq<Seq<char>>, sep: Seq<char>)
    requires
        ws.len() > 0,
        all_words(ws),
    ensures
        join(ws, sep).len() > 0,
        join(ws, sep)[0] == ws[0][0],
        join(ws, sep).last() == ws.last().last(),
    decreases ws.len(),
{
    assert(is_word(ws[0]));
    assert(is_word(ws.last()));
    if ws.len() > 1 {
        let init = ws.drop_last();
        assert forall|i: int| 0 <= i < init.len() implies is_word(#[trigger] init[i]) by {
            assert(init[i] == ws[i]);
        }
        lemma_join_ends(init, sep);
        let j = join(init, sep);
        assert((j + sep + ws.last())[0] == j[0]);
    }
}

/// A join splits at any inner position.
pub proof fn lemma_join_split(ws: Seq<Seq<char>>, sep: Seq<char>, k: int)
    requires
        0 < k < ws.len(),
    ensures
        join(ws, sep) == join(ws.take(k), sep) + sep + join(ws.skip(k), sep),
    decreases ws.len(),
{
    if k == ws.len() - 1 {
        assert(ws.take(k) =~= ws.drop_last());
        assert(ws.skip(k) =~= seq![ws.last()]);
    } else {
        lemma_join_split(ws.drop_last(), sep, k);
        assert(ws.drop_last().take(k) =~= ws.take(k));
        let r = ws.skip(k);
        assert(ws.drop_last().skip(k) =~= r.drop_last());
        assert(r.last() == ws.last());
        assert(r.len() > 1);
        assert(join(ws, sep) =~= join(ws.take(k), sep) + sep + join(r, sep));
    }
}

/// The position of the first occurrence of `c` in `s`.
pub open spec fn first_index(s: Seq<char>, c: char) -> Option<int>
    decreases s.len(),
{
    if s.len() == 0 {
        None
    } else {
        match first_index(s.drop_last(), c) {
            Some(i) => Some(i),
            None => if s.last() == c {
                Some(s.len() - 1)
            } else {
                None
            },
        }
    }
}

/// The position of the last occurrence of `c` in `s`.
pub open spec fn last_index(s: Seq<char>, c: char) -> Option<int>
    decreases s.len(),
{
    if s.len() == 0 {
        None
    } else if s.last() == c {
        Some(s.len() - 1)
    } else {
        last_index(s.drop_last(), c)
    }
}

pub proof fn lemma_first_index(s: Seq<char>, c: char)
    ensures
        first_index(s, c) matches Some(i) ==> 0 <= i < s.len() && s[i] == c && forall|j: int|
            0 <= j < i ==> s[j] != c,
        first_index(s, c) is None ==> forall|j: int| 0 <= j < s.len() ==> s[j] != c,
    decreases s.len(),
{
    if s.len() > 0 {
        lemma_first_index(s.drop_last(), c);
        assert forall|j: int| 0 <= j < s.len() - 1 implies s.drop_last()[j] == s[j] by {}
    }
}

pub proof fn lemma_last_index(s: Seq<char>, c: char)
    ensures
        last_index(s, c) matches Some(i) ==> 0 <= i < s.len() && s[i] == c && forall|j: int|
            i < j < s.len() ==> s[j] != c,
        last_index(s, c) is None ==> forall|j: int| 0 <= j < s.len() ==> s[j] != c,
    decreases s.len(),
{
    if s.len() > 0 {
        lemma_last_index(s.drop_last(), c);
        assert forall|j: int| 0 <= j < s.len() - 1 implies s.drop_last()[j] == s[j] by {}
    }
}

/// `first_index(s, c)`, computed.
pub fn find_first(s: &[char], c: char) -> (r: Option<usize>)
    ensures
        r matches Some(i) ==> first_index(s@, c) == Some(i as int),
        r is None ==> first_index(s@, c) is None,
{
    proof {
        lemma_first_index(s@, c);
    }
    let mut i: usize = 0;
    while i < s.len()
        invariant
            0 <= i <= s@.len(),
            forall|j: int| 0 <= j < i ==> s@[j] != c,
            first_index(s@, c) matches Some(k) ==> 0 <= k < s.len() && s@[k] == c && forall|j: int|
                0 <= j < k ==> s@[j] != c,
            first_index(s@, c) is None ==> forall|j: int| 0 <= j < s@.len() ==> s@[j] != c,
        decreases s.len() - i,
    {
        if s[i] == c {
            return Some(i);
        }
        i = i + 1;
    }
    None
}

/// `last_index(s, c)`, computed.
pub fn find_last(s: &[char], c: char) -> (r: Option<usize>)
    ensures
        r matches Some(i) ==> last_index(s@, c) == Some(i as int),
        r is None ==> last_index(s@, c) is None,
{
    proof {
        lemma_last_index(s@, c);
    }
    let mut i: usize = s.len();
    while i > 0
        invariant
            0 <= i <= s@.len(),
            forall|j: int| i <= j < s@.len() ==> s@[j] != c,
            last_index(s@, c) matches Some(k) ==> 0 <= k < s.len() && s@[k] == c && forall|j: int|
                k < j < s@.len() ==> s@[j] != c,
            last_index(s@, c) is None ==> forall|j: int| 0 <= j < s@.len() ==> s@[j] != c,
        decreases i,
    {
        if s[i - 1] == c {
            return Some(i - 1);
        }
        i = i - 1;
    }
    None
}

/// The decimal digit character for `d < 10`.
pub open spec fn digit_char(d: nat) -> char {
    ((d + 48) as u32) as char
}

/// The decimal rendering of `n` (`Display` for unsigned integers).
pub open spec fn decimal(n: nat) -> Seq<char>
    decreases n,
{
    if n < 10 {
        seq![digit_char(n)]
    } else {
        decimal(n / 10).push(digit_char(n % 10))
    }
}

fn digit_of(d: u64) -> (c: char)
    requires
        d < 10,
    ensures
        c == digit_char(d as nat),
{
    if d == 0 { '0' } else if d == 1 { '1' } else if d == 2 { '2' } else if d == 3 { '3' } else if d
        == 4 { '4' } else if d == 5 { '5' } else if d == 6 { '6' } else if d == 7 { '7' } else if d
        == 8 { '8' } else { '9' }
}

/// Appends `decimal(n)` to `out`.
pub fn push_decimal(out: &mut Vec<char>, n: u64)
    ensures
        final(out)@ == old(out)@ + decimal(n as nat),
    decreases n,
{
    if n < 10 {
        out.push(digit_of(n));
        assert(final(out)@ =~= old(out)@ + decimal(n as nat));
    } else {
        push_decimal(out, n / 10);
        out.push(digit_of(n % 10));
        assert(final(out)@ =~= old(out)@ + decimal(n as nat));
    }
}

/// Whether `c` is an ASCII decimal digit.
pub open spec fn is_digit(c: char) -> bool {
    '0' <= c <= '9'
}

/// The value of a sequence of decimal digits.
pub open spec fn digits_value(d: Seq<char>) -> nat
    decreases d.len(),
{
    if d.len() == 0 {
        0
    } else {
        digits_value(d.drop_last()) * 10 + ((d.last() as u32) - 48) as nat
    }
}

/// The digits of an unsigned integer literal: an optional leading `+` removed
/// unless it is the only character.
pub open spec fn unsigned_digits(s: Seq<char>) -> Seq<char> {
    if s.len() > 1 && s[0] == '+' {
        s.drop_first()
    } else {
        s
    }
}

/// What `str::parse::<u16>` gives: the value when the text is a non-empty run
/// of decimal digits (after an optional `+`) whose value fits in 16 bits.
pub open spec fn parse_u16(s: Seq<char>) -> Option<u16> {
    let d = unsigned_digits(s);
    if d.len() > 0 && (forall|i: int| 0 <= i < d.len() ==> is_digit(d[i])) && digits_value(d)
        <= 0xffff {
        Some(digits_value(d) as u16)
    } else {
        None
    }
}

proof fn lemma_digits_value_grows(d: Seq<char>, k: int)
    requires
        0 <= k <= d.len(),
        forall|i: int| 0 <= i < d.len() ==> is_digit(d[i]),
    ensures
        digits_value(d.take(k)) <= digits_value(d),
    decreases d.len() - k,
{
    if k < d.len() {
        lemma_digits_value_grows(d, k + 1);
        assert(d.take(k + 1).drop_last() =~= d.take(k));
    } else {
        assert(d.take(k) =~= d);
    }
}

/// `parse_u16(s)`, computed.
pub fn parse_u16_chars(s: &[char]) -> (r: Option<u16>)
    ensures
        r == parse_u16(s@),
{
    let n = s.len();
    let start: usize = if n > 1 && s[0] == '+' { 1 } else { 0 };
    let ghost d = unsigned_digits(s@);
    assert(d =~= s@.subrange(start as int, n as int));
    if start == n {
        return None;
    }
    let mut acc: u32 = 0;
    let mut i = start;
    while i < n
        invariant
            start <= i <= n == s@.len(),
            d == s@.subrange(start as int, n as int),
            d == unsigned_digits(s@),
            forall|j: int| 0 <= j < i - start ==> is_digit(d[j]),
            acc as nat == digits_value(d.take(i - start)),
            acc <= 0xffff,
        decreases n - i,
    {
        let c = s[i];
        if !('0' <= c && c <= '9') {
            assert(d[i - start] == c);
            return None;
        }
        let v = (c as u32) - 48;
        proof {
            assert(d.take(i - start + 1).drop_last() =~= d.take(i - start));
            assert(d.take(i - start + 1).last() == c);
        }
        acc = acc * 10 + v;
        i = i + 1;
        assert(acc as nat == digits_value(d.take(i - start)));
        if acc > 0xffff {
            proof {
                if forall|j: int| 0 <= j < d.len() ==> is_digit(d[j]) {
                    lemma_digits_value_grows(d, i - start);
                }
            }
            return None;
        }
    }
    assert(d.take(n - start) =~= d);
    Some(acc as u16)
}


/// Whether `c` occurs in `s`.
pub open spec fn has_char(s: Seq<char>, c: char) -> bool {
    exists|i: int| 0 <= i < s.len() && s[i] == c
}

pub proof fn lemma_lines_scan_plain(a: Seq<char>, b: Seq<char>)
    requires
        lines_scan(a).1.len() == 0,
        !has_char(b, '\n'),
    ensures
        lines_scan(a + b) == (lines_scan(a).0, b),
    decreases b.len(),
{
    if b.len() == 0 {
        assert(a + b =~= a);
    } else {
        assert(b.last() == b[b.len() - 1]);
        assert forall|i: int| 0 <= i < b.drop_last().len() implies b.drop_last()[i] != '\n' by {
            assert(b.drop_last()[i] == b[i]);
        }
        lemma_lines_scan_plain(a, b.drop_last());
        assert((a + b).drop_last() =~= a + b.drop_last());
        assert((a + b).last() == b.last());
        assert(b.drop_last().push(b.last()) =~= b);
    }
}

/// Whether a line ends with a carriage return.
pub open spec fn ends_with_cr(l: Seq<char>) -> bool {
    l.len() > 0 && l.last() == '\r'
}

proof fn lemma_lines_scan_join(ls: Seq<Seq<char>>)
    requires
        ls.len() > 0,
        forall|i: int| 0 <= i < ls.len() ==> !has_char(#[trigger] ls[i], '\n'),
        forall|i: int| 0 <= i < ls.len() - 1 ==> !ends_with_cr(#[trigger] ls[i]),
    ensures
        lines_scan(join(ls, seq!['\n'])) == (ls.drop_last(), ls.last()),
    decreases ls.len(),
{
    let nl = seq!['\n'];
    assert(!has_char(ls[ls.len() - 1], '\n'));
    if ls.len() == 1 {
        let e = Seq::<char>::empty();
        lemma_lines_scan_plain(e, ls[0]);
        assert(e + ls[0] =~= ls[0]);
        assert(ls.drop_last() =~= Seq::<Seq<char>>::empty());
    } else {
        let init = ls.drop_last();
        assert forall|i: int| 0 <= i < init.len() implies !has_char(#[trigger] init[i], '\n') by {
            assert(init[i] == ls[i]);
        }
        assert forall|i: int| 0 <= i < init.len() - 1 implies !ends_with_cr(#[trigger] init[i]) by {
            assert(init[i] == ls[i]);
        }
        lemma_lines_scan_join(init);
        let j = join(init, nl);
        let jn = j + nl;
        assert(jn.drop_last() =~= j);
        assert(jn.last() == '\n');
        assert(init.last() == ls[ls.len() - 2]);
        assert(!ends_with_cr(ls[ls.len() - 2]));
        assert(strip_cr(init.last()) == init.last());
        assert(init.drop_last().push(init.last()) =~= init);
        lemma_lines_scan_plain(jn, ls.last());
        assert(join(ls, nl) == jn + ls.last());
    }
}

/// `lines` takes back what `join` with line feeds put together, when no line
/// holds a line feed, no line but the last ends with a carriage return, and
/// the last line is not empty.
pub proof fn lemma_lines_of_join(ls: Seq<Seq<char>>)
    requires
        ls.len() > 0,
        forall|i: int| 0 <= i < ls.len() ==> !has_char(#[trigger] ls[i], '\n'),
        forall|i: int| 0 <= i < ls.len() - 1 ==> !ends_with_cr(#[trigger] ls[i]),
        ls.last().len() > 0,
    ensures
        lines(join(ls, seq!['\n'])) == ls,
{
    lemma_lines_scan_join(ls);
    assert(ls.drop_last().push(ls.last()) =~= ls);
}

proof fn lemma_lines_scan_no_newline(s: Seq<char>)
    ensures
        forall|i: int| 0 <= i < lines_scan(s).0.len() ==> !has_char(#[trigger] lines_scan(s).0[i], '\n'),
        !has_char(lines_scan(s).1, '\n'),
    decreases s.len(),
{
    if s.len() > 0 {
        lemma_lines_scan_no_newline(s.drop_last());
        let (d, c) = lines_scan(s.drop_last());
        if s.last() == '\n' {
            let sc = strip_cr(c);
            assert(!has_char(sc, '\n')) by {
                if has_char(sc, '\n') {
                    let k = choose|k: int| 0 <= k < sc.len() && sc[k] == '\n';
                    assert(c[k] == sc[k]);
                }
            }
            assert forall|i: int| 0 <= i < d.push(sc).len() implies !has_char(
                #[trigger] d.push(sc)[i],
                '\n',
            ) by {
                if i < d.len() {
                    assert(d.push(sc)[i] == d[i]);
                }
            }
        } else {
            assert(!has_char(c.push(s.last()), '\n')) by {
                if has_char(c.push(s.last()), '\n') {
                    let k = choose|k: int| 0 <= k < c.push(s.last()).len() && c.push(s.last())[k] == '\n';
                    assert(k < c.len());
                    assert(c.push(s.last())[k] == c[k]);
                }
            }
        }
    }
}

/// No line that `lines` yields holds a line feed.
pub proof fn lemma_lines_no_newline(s: Seq<char>)
    ensures
        forall|i: int| 0 <= i < lines(s).len() ==> !has_char(#[trigger] lines(s)[i], '\n'),
{
    lemma_lines_scan_no_newline(s);
    let (d, c) = lines_scan(s);
    if c.len() > 0 {
        assert forall|i: int| 0 <= i < d.push(c).len() implies !has_char(#[trigger] d.push(c)[i], '\n') by {
            if i < d.len() {
                assert(d.push(c)[i] == d[i]);
            }
        }
    }
}

/// Every character of a space-joined sequence of words is a space or not
/// whitespace at all.
pub proof fn lemma_join_words_chars(ws: Seq<Seq<char>>)
    requires
        all_words(ws),
    ensures
        forall|i: int|
            0 <= i < join(ws, seq![' ']).len() ==> #[trigger] join(ws, seq![' '])[i] == ' '
                || !is_whitespace(join(ws, seq![' '])[i]),
    decreases ws.len(),
{
    let sp = seq![' '];
    if ws.len() == 1 {
        assert(is_word(ws[0]));
    } else if ws.len() > 1 {
        let init = ws.drop_last();
        assert forall|i: int| 0 <= i < init.len() implies is_word(#[trigger] init[i]) by {
            assert(init[i] == ws[i]);
        }
        lemma_join_words_chars(init);
        let j = join(init, sp);
        let l = ws.last();
        assert(is_word(l));
        assert forall|i: int| 0 <= i < join(ws, sp).len() implies #[trigger] join(ws, sp)[i] == ' '
            || !is_whitespace(join(ws, sp)[i]) by {
            assert(join(ws, sp) == j + sp + l);
            if i < j.len() {
                assert(join(ws, sp)[i] == j[i]);
            } else if i == j.len() {
            } else {
                assert(join(ws, sp)[i] == l[i - j.len() - 1]);
            }
        }
    }
}

/// A trailing whitespace character does not change the trim.
pub proof fn lemma_trim_push_whitespace(s: Seq<char>, c: char)
    requires
        is_whitespace(c),
    ensures
        trim(s.push(c)) == trim(s),
    decreases s.len(),
{
    let sc = s.push(c);
    if s.len() == 0 {
        assert(sc.drop_first() =~= Seq::<char>::empty());
        assert(trim_start(sc) == trim_start(Seq::<char>::empty()));
    } else if is_whitespace(s[0]) {
        assert(sc.drop_first() =~= s.drop_first().push(c));
        lemma_trim_push_whitespace(s.drop_first(), c);
    } else {
        assert(sc[0] == s[0]);
        assert(trim_start(sc) == sc);
        assert(sc.drop_last() =~= s);
    }
}

/// Removing a trailing carriage return does not change the trim.
pub proof fn lemma_trim_strip_cr(s: Seq<char>)
    ensures
        trim(strip_cr(s)) == trim(s),
{
    if s.len() > 0 && s.last() == '\r' {
        assert(s.drop_last().push('\r') =~= s);
        lemma_trim_push_whitespace(s.drop_last(), '\r');
    }
}

/// The code of a character with ASCII upper-case letters mapped to lower case.
pub open spec fn ascii_lower(c: char) -> u32 {
    let u = c as u32;
    if 65 <= u <= 90 {
        (u + 32) as u32
    } else {
        u
    }
}

/// Equality up to ASCII case (`str::eq_ignore_ascii_case`).
pub open spec fn eq_ignore_ascii_case(a: Seq<char>, b: Seq<char>) -> bool {
    a.len() == b.len() && forall|i: int| 0 <= i < a.len() ==> ascii_lower(a[i]) == ascii_lower(b[i])
}

fn lower_code(c: char) -> (u: u32)
    ensures
        u == ascii_lower(c),
{
    let u = c as u32;
    if 65 <= u && u <= 90 {
        u + 32
    } else {
        u
    }
}

/// `eq_ignore_ascii_case(a, b)`, computed.
pub fn chars_eq_ignore_ascii_case(a: &[char], b: &[char]) -> (r: bool)
    ensures
        r == eq_ignore_ascii_case(a@, b@),
{
    if a.len() != b.len() {
        return false;
    }
    let mut i: usize = 0;
    while i < a.len()
        invariant
            a@.len() == b@.len(),
            0 <= i <= a@.len(),
            forall|k: int| 0 <= k < i ==> ascii_lower(a@[k]) == ascii_lower(b@[k]),
        decreases a.len() - i,
    {
        let x = lower_code(a[i]);
        let y = lower_code(b[i]);
        if x != y {
            return false;
        }
        i = i + 1;
    }
    true
}

/// A decimal rendering is a non-empty run of digits with the rendered value.
pub proof fn lemma_decimal_digits(n: nat)
    ensures
        decimal(n).len() > 0,
        forall|i: int| 0 <= i < decimal(n).len() ==> is_digit(#[trigger] decimal(n)[i]),
        digits_value(decimal(n)) == n,
    decreases n,
{
    assert(digit_char(n % 10) as u32 == n % 10 + 48);
    if n >= 10 {
        lemma_decimal_digits(n / 10);
        let d = decimal(n);
        assert(d.drop_last() =~= decimal(n / 10));
        assert(d.last() == digit_char(n % 10));
        assert((n / 10) * 10 + n % 10 == n);
        assert(digits_value(d) == digits_value(decimal(n / 10)) * 10 + n % 10);
        assert forall|i: int| 0 <= i < d.len() implies is_digit(#[trigger] d[i]) by {
            if i < d.len() - 1 {
                assert(d[i] == decimal(n / 10)[i]);
            }
        }
    } else {
        assert(decimal(n).drop_last() =~= Seq::<char>::empty());
        assert(decimal(n).last() == digit_char(n));
        assert(digit_char(n) as u32 == n + 48);
        assert(digits_value(decimal(n)) == digits_value(decimal(n).drop_last()) * 10 + ((
        decimal(n).last() as u32) - 48) as nat);
    }
}

/// Reading back the decimal rendering of a 16-bit number gives the number;
/// the rendering is its own trim and holds neither `=` nor a line feed.
pub proof fn lemma_decimal_roundtrip(n: u16)
    ensures
        parse_u16(decimal(n as nat)) == Some(n),
        trim(decimal(n as nat)) == decimal(n as nat),
        !has_char(decimal(n as nat), '\n'),
        !has_char(decimal(n as nat), '='),
{
    let d = decimal(n as nat);
    lemma_decimal_digits(n as nat);
    assert(is_digit(d[0]));
    assert(is_digit(d[d.len() - 1]));
    lemma_trim_id(d);
    assert(unsigned_digits(d) == d);
    assert(!has_char(d, '\n')) by {
        if has_char(d, '\n') {
            let k = choose|k: int| 0 <= k < d.len() && d[k] == '\n';
            assert(is_digit(d[k]));
        }
    }
    assert(!has_char(d, '=')) by {
        if has_char(d, '=') {
            let k = choose|k: int| 0 <= k < d.len() && d[k] == '=';
            assert(is_digit(d[k]));
        }
    }
}

proof fn lemma_trim_start_shape(s: Seq<char>)
    ensures
        trim_start(s).len() > 0 ==> !is_whitespace(trim_start(s)[0]),
    decreases s.len(),
{
    if s.len() > 0 && is_whitespace(s[0]) {
        lemma_trim_start_shape(s.drop_first());
    }
}

proof fn lemma_trim_end_shape(s: Seq<char>)
    ensures
        trim_end(s).len() > 0 ==> !is_whitespace(trim_end(s).last()),
        trim_end(s).len() > 0 ==> trim_end(s)[0] == s[0],
    decreases s.len(),
{
    if s.len() > 0 && is_whitespace(s.last()) {
        lemma_trim_end_shape(s.drop_last());
        if trim_end(s.drop_last()).len() > 0 {
            assert(s.drop_last()[0] == s[0]);
        }
    }
}

/// Trimming twice is trimming once.
pub proof fn lemma_trim_trim(s: Seq<char>)
    ensures
        trim(trim(s)) == trim(s),
{
    lemma_trim_start_shape(s);
    lemma_trim_end_shape(trim_start(s));
    let t = trim(s);
    if t.len() > 0 {
        lemma_trim_id(t);
    }
}

/// The UTF-8 encoding of a string slice.
pub fn utf8_bytes(s: &str) -> (b: Vec<u8>)
    ensures
        b@ == vstd::utf8::encode_utf8(s@),
{
    vstd::slice::slice_to_vec(s.as_bytes())
}

/// The string slice that a byte slice encodes, if it is valid UTF-8.
///
/// Trusted: calls `std::str::from_utf8`, documented to succeed exactly on
/// valid UTF-8 and then to return a string slice over the same bytes.
#[verifier::external_body]
pub(crate) fn str_of_utf8(b: &[u8]) -> (r: Option<&str>)
    ensures
        r is Some <==> vstd::utf8::valid_utf8(b@),
        r matches Some(s) ==> vstd::utf8::encode_utf8(s@) == b@,
{
    std::str::from_utf8(b).ok()
}

} // verus!
