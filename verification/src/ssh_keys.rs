//! Parsing and normalising OpenSSH public key lines.
use vstd::prelude::*;
use crate::text::{
    all_words, append_chars, chars_equal, chars_of, is_word, join, join_parts, lemma_join_ends,
    lemma_join_split, lemma_trim_id, lemma_words_are_words, lemma_words_of_join, split_words, has_char, is_whitespace, lemma_join_words_chars,
    string_of, trim, trimmed, views, words,
};

verus! {

/// A public key line taken apart: algorithm, key data, optional comment and
/// the trimmed line it came from.
#[derive(Debug, Clone, PartialEq, Eq)]
pub struct PublicKeyRecord {
    pub algorithm: String,
    pub key_data: String,
    pub comment: Option<String>,
    pub original: String,
}

/// The fields of a [`PublicKeyRecord`] as character sequences.
pub struct PublicKeyFields {
    pub algorithm: Seq<char>,
    pub key_data: Seq<char>,
    pub comment: Option<Seq<char>>,
    pub original: Seq<char>,
}

impl View for PublicKeyRecord {
    type V = PublicKeyFields;

    open spec fn view(&self) -> PublicKeyFields {
        PublicKeyFields {
            algorithm: self.algorithm@,
            key_data: self.key_data@,
            comment: match self.comment {
                Some(c) => Some(c@),
                None => None,
            },
            original: self.original@,
        }
    }
}

#[derive(Debug, Clone, PartialEq, Eq)]
pub enum PublicKeyError {
    EmptyInput,
    InvalidFormat,
    UnsupportedAlgorithm,
    ReadFailed(String),
}

/// The key algorithms that are accepted.
pub open spec fn supported_algorithm(a: Seq<char>) -> bool {
    ||| a == "ssh-ed25519"@
    ||| a == "ssh-rsa"@
    ||| a == "ecdsa-sha2-nistp256"@
    ||| a == "ecdsa-sha2-nistp384"@
    ||| a == "ecdsa-sha2-nistp521"@
}

/// What parsing a public key line gives.
pub open spec fn parse_key_spec(input: Seq<char>) -> Result<PublicKeyFields, PublicKeyError> {
    let t = trim(input);
    let w = words(t);
    if t.len() == 0 {
        Err(PublicKeyError::EmptyInput)
    } else if w.len() < 2 {
        Err(PublicKeyError::InvalidFormat)
    } else if !supported_algorithm(w[0]) {
        Err(PublicKeyError::UnsupportedAlgorithm)
    } else if w[1].len() == 0 {
        Err(PublicKeyError::InvalidFormat)
    } else {
        Ok(
            PublicKeyFields {
                algorithm: w[0],
                key_data: w[1],
                comment: if w.len() > 2 {
                    Some(join(w.skip(2), seq![' ']))
                } else {
                    None
                },
                original: t,
            },
        )
    }
}

/// The canonical form of a parsed key: algorithm, key data and trimmed
/// comment, separated by single spaces.
pub open spec fn key_line(f: PublicKeyFields) -> Seq<char> {
    let head = f.algorithm + seq![' '] + f.key_data;
    match f.comment {
        Some(c) => head + seq![' '] + trim(c),
        None => head,
    }
}

/// What normalising a public key line gives.
pub open spec fn normalize_key_spec(input: Seq<char>) -> Result<Seq<char>, PublicKeyError> {
    match parse_key_spec(input) {
        Ok(f) => Ok(key_line(f)),
        Err(e) => Err(e),
    }
}

fn is_supported_algorithm(value: &[char]) -> (b: bool)
    ensures
        b == supported_algorithm(value@),
{
    chars_equal(value, &chars_of("ssh-ed25519")) || chars_equal(value, &chars_of("ssh-rsa"))
        || chars_equal(value, &chars_of("ecdsa-sha2-nistp256")) || chars_equal(
        value,
        &chars_of("ecdsa-sha2-nistp384"),
    ) || chars_equal(value, &chars_of("ecdsa-sha2-nistp521"))
}

/// Takes a public key line apart.
pub fn parse_public_key(input: &str) -> (r: Result<PublicKeyRecord, PublicKeyError>)
    ensures
        match r {
            Ok(rec) => parse_key_spec(input@) == Ok::<PublicKeyFields, PublicKeyError>(rec@),
            Err(e) => parse_key_spec(input@) == Err::<PublicKeyFields, PublicKeyError>(e),
        },
{
    let chars = chars_of(input);
    let t = trimmed(chars.as_slice());
    if t.len() == 0 {
        return Err(PublicKeyError::EmptyInput);
    }
    let parts = split_words(t.as_slice());
    if parts.len() < 2 {
        return Err(PublicKeyError::InvalidFormat);
    }
    if !is_supported_algorithm(parts[0].as_slice()) {
        return Err(PublicKeyError::UnsupportedAlgorithm);
    }
    if parts[1].len() == 0 {
        return Err(PublicKeyError::InvalidFormat);
    }
    let comment = if parts.len() > 2 {
        let sp: Vec<char> = vec![' '];
        assert(sp@ =~= seq![' ']);
        Some(string_of(join_parts(parts.as_slice(), 2, sp.as_slice()).as_slice()))
    } else {
        None
    };
    let rec = PublicKeyRecord {
        algorithm: string_of(parts[0].as_slice()),
        key_data: string_of(parts[1].as_slice()),
        comment,
        original: string_of(t.as_slice()),
    };
    assert(views(parts@)[0] == parts@[0]@);
    assert(views(parts@)[1] == parts@[1]@);
    Ok(rec)
}

/// The canonical one-line form of a public key.
pub fn normalize_public_key(input: &str) -> (r: Result<String, PublicKeyError>)
    ensures
        match r {
            Ok(s) => normalize_key_spec(input@) == Ok::<Seq<char>, PublicKeyError>(s@),
            Err(e) => normalize_key_spec(input@) == Err::<Seq<char>, PublicKeyError>(e),
        },
{
    let record = match parse_public_key(input) {
        Ok(rec) => rec,
        Err(e) => return Err(e),
    };
    let mut out = chars_of(record.algorithm.as_str());
    out.push(' ');
    append_chars(&mut out, chars_of(record.key_data.as_str()).as_slice());
    match &record.comment {
        Some(c) => {
            out.push(' ');
            let cc = chars_of(c.as_str());
            append_chars(&mut out, trimmed(cc.as_slice()).as_slice());
        },
        None => {},
    }
    let ghost f = record@;
    assert(out@ =~= key_line(f));
    Ok(string_of(out.as_slice()))
}

/// A normalised key line is the space-joined words of the trimmed input:
/// at least two of them, the first a supported algorithm.
pub proof fn lemma_normalized_shape(input: Seq<char>)
    requires
        normalize_key_spec(input) is Ok,
    ensures
        all_words(words(trim(input))),
        words(trim(input)).len() >= 2,
        supported_algorithm(words(trim(input))[0]),
        normalize_key_spec(input)->Ok_0 == join(words(trim(input)), seq![' ']),
{
    let t = trim(input);
    let w = words(t);
    lemma_words_are_words(t);
    let sp = seq![' '];
    let n = normalize_key_spec(input)->Ok_0;
    assert(is_word(w[0]));
    assert(is_word(w[1]));
    if w.len() > 2 {
        let rest = w.skip(2);
        assert forall|i: int| 0 <= i < rest.len() implies is_word(#[trigger] rest[i]) by {
            assert(rest[i] == w[i + 2]);
        }
        lemma_join_ends(rest, sp);
        lemma_trim_id(join(rest, sp));
        lemma_join_split(w, sp, 2);
        let w2 = w.take(2);
        assert(w2.drop_last() =~= seq![w[0]]);
        assert(join(w2.drop_last(), sp) == w[0]);
        assert(join(w2, sp) =~= w[0] + sp + w[1]);
    } else {
        assert(w.len() == 2);
        assert(w.drop_last() =~= seq![w[0]]);
        assert(join(w.drop_last(), sp) == w[0]);
        assert(join(w, sp) =~= w[0] + sp + w[1]);
    }
}

/// Normalising is idempotent: a normalised key line normalises to itself.
pub proof fn lemma_normalize_idempotent(input: Seq<char>)
    requires
        normalize_key_spec(input) is Ok,
    ensures
        normalize_key_spec(normalize_key_spec(input)->Ok_0) == normalize_key_spec(input),
{
    lemma_normalized_shape(input);
    let w = words(trim(input));
    let n = normalize_key_spec(input)->Ok_0;
    lemma_join_ends(w, seq![' ']);
    lemma_trim_id(n);
    lemma_words_of_join(w);
}

/// A normalised key line is not empty, is its own trim, starts with the first
/// letter of a supported algorithm, and holds neither a line feed nor a
/// carriage return.
pub proof fn lemma_normalized_line(input: Seq<char>)
    requires
        normalize_key_spec(input) is Ok,
    ensures
        ({
            let n = normalize_key_spec(input)->Ok_0;
            &&& n.len() > 0
            &&& trim(n) == n
            &&& (n[0] == 's' || n[0] == 'e')
            &&& !has_char(n, '\n')
            &&& !has_char(n, '\r')
        }),
{
    lemma_normalized_shape(input);
    let w = words(trim(input));
    let n = normalize_key_spec(input)->Ok_0;
    lemma_join_ends(w, seq![' ']);
    lemma_trim_id(n);
    lemma_join_words_chars(w);
    reveal_strlit("ssh-ed25519");
    reveal_strlit("ssh-rsa");
    reveal_strlit("ecdsa-sha2-nistp256");
    reveal_strlit("ecdsa-sha2-nistp384");
    reveal_strlit("ecdsa-sha2-nistp521");
    assert(w[0][0] == 's' || w[0][0] == 'e');
    assert(!has_char(n, '\n')) by {
        if has_char(n, '\n') {
            let k = choose|k: int| 0 <= k < n.len() && n[k] == '\n';
            assert(n[k] == ' ' || !is_whitespace(n[k]));
        }
    }
    assert(!has_char(n, '\r')) by {
        if has_char(n, '\r') {
            let k = choose|k: int| 0 <= k < n.len() && n[k] == '\r';
            assert(n[k] == ' ' || !is_whitespace(n[k]));
        }
    }
}

/// Exactly five key algorithms are accepted: a parsed key's algorithm is one
/// of `ssh-ed25519`, `ssh-rsa` and `ecdsa-sha2-nistp256`/`384`/`521`, and a
/// line of at least two words is refused as unsupported exactly when its first
/// word is none of them.
pub proof fn lemma_accepted_algorithms(input: Seq<char>)
    ensures
        parse_key_spec(input) matches Ok(f) ==> seq![
            "ssh-ed25519"@,
            "ssh-rsa"@,
            "ecdsa-sha2-nistp256"@,
            "ecdsa-sha2-nistp384"@,
            "ecdsa-sha2-nistp521"@,
        ].contains(f.algorithm),
        words(trim(input)).len() >= 2 ==> (parse_key_spec(input) == Err::<
            PublicKeyFields,
            PublicKeyError,
        >(PublicKeyError::UnsupportedAlgorithm) <==> !seq![
            "ssh-ed25519"@,
            "ssh-rsa"@,
            "ecdsa-sha2-nistp256"@,
            "ecdsa-sha2-nistp384"@,
            "ecdsa-sha2-nistp521"@,
        ].contains(words(trim(input))[0])),
{
    let names = seq![
        "ssh-ed25519"@,
        "ssh-rsa"@,
        "ecdsa-sha2-nistp256"@,
        "ecdsa-sha2-nistp384"@,
        "ecdsa-sha2-nistp521"@,
    ];
    let t = trim(input);
    let w = words(t);
    if w.len() >= 1 {
        let a = w[0];
        if supported_algorithm(a) {
            if a == "ssh-ed25519"@ { assert(names[0] == a); }
            if a == "ssh-rsa"@ { assert(names[1] == a); }
            if a == "ecdsa-sha2-nistp256"@ { assert(names[2] == a); }
            if a == "ecdsa-sha2-nistp384"@ { assert(names[3] == a); }
            if a == "ecdsa-sha2-nistp521"@ { assert(names[4] == a); }
        }
        if names.contains(a) {
            let i = choose|i: int| 0 <= i < names.len() && names[i] == a;
            assert(supported_algorithm(a));
        }
    }
    if w.len() >= 2 && t.len() == 0 {
        lemma_words_are_words(t);
        assert(is_word(w[0]));
    }
}

} // verus!
