//! Decoding of encoded words in header values.
use crate::text::push_char;
use vstd::prelude::*;

verus! {

/// The index of the first `?` at or after `j`, or the length when there is none.
pub open spec fn qmark_after(s: Seq<char>, j: int) -> int
    decreases s.len() - j,
{
    if j >= s.len() {
        s.len() as int
    } else if s[j] == '?' {
        j
    } else {
        qmark_after(s, j + 1)
    }
}

/// Where the encoded word `=?charset?encoding?text?=` that starts at `i`
/// ends (one past its last character); `i` itself when none starts there.
/// Charset and encoding are not empty, and no part holds a `?`.
pub open spec fn token_end(s: Seq<char>, i: int) -> int {
    if 0 <= i && i + 1 < s.len() && s[i] == '=' && s[i + 1] == '?' {
        let q1 = qmark_after(s, i + 2);
        let q2 = qmark_after(s, q1 + 1);
        let q3 = qmark_after(s, q2 + 1);
        if i + 2 < q1 && q1 + 1 < q2 && q3 + 1 < s.len() && s[q3 + 1] == '=' {
            q3 + 2
        } else {
            i
        }
    } else {
        i
    }
}

/// Whether an encoded word starts anywhere in `s`.
pub open spec fn has_encoded_word(s: Seq<char>) -> bool {
    exists|i: int| 0 <= i < s.len() && token_end(s, i) > i
}

/// The text that `encoded_words::decode` reads from `s`, when it accepts it.
pub uninterp spec fn word_decoded_of(s: Seq<char>) -> Option<Seq<char>>;

/// Relies on `encoded_words::decode`, which decodes one encoded word.
#[verifier::external_body]
fn decode_encoded_word(s: &str) -> (r: Option<String>)
    ensures
        r is Some <==> word_decoded_of(s@) is Some,
        r is Some ==> r->Some_0@ == word_decoded_of(s@)->Some_0,
{
    encoded_words::decode(s).ok().map(|d| d.decoded)
}

/// What an encoded word becomes: its decoding, or itself when the decoder
/// refuses it.
pub open spec fn word_text(tok: Seq<char>) -> Seq<char> {
    match word_decoded_of(tok) {
        Some(d) => d,
        None => tok,
    }
}

/// The display text of `s` from position `i` on: each encoded word replaced
/// by its text, everything else kept.
pub open spec fn display_from(s: Seq<char>, i: int) -> Seq<char>
    decreases s.len() - i,
{
    if i < 0 || i >= s.len() {
        Seq::empty()
    } else {
        let t = token_end(s, i);
        if t > i && t <= s.len() {
            word_text(s.subrange(i, t)) + display_from(s, t)
        } else {
            seq![s[i]] + display_from(s, i + 1)
        }
    }
}

/// The display text of a header value.
pub open spec fn display_text(s: Seq<char>) -> Seq<char> {
    display_from(s, 0)
}

proof fn lemma_plain_from(s: Seq<char>, i: int)
    requires
        0 <= i <= s.len(),
        !has_encoded_word(s),
    ensures
        display_from(s, i) == s.subrange(i, s.len() as int),
    decreases s.len() - i,
{
    if i < s.len() {
        assert(!(token_end(s, i) > i));
        lemma_plain_from(s, i + 1);
        assert(seq![s[i]] + s.subrange(i + 1, s.len() as int) =~= s.subrange(i, s.len() as int));
    } else {
        assert(s.subrange(i, s.len() as int) =~= Seq::<char>::empty());
    }
}

/// A header value without encoded words is its own display text.
pub proof fn lemma_plain_value_unchanged(s: Seq<char>)
    requires
        !has_encoded_word(s),
    ensures
        display_text(s) == s,
{
    lemma_plain_from(s, 0);
    assert(s.subrange(0, s.len() as int) =~= s);
}

proof fn lemma_qmark_after_range(s: Seq<char>, j: int)
    requires
        0 <= j,
    ensures
        j <= qmark_after(s, j) || qmark_after(s, j) == s.len(),
        qmark_after(s, j) <= s.len() || j > s.len(),
        qmark_after(s, j) >= j || j > s.len(),
    decreases s.len() - j,
{
    if j < s.len() && s[j] != '?' {
        lemma_qmark_after_range(s, j + 1);
    }
}

fn next_qmark(s: &str, n: usize, j: usize) -> (r: usize)
    requires
        n == s@.len(),
        j <= n,
    ensures
        r as int == qmark_after(s@, j as int),
        j <= r <= n,
{
    let mut k: usize = j;
    while k < n && s.get_char(k) != '?'
        invariant
            n == s@.len(),
            j <= k <= n,
            qmark_after(s@, j as int) == qmark_after(s@, k as int),
        decreases n - k,
    {
        k = k + 1;
    }
    k
}

fn find_token_end(s: &str, n: usize, i: usize) -> (r: usize)
    requires
        n == s@.len(),
        i < n,
    ensures
        r as int == token_end(s@, i as int),
        i <= r <= n,
{
    if i + 1 < n && s.get_char(i) == '=' && s.get_char(i + 1) == '?' {
        let q1 = next_qmark(s, n, i + 2);
        if q1 >= n {
            proof {
                lemma_qmark_after_range(s@, q1 + 1);
                lemma_qmark_after_range(s@, qmark_after(s@, q1 + 1) + 1);
            }
            return i;
        }
        let q2 = next_qmark(s, n, q1 + 1);
        if q2 >= n {
            proof { lemma_qmark_after_range(s@, q2 + 1); }
            return i;
        }
        let q3 = next_qmark(s, n, q2 + 1);
        if i + 2 < q1 && q1 + 1 < q2 && q3 < n - 1 && s.get_char(q3 + 1) == '=' {
            q3 + 2
        } else {
            i
        }
    } else {
        i
    }
}

/// Decodes the encoded words of a header value and keeps the text around
/// them as it is; a word that the decoder refuses stays as written. A value
/// without encoded words comes back unchanged.
pub fn decode_words(s: &str) -> (r: String)
    ensures
        r@ == display_text(s@),
        !has_encoded_word(s@) ==> r@ == s@,
{
    let n = s.unicode_len();
    let mut out = String::new();
    let mut i: usize = 0;
    while i < n
        invariant
            n == s@.len(),
            i <= n,
            out@ + display_from(s@, i as int) == display_text(s@),
        decreases n - i,
    {
        let t = find_token_end(s, n, i);
        if t > i {
            let tok = s.substring_char(i, t);
            let text = match decode_encoded_word(tok) {
                Some(d) => d,
                None => tok.to_owned(),
            };
            let ghost before = out@;
            out.append(text.as_str());
            assert(out@ + display_from(s@, t as int) =~= before + display_from(s@, i as int));
            i = t;
        } else {
            let c = s.get_char(i);
            let ghost before = out@;
            push_char(&mut out, c);
            assert(out@ + display_from(s@, i + 1) =~= before + display_from(s@, i as int));
            i = i + 1;
        }
    }
    assert(display_from(s@, n as int) =~= Seq::<char>::empty());
    assert(out@ =~= display_text(s@));
    proof {
        if !has_encoded_word(s@) {
            lemma_plain_value_unchanged(s@);
        }
    }
    out
}

} // verus!
