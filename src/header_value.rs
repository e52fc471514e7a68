//! Decoding of encoded words (`=?charset?encoding?payload?=`) in header
//! values.
use vstd::prelude::*;

use crate::text::{chars_of, push_range, string_of};

verus! {

#[verifier::external_type_specification]
#[verifier::external_body]
pub struct ExCharset(charset::Charset);

/// Whether `charset::Charset::for_label_no_replacement` knows the label.
pub uninterp spec fn charset_label_known(label: Seq<char>) -> bool;

/// The text that the charset named by `label` makes of `bytes`, with no
/// byte-order-mark handling.
pub uninterp spec fn charset_decoded(label: Seq<char>, bytes: Seq<u8>) -> Seq<char>;

/// What `base64::decode` makes of a text: the bytes, or `None` on an error.
pub uninterp spec fn base64_decoded(text: Seq<char>) -> Option<Seq<u8>>;

/// What `quoted_printable::decode` makes of a text in robust mode.
pub uninterp spec fn quoted_printable_decoded(text: Seq<char>) -> Seq<u8>;

/// The longest payload, in characters or in bytes, that an encoded word is
/// decoded from; longer ones would overflow the decoders' buffer sizes.
pub const MAX_WORD_LEN: usize = usize::MAX / 8;

/// A charset together with the label that it was found by.
struct LabeledCharset {
    label: String,
    charset: charset::Charset,
}

/// Relies on `charset::Charset::for_label_no_replacement`: whether a label
/// names a charset depends on the label alone.
#[verifier::external_body]
fn charset_for_label(label: String) -> (r: Option<LabeledCharset>)
    ensures
        r is Some <==> charset_label_known(label@),
        r matches Some(c) ==> c.label@ == label@,
{
    match charset::Charset::for_label_no_replacement(label.as_bytes()) {
        Some(charset) => Some(LabeledCharset { label, charset }),
        None => None,
    }
}

/// Relies on `charset::Charset::decode_without_bom_handling`: the text
/// depends on the charset and the bytes alone, and malformed sequences become
/// U+FFFD rather than an error. It panics only where its buffer size
/// overflows `usize`, which the bound on the length rules out.
#[verifier::external_body]
fn decode_in_charset(c: &LabeledCharset, bytes: &[u8]) -> (r: String)
    requires
        bytes@.len() <= MAX_WORD_LEN,
    ensures
        r@ == charset_decoded(c.label@, bytes@),
{
    c.charset.decode_without_bom_handling(bytes).0.into_owned()
}

/// Relies on `base64::decode`: the result depends on the text alone. It
/// panics only where the text's length in bytes plus 3 overflows `usize`; a
/// character takes at most four bytes, so the bound rules that out.
#[verifier::external_body]
fn base64_decode(text: &str) -> (r: Option<Vec<u8>>)
    requires
        text@.len() <= MAX_WORD_LEN,
    ensures
        r is Some <==> base64_decoded(text@) is Some,
        r matches Some(b) ==> base64_decoded(text@) == Some(b@),
{
    base64::decode(text).ok()
}

/// Relies on `quoted_printable::decode` in `ParseMode::Robust`: the bytes
/// depend on the text alone, and in that mode it never returns an error
/// (only the strict mode does).
#[verifier::external_body]
fn quoted_printable_decode(text: &str) -> (r: Vec<u8>)
    ensures
        r@ == quoted_printable_decoded(text@),
{
    match quoted_printable::decode(text, quoted_printable::ParseMode::Robust) {
        Ok(bytes) => bytes,
        Err(_) => Vec::new(),
    }
}

/// An encoded word `=?charset?encoding?payload?=` in `s`: it starts at `i`,
/// the charset ends at the `?` at `p1`, the encoding at the `?` at `p2`, and
/// the word ends before `e`. None of its characters is a line feed.
pub open spec fn is_encoded_word(s: Seq<char>, i: int, p1: int, p2: int, e: int) -> bool {
    &&& 0 <= i
    &&& i + 2 <= p1 < p2
    &&& p2 + 3 <= e <= s.len()
    &&& s[i] == '=' && s[i + 1] == '?'
    &&& s[p1] == '?' && s[p2] == '?'
    &&& s[e - 2] == '?' && s[e - 1] == '='
    &&& forall|k: int| i <= k < e ==> s[k] != '\n'
}

/// The encoded word that a leftmost-first, greedy search from `from` finds:
/// the one that starts first, and of those the one with the longest charset,
/// then the longest encoding, then the longest payload.
pub open spec fn is_first_encoded_word(
    s: Seq<char>,
    from: int,
    i: int,
    p1: int,
    p2: int,
    e: int,
) -> bool {
    &&& from <= i
    &&& is_encoded_word(s, i, p1, p2, e)
    &&& forall|j: int, q1: int, q2: int, f: int|
        #![trigger is_encoded_word(s, j, q1, q2, f)]
        from <= j && is_encoded_word(s, j, q1, q2, f) ==> i < j || (i == j && (q1 < p1 || (q1
            == p1 && (q2 < p2 || (q2 == p2 && f <= e)))))
}

/// Whether no encoded word starts at or after `from`.
pub open spec fn no_encoded_word_from(s: Seq<char>, from: int) -> bool {
    forall|j: int, q1: int, q2: int, f: int|
        #![trigger is_encoded_word(s, j, q1, q2, f)]
        from <= j ==> !is_encoded_word(s, j, q1, q2, f)
}

/// The next encoded word at or after `from`, as `(i, p1, p2, e)`.
pub open spec fn next_encoded_word(s: Seq<char>, from: int) -> Option<(int, int, int, int)> {
    if exists|i: int, p1: int, p2: int, e: int| is_first_encoded_word(s, from, i, p1, p2, e) {
        Some(choose|i: int, p1: int, p2: int, e: int| is_first_encoded_word(s, from, i, p1, p2, e))
    } else {
        None
    }
}

/// The payload of a `Q` encoded word, with `_` standing for a space.
pub open spec fn underscores_to_spaces(payload: Seq<char>) -> Seq<char> {
    payload.map_values(|c: char| if c == '_' { ' ' } else { c })
}

/// The bytes that the transfer encoding of an encoded word gives its
/// payload: base64 for `b` or `B`, quoted-printable for `q` or `Q`.
pub open spec fn transfer_decoded(encoding: Seq<char>, payload: Seq<char>) -> Option<Seq<u8>> {
    if encoding.len() != 1 || payload.len() > MAX_WORD_LEN {
        None
    } else if encoding[0] == 'b' || encoding[0] == 'B' {
        base64_decoded(payload)
    } else if encoding[0] == 'q' || encoding[0] == 'Q' {
        Some(quoted_printable_decoded(underscores_to_spaces(payload)))
    } else {
        None
    }
}

/// The text of an encoded word, or `None` where its charset is unknown, its
/// encoding is neither base64 nor quoted-printable, or its payload does not
/// decode.
pub open spec fn word_text(charset: Seq<char>, encoding: Seq<char>, payload: Seq<char>) -> Option<
    Seq<char>,
> {
    if !charset_label_known(charset) {
        None
    } else {
        match transfer_decoded(encoding, payload) {
            Some(bytes) => if bytes.len() <= MAX_WORD_LEN {
                Some(charset_decoded(charset, bytes))
            } else {
                None
            },
            None => None,
        }
    }
}

/// What the encoded word `(i, p1, p2, e)` of `s` becomes in the output: its
/// text, or its source where it cannot be decoded.
pub open spec fn word_output(s: Seq<char>, i: int, p1: int, p2: int, e: int) -> Seq<char> {
    match word_text(s.subrange(i + 2, p1), s.subrange(p1 + 1, p2), s.subrange(p2 + 1, e - 2)) {
        Some(t) => t,
        None => s.subrange(i, e),
    }
}

/// The decoding of `s` from position `from` on: text outside encoded words is
/// kept, and each encoded word is replaced by its output.
pub open spec fn decoded_from(s: Seq<char>, from: int) -> Seq<char>
    decreases s.len() - from,
{
    if from < 0 || from >= s.len() {
        Seq::empty()
    } else {
        match next_encoded_word(s, from) {
            Some(m) => if from <= m.0 && m.0 + 6 <= m.3 <= s.len() {
                s.subrange(from, m.0) + word_output(s, m.0, m.1, m.2, m.3) + decoded_from(s, m.3)
            } else {
                s.subrange(from, s.len() as int)
            },
            None => s.subrange(from, s.len() as int),
        }
    }
}

/// The decoding of a whole header value.
pub open spec fn decoded_header(s: Seq<char>) -> Seq<char> {
    decoded_from(s, 0)
}

/// The end of the line that holds position `i`: the first line feed at or
/// after `i`, or the end of `s`.
fn line_end(s: &Vec<char>, i: usize) -> (r: usize)
    requires
        i <= s@.len(),
    ensures
        i <= r <= s@.len(),
        forall|k: int| i <= k < r ==> s@[k] != '\n',
        r < s@.len() ==> s@[r as int] == '\n',
{
    let mut r = i;
    while r < s.len() && s[r] != '\n'
        invariant
            i <= r <= s@.len(),
            forall|k: int| i <= k < r ==> s@[k] != '\n',
        decreases s@.len() - r,
    {
        r += 1;
    }
    r
}

/// Whether `?=` stands at `k` of `s`.
pub open spec fn closes_at(s: Seq<char>, k: int) -> bool {
    s[k] == '?' && s[k + 1] == '='
}

/// The last `k` in `lo..` with `?=` at `k`, both characters before `hi`.
fn last_close(s: &Vec<char>, lo: usize, hi: usize) -> (r: Option<usize>)
    requires
        lo <= hi <= s@.len(),
    ensures
        r matches Some(k) ==> lo <= k && k + 1 < hi && closes_at(s@, k as int) && forall|j: int|
            k < j && j + 1 < hi ==> !closes_at(s@, j),
        r is None ==> forall|j: int| lo <= j && j + 1 < hi ==> !closes_at(s@, j),
{
    let mut k = hi;
    while k > lo
        invariant
            lo <= k <= hi <= s@.len(),
            forall|j: int| k <= j && j + 1 < hi ==> !closes_at(s@, j),
        decreases k,
    {
        k -= 1;
        if k + 1 < hi && s[k] == '?' && s[k + 1] == '=' {
            return Some(k);
        }
    }
    None
}

/// The last position in `lo..hi` that holds a `?`.
fn last_question(s: &Vec<char>, lo: usize, hi: usize) -> (r: Option<usize>)
    requires
        lo <= hi <= s@.len(),
    ensures
        r matches Some(p) ==> lo <= p < hi && s@[p as int] == '?' && forall|j: int|
            p < j < hi ==> s@[j] != '?',
        r is None ==> forall|j: int| lo <= j < hi ==> s@[j] != '?',
{
    let mut k = hi;
    while k > lo
        invariant
            lo <= k <= hi <= s@.len(),
            forall|j: int| k <= j < hi ==> s@[j] != '?',
        decreases k,
    {
        k -= 1;
        if s[k] == '?' {
            return Some(k);
        }
    }
    None
}

/// Finds the encoded word that a leftmost-first, greedy search from `from`
/// finds, as `(i, p1, p2, e)`: it starts at `i`, its charset ends at `p1`,
/// its encoding at `p2`, and it ends before `e`.
pub fn find_encoded_word(s: &Vec<char>, from: usize) -> (r: Option<(usize, usize, usize, usize)>)
    requires
        from <= s@.len(),
    ensures
        r matches Some((i, p1, p2, e)) ==> is_first_encoded_word(
            s@,
            from as int,
            i as int,
            p1 as int,
            p2 as int,
            e as int,
        ),
        r is None ==> no_encoded_word_from(s@, from as int),
{
    let mut i = from;
    while s.len() - i >= 2
        invariant
            from <= i <= s@.len(),
            forall|j: int, q1: int, q2: int, f: int|
                #![trigger is_encoded_word(s@, j, q1, q2, f)]
                from <= j < i ==> !is_encoded_word(s@, j, q1, q2, f),
        decreases s@.len() - i,
    {
        if s[i] == '=' && s[i + 1] == '?' {
            let l = line_end(s, i);
            let close = last_close(s, i + 2, l);
            let mut found: Option<(usize, usize, usize)> = None;
            if let Some(k) = close {
                if let Some(p2) = last_question(s, i + 2, k) {
                    if let Some(p1) = last_question(s, i + 2, p2) {
                        found = Some((p1, p2, k + 2));
                    }
                }
            }
            assert forall|q1: int, q2: int, f: int| #[trigger]
                is_encoded_word(s@, i as int, q1, q2, f) implies found matches Some((p1, p2, e))
                && (q1 < p1 || (q1 == p1 && (q2 < p2 || (q2 == p2 && f <= e)))) by {
                assert(f <= l) by {
                    if f > l {
                        assert(s@[l as int] != '\n');
                    }
                }
                assert(closes_at(s@, f - 2));
                let k = close->0;
                assert(close is Some && f - 2 <= k);
                assert(s@[q2] == '?');
                assert(s@[q1] == '?');
            }
            if let Some((p1, p2, e)) = found {
                return Some((i, p1, p2, e));
            }
        }
        i += 1;
    }
    assert forall|j: int, q1: int, q2: int, f: int|
        #![trigger is_encoded_word(s@, j, q1, q2, f)]
        from <= j implies !is_encoded_word(s@, j, q1, q2, f) by {
        if j >= i {
            assert(!is_encoded_word(s@, j, q1, q2, f));
        }
    }
    None
}

/// The greedy search finds one encoded word at most.
proof fn lemma_next_encoded_word_is(s: Seq<char>, from: int, i: int, p1: int, p2: int, e: int)
    requires
        is_first_encoded_word(s, from, i, p1, p2, e),
    ensures
        next_encoded_word(s, from) == Some((i, p1, p2, e)),
{
    let m = choose|i: int, p1: int, p2: int, e: int| is_first_encoded_word(s, from, i, p1, p2, e);
    assert(is_first_encoded_word(s, from, m.0, m.1, m.2, m.3));
    assert(is_encoded_word(s, m.0, m.1, m.2, m.3));
    assert(is_encoded_word(s, i, p1, p2, e));
}

proof fn lemma_next_encoded_word_none(s: Seq<char>, from: int)
    requires
        no_encoded_word_from(s, from),
    ensures
        next_encoded_word(s, from) is None,
{
    if exists|i: int, p1: int, p2: int, e: int| is_first_encoded_word(s, from, i, p1, p2, e) {
        let m = choose|i: int, p1: int, p2: int, e: int|
            is_first_encoded_word(s, from, i, p1, p2, e);
        assert(is_encoded_word(s, m.0, m.1, m.2, m.3));
    }
}

/// Decodes the encoded word `(i, p1, p2, e)` of `s`: `None` where its charset
/// is unknown, its encoding is neither base64 nor quoted-printable, or its
/// payload does not decode.
fn decode_word(s: &Vec<char>, i: usize, p1: usize, p2: usize, e: usize) -> (r: Option<Vec<char>>)
    requires
        is_encoded_word(s@, i as int, p1 as int, p2 as int, e as int),
    ensures
        match word_text(
            s@.subrange(i + 2, p1 as int),
            s@.subrange(p1 + 1, p2 as int),
            s@.subrange(p2 + 1, e - 2),
        ) {
            Some(t) => r matches Some(v) && v@ == t,
            None => r is None,
        },
{
    let ghost payload = s@.subrange(p2 + 1, e - 2);
    let label = string_of(s, i + 2, p1);
    let charset = match charset_for_label(label) {
        Some(c) => c,
        None => {
            return None;
        },
    };
    if p2 - p1 != 2 || e - 2 - (p2 + 1) > MAX_WORD_LEN {
        return None;
    }
    let encoding = s[p1 + 1];
    let bytes = if encoding == 'b' || encoding == 'B' {
        let text = string_of(s, p2 + 1, e - 2);
        match base64_decode(text.as_str()) {
            Some(b) => b,
            None => {
                return None;
            },
        }
    } else if encoding == 'q' || encoding == 'Q' {
        let mut spaced: Vec<char> = Vec::new();
        let mut k = p2 + 1;
        while k < e - 2
            invariant
                p2 + 1 <= k <= e - 2,
                e <= s@.len(),
                payload == s@.subrange(p2 + 1, e - 2),
                spaced@ == underscores_to_spaces(s@.subrange(p2 + 1, k as int)),
            decreases e - 2 - k,
        {
            if s[k] == '_' {
                spaced.push(' ');
            } else {
                spaced.push(s[k]);
            }
            k += 1;
            assert(spaced@ =~= underscores_to_spaces(s@.subrange(p2 + 1, k as int)));
        }
        let text = string_of(&spaced, 0, spaced.len());
        assert(text@ =~= underscores_to_spaces(payload));
        quoted_printable_decode(text.as_str())
    } else {
        return None;
    };
    if bytes.len() > MAX_WORD_LEN {
        return None;
    }
    let text = decode_in_charset(&charset, bytes.as_slice());
    Some(chars_of(text.as_str()))
}

/// Decodes the encoded words `=?charset?encoding?payload?=` in a header
/// value. Words are found left to right by a greedy search that stays within
/// one line; text outside them is kept as it is, and a word that cannot be
/// decoded is kept as it is too.
pub fn decode(s: &str) -> (r: String)
    ensures
        r@ == decoded_header(s@),
{
    let chars = chars_of(s);
    let mut out: Vec<char> = Vec::new();
    let mut pos: usize = 0;
    loop
        invariant_except_break
            decoded_header(s@) == out@ + decoded_from(s@, pos as int),
        invariant
            pos <= chars@.len(),
            chars@ == s@,
        ensures
            decoded_header(s@) == out@,
        decreases chars@.len() - pos,
    {
        match find_encoded_word(&chars, pos) {
            Some((i, p1, p2, e)) => {
                proof {
                    lemma_next_encoded_word_is(s@, pos as int, i as int, p1 as int, p2 as int, e as int);
                }
                push_range(&mut out, &chars, pos, i);
                match decode_word(&chars, i, p1, p2, e) {
                    Some(text) => {
                        push_range(&mut out, &text, 0, text.len());
                        assert(text@.subrange(0, text@.len() as int) =~= text@);
                    },
                    None => {
                        push_range(&mut out, &chars, i, e);
                    },
                }
                pos = e;
            },
            None => {
                proof {
                    lemma_next_encoded_word_none(s@, pos as int);
                }
                let ghost before = out@;
                push_range(&mut out, &chars, pos, chars.len());
                assert(decoded_from(s@, pos as int) =~= s@.subrange(pos as int, s@.len() as int));
                assert(out@ =~= before + decoded_from(s@, pos as int));
                break ;
            },
        }
    }
    let r = string_of(&out, 0, out.len());
    assert(out@.subrange(0, out@.len() as int) =~= out@);
    r
}

/// A header value that holds no encoded word decodes to itself.
pub proof fn lemma_plain_text_unchanged(s: Seq<char>)
    requires
        no_encoded_word_from(s, 0),
    ensures
        decoded_header(s) == s,
{
    if s.len() > 0 {
        lemma_next_encoded_word_none(s, 0);
        assert(s.subrange(0, s.len() as int) =~= s);
    }
}

/// A header value whose one encoded word cannot be decoded, because its
/// charset label is unknown or its base64 payload does not decode, comes back
/// whole and unchanged, not only that word.
pub proof fn lemma_undecodable_word_keeps_input(s: Seq<char>, i: int, p1: int, p2: int, e: int)
    requires
        is_first_encoded_word(s, 0, i, p1, p2, e),
        no_encoded_word_from(s, e),
        !charset_label_known(s.subrange(i + 2, p1)) || ({
            let encoding = s.subrange(p1 + 1, p2);
            &&& encoding.len() == 1
            &&& encoding[0] == 'b' || encoding[0] == 'B'
            &&& base64_decoded(s.subrange(p2 + 1, e - 2)) is None
        }),
    ensures
        decoded_header(s) == s,
{
    lemma_next_encoded_word_is(s, 0, i, p1, p2, e);
    assert(word_output(s, i, p1, p2, e) == s.subrange(i, e));
    if e < s.len() {
        lemma_next_encoded_word_none(s, e);
    }
    assert(decoded_from(s, e) =~= s.subrange(e, s.len() as int));
    assert(s.subrange(0, i) + s.subrange(i, e) + s.subrange(e, s.len() as int) =~= s);
}

/// On a line without line feeds, the greedy search leaves no encoded word
/// after the one it finds: that word runs to the last `?=`.
proof fn lemma_single_line_one_word(s: Seq<char>, from: int, i: int, p1: int, p2: int, e: int)
    requires
        is_first_encoded_word(s, from, i, p1, p2, e),
        forall|k: int| 0 <= k < s.len() ==> s[k] != '\n',
    ensures
        no_encoded_word_from(s, e),
{
    assert forall|j: int, q1: int, q2: int, f: int|
        #![trigger is_encoded_word(s, j, q1, q2, f)]
        e <= j implies !is_encoded_word(s, j, q1, q2, f) by {
        if is_encoded_word(s, j, q1, q2, f) {
            assert(is_encoded_word(s, i, p1, p2, f));
        }
    }
}

/// A header value on one line whose first encoded word cannot be decoded,
/// because its charset label is unknown or its base64 payload does not
/// decode, comes back whole and unchanged.
pub proof fn lemma_undecodable_single_line_keeps_input(
    s: Seq<char>,
    i: int,
    p1: int,
    p2: int,
    e: int,
)
    requires
        forall|k: int| 0 <= k < s.len() ==> s[k] != '\n',
        is_first_encoded_word(s, 0, i, p1, p2, e),
        !charset_label_known(s.subrange(i + 2, p1)) || ({
            let encoding = s.subrange(p1 + 1, p2);
            &&& encoding.len() == 1
            &&& encoding[0] == 'b' || encoding[0] == 'B'
            &&& base64_decoded(s.subrange(p2 + 1, e - 2)) is None
        }),
    ensures
        decoded_header(s) == s,
{
    lemma_single_line_one_word(s, 0, i, p1, p2, e);
    lemma_undecodable_word_keeps_input(s, i, p1, p2, e);
}

} // verus!
