//! Recognising a volume's snapshots among the entries of a listing.
//!
//! A listing line names its entry in its first token. The entry is a
//! snapshot of a volume when the token is the volume's path with a timestamp
//! of the fixed shape behind it, and nothing else: an `@`, eight digits, a
//! hyphen, four digits.

use vstd::prelude::*;
use vstd::string::*;
use vstd::utf8::*;

verus! {

/// The timestamp suffix as a regular expression: the suffix, and behind it
/// the end of the text.
pub const STAMP_PATTERN: &'static str = "@[0-9]{8}-[0-9]{4}$";

/// Whether `pattern` is a regular expression that the matcher accepts.
pub uninterp spec fn pattern_compiles(pattern: Seq<char>) -> bool;

#[verifier::external_type_specification]
#[verifier::external_body]
pub struct ExRegexError(regex::Error);

/// The decimal digits.
pub open spec fn is_digit(b: u8) -> bool {
    0x30 <= b <= 0x39
}

/// True when `m` is a timestamp suffix: an `@`, eight digits, a hyphen and
/// four digits, fourteen bytes in all.
pub open spec fn is_stamp(m: Seq<u8>) -> bool {
    &&& m.len() == 14
    &&& m[0] == 0x40
    &&& m[9] == 0x2d
    &&& forall|k: int| 1 <= k < 14 && k != 9 ==> is_digit(#[trigger] m[k])
}

/// Where the timestamp suffix stands in a text that ends with one: from the
/// fourteenth byte before the end up to the end.
pub open spec fn ending_stamp(text: Seq<u8>) -> Option<(int, int)> {
    if text.len() >= 14 && is_stamp(text.subrange(text.len() - 14, text.len() as int)) {
        Some((text.len() - 14, text.len() as int))
    } else {
        None
    }
}

/// The span as a pair of positions.
pub open spec fn span_of(span: Option<(usize, usize)>) -> Option<(int, int)> {
    match span {
        Some((s, e)) => Some((s as int, e as int)),
        None => None,
    }
}

/// Compiles `pattern` with `regex::Regex::new` and searches `text` with
/// `Regex::find`, giving the offsets `Match::start` and `Match::end`.
///
/// Trusted: whether the pattern compiles depends on the pattern alone. The
/// stamp pattern is a literal `@`, eight times the class `[0-9]`, which holds
/// the ten ASCII digits, a literal `-`, four times the class again, and `$`,
/// which matches at the end of the text and nowhere else. A match of it is
/// therefore fourteen one-byte characters that end the text: there is at
/// most one, and the search finds it.
#[verifier::external_body]
pub(crate) fn find_first(pattern: &str, text: &str) -> (r: Result<
    Option<(usize, usize)>,
    regex::Error,
>)
    requires
        pattern@ == STAMP_PATTERN@,
    ensures
        r is Ok <==> pattern_compiles(pattern@),
        r is Ok ==> span_of(r->Ok_0) == ending_stamp(text.spec_bytes()),
{
    let re = regex::Regex::new(pattern)?;
    Ok(re.find(text).map(|m| (m.start(), m.end())))
}

/// Renders a `regex::Error` through its `Display` impl. Nothing is claimed
/// of the text.
#[verifier::external_body]
pub(crate) fn pattern_error_text(e: regex::Error) -> (text: String) {
    format!("{}", e)
}

/// The bytes that end a token: the space and the control characters from
/// the tab to the carriage return.
pub open spec fn is_blank(b: u8) -> bool {
    b == 0x20 || 0x09 <= b <= 0x0d
}

/// The number of bytes before the first blank, or the whole length.
pub open spec fn token_len(bytes: Seq<u8>) -> nat
    decreases bytes.len(),
{
    if bytes.len() == 0 || is_blank(bytes[0]) {
        0
    } else {
        1 + token_len(bytes.drop_first())
    }
}

/// The first token of a line: what stands before its first blank.
pub open spec fn first_token_bytes(line: Seq<u8>) -> Seq<u8> {
    line.take(token_len(line) as int)
}

/// The token in plain terms: it is a prefix of the line without a blank, and
/// a blank or the end of the line follows it.
pub proof fn lemma_token_len(bytes: Seq<u8>)
    ensures
        token_len(bytes) <= bytes.len(),
        forall|i: int| 0 <= i < token_len(bytes) ==> !is_blank(#[trigger] bytes[i]),
        token_len(bytes) < bytes.len() ==> is_blank(bytes[token_len(bytes) as int]),
    decreases bytes.len(),
{
    if bytes.len() == 0 || is_blank(bytes[0]) {
    } else {
        let rest = bytes.drop_first();
        lemma_token_len(rest);
        assert forall|i: int| 0 <= i < token_len(bytes) implies !is_blank(
            #[trigger] bytes[i],
        ) by {
            if i > 0 {
                assert(bytes[i] == rest[i - 1]);
            }
        }
    }
}

fn is_blank_byte(b: u8) -> (r: bool)
    ensures
        r == is_blank(b),
{
    b == 0x20 || (0x09 <= b && b <= 0x0d)
}

/// The first token of `line`.
pub fn first_token<'a>(line: &'a str) -> (token: &'a str)
    ensures
        token.spec_bytes() == first_token_bytes(line.spec_bytes()),
{
    let bytes = line.as_bytes();
    let mut k: usize = 0;
    assert(bytes@.skip(0) =~= bytes@);
    while k < bytes.len() && !is_blank_byte(bytes[k])
        invariant
            k <= bytes@.len(),
            token_len(bytes@) == k + token_len(bytes@.skip(k as int)),
        decreases bytes@.len() - k,
    {
        proof {
            assert(bytes@.skip(k as int).drop_first() =~= bytes@.skip(k + 1));
        }
        k = k + 1;
    }
    proof {
        let b = line.spec_bytes();
        encode_utf8_valid_utf8(line@);
        assert(token_len(b) == k) by {
            if k < b.len() {
                assert(b.skip(k as int)[0] == b[k as int]);
            }
        }
        if k < b.len() {
            is_char_boundary_iff_not_is_continuation_byte(b, k as int);
        } else {
            is_char_boundary_start_end_of_seq(b);
        }
    }
    let (token, _rest) = line.split_at(k);
    token
}

/// The timestamp of a token that names a snapshot of `volume`, given the
/// span that the search for the timestamp pattern reported: the span must
/// end the token and hold a timestamp suffix, and the volume's path must be
/// all that stands before it. The timestamp is the suffix without its `@`.
/// Any other token, with any other span or none, names no snapshot of the
/// volume.
pub open spec fn attribution(volume: Seq<u8>, token: Seq<u8>, span: Option<(int, int)>) -> Option<
    Seq<u8>,
> {
    match span {
        Some((s, e)) => if 0 <= s && s + 14 == e && e == token.len() && is_stamp(
            token.subrange(s, e),
        ) && token.subrange(0, s) == volume {
            Some(token.subrange(s + 1, e))
        } else {
            None
        },
        None => None,
    }
}

/// True when `token` is the path `volume` with a timestamp suffix behind it,
/// and nothing else.
pub open spec fn names_snapshot(volume: Seq<u8>, token: Seq<u8>) -> bool {
    &&& token.len() == volume.len() + 14
    &&& token.subrange(0, volume.len() as int) == volume
    &&& is_stamp(token.subrange(volume.len() as int, token.len() as int))
}

/// The timestamp of a token that names a snapshot of `volume`.
pub open spec fn stamp_of(volume: Seq<u8>, token: Seq<u8>) -> Seq<u8> {
    token.subrange(volume.len() as int + 1, token.len() as int)
}

/// With the span of the suffix that ends the token, a token is attributed to
/// a volume exactly when it names a snapshot of it.
pub proof fn lemma_attribution_is_exact(volume: Seq<u8>, token: Seq<u8>)
    ensures
        attribution(volume, token, ending_stamp(token)) == if names_snapshot(volume, token) {
            Some(stamp_of(volume, token))
        } else {
            None
        },
{
    if names_snapshot(volume, token) {
        assert(volume.len() == token.len() - 14);
    }
    match ending_stamp(token) {
        Some((s, e)) => {
            if token.subrange(0, s) == volume {
                assert(volume.len() == s);
            }
        },
        None => {},
    }
}

/// A character starts at a byte below 0x80, and the next one right behind it.
proof fn lemma_ascii_boundaries(bytes: Seq<u8>, i: int)
    requires
        valid_utf8(bytes),
        0 <= i < bytes.len(),
        bytes[i] < 0x80,
    ensures
        is_char_boundary(bytes, i),
        is_char_boundary(bytes, i + 1),
{
    is_char_boundary_iff_not_is_continuation_byte(bytes, i);
    if i + 1 == bytes.len() {
        is_char_boundary_start_end_of_seq(bytes);
    } else {
        valid_utf8_split(bytes, i);
        let tail = bytes.subrange(i, bytes.len() as int);
        assert(tail[0] == bytes[i]);
        assert(pop_first_scalar(tail).len() == tail.len() - 1);
        assert(is_char_boundary(pop_first_scalar(tail), 0));
        assert(is_char_boundary(tail, 1));
        is_char_boundary_iff_not_is_continuation_byte(tail, 1);
        assert(tail[1] == bytes[i + 1]);
        is_char_boundary_iff_not_is_continuation_byte(bytes, i + 1);
    }
}

fn same_bytes(a: &[u8], b: &[u8]) -> (r: bool)
    ensures
        r == (a@ == b@),
{
    if a.len() != b.len() {
        return false;
    }
    let mut i: usize = 0;
    while i < a.len()
        invariant
            a@.len() == b@.len(),
            i <= a@.len(),
            forall|k: int| 0 <= k < i ==> a@[k] == b@[k],
        decreases a@.len() - i,
    {
        if a[i] != b[i] {
            return false;
        }
        i = i + 1;
    }
    assert(a@ =~= b@);
    true
}

/// Whether the fourteen bytes from `start` on are a timestamp suffix.
fn holds_stamp(bytes: &[u8], start: usize) -> (r: bool)
    requires
        start + 14 <= bytes@.len(),
    ensures
        r == is_stamp(bytes@.subrange(start as int, start + 14)),
{
    let ghost m = bytes@.subrange(start as int, start + 14);
    if bytes[start] != 0x40 || bytes[start + 9] != 0x2d {
        assert(m[0] == bytes@[start as int] && m[9] == bytes@[start + 9]);
        return false;
    }
    let n: usize = bytes.len();
    let mut k: usize = 1;
    while k < 14
        invariant
            1 <= k <= 14,
            start + 14 <= bytes@.len() == n,
            m == bytes@.subrange(start as int, start + 14),
            forall|j: int| 1 <= j < k && j != 9 ==> is_digit(#[trigger] m[j]),
        decreases 14 - k,
    {
        let b: u8 = bytes[start + k];
        assert(m[k as int] == b);
        if k != 9 && !(0x30 <= b && b <= 0x39) {
            return false;
        }
        k = k + 1;
    }
    assert(m[0] == bytes@[start as int] && m[9] == bytes@[start + 9]);
    true
}

/// The timestamp of `token` where it names a snapshot of `volume`, given the
/// span that the search for the timestamp pattern reported in the token; none
/// for any other token. The span is held to the shape and the place of the
/// suffix before anything is read from it.
pub fn attribute<'a>(volume: &str, token: &'a str, span: Option<(usize, usize)>) -> (r: Option<
    &'a str,
>)
    ensures
        match r {
            Some(stamp) => attribution(volume.spec_bytes(), token.spec_bytes(), span_of(span))
                == Some(stamp.spec_bytes()),
            None => attribution(volume.spec_bytes(), token.spec_bytes(), span_of(span)) is None,
        },
{
    match span {
        None => None,
        Some((s, e)) => {
            let bytes = token.as_bytes();
            if e != bytes.len() || s > e || e - s != 14 {
                return None;
            }
            if !holds_stamp(bytes, s) {
                return None;
            }
            proof {
                let b = token.spec_bytes();
                encode_utf8_valid_utf8(token@);
                assert(b[s as int] == b.subrange(s as int, e as int)[0]);
                lemma_ascii_boundaries(b, s as int);
            }
            let (head, _tail) = token.split_at(s);
            if !same_bytes(head.as_bytes(), volume.as_bytes()) {
                return None;
            }
            let (_front, stamp) = token.split_at(s + 1);
            Some(stamp)
        },
    }
}

} // verus!
