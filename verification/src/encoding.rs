//! The source loader's decoding rules.
//!
//! A file's bytes are taken as UTF-8 when they are valid UTF-8. Otherwise
//! the first two lines are scanned for a coding declaration, a comment of
//! the form `# ... coding[:=] <label>`; when one names a known encoding,
//! the bytes are decoded with it. With no usable declaration, a
//! statistical detector guesses the encoding (UTF-8 when inconclusive).
//! A decode that reports errors fails rather than substituting
//! replacement characters: decoding is lossless or refused.

use vstd::prelude::*;

use crate::bytes_util::bytes_subrange;
use crate::locate::has_word_at;
use crate::locate::skip_blanks;
use crate::locate::skip_blanks_from;
use crate::locate::word_at;
use crate::pipeline::FileError;
use crate::pipeline::FileErrorV;

verus! {

broadcast use crate::bytes_util::lemma_bytes_deep_view;

/// Whether the bytes are valid UTF-8. Valid bytes are taken as they are,
/// so decoding them is the identity.
pub uninterp spec fn utf8_valid(bytes: Seq<u8>) -> bool;

/// Relies on std::str::from_utf8: whether the bytes are valid UTF-8.
#[verifier::external_body]
fn is_valid_utf8(bytes: &Vec<u8>) -> (r: bool)
    ensures
        r == utf8_valid(bytes@),
{
    std::str::from_utf8(bytes).is_ok()
}

/// Whether a coding declaration's label names an encoding the decoder
/// knows.
pub uninterp spec fn label_known(label: Seq<u8>) -> bool;

/// Relies on encoding_rs::Encoding::for_label: whether the label names a
/// known encoding.
#[verifier::external_body]
fn encoding_label_known(label: &Vec<u8>) -> (r: bool)
    ensures
        r == label_known(label@),
{
    encoding_rs::Encoding::for_label(label).is_some()
}

/// The UTF-8 bytes of the text that decoding `bytes` with the encoding
/// named by `label` yields, or `None` when the decoder reports errors.
pub uninterp spec fn label_decoded(label: Seq<u8>, bytes: Seq<u8>) -> Option<Seq<u8>>;

/// Relies on encoding_rs::Encoding::for_label and Encoding::decode: the
/// text is a function of label and bytes alone, is valid UTF-8, and is
/// refused exactly when the decoder reports errors.
#[verifier::external_body]
fn decode_with_label(label: &Vec<u8>, bytes: &Vec<u8>) -> (r: Option<Vec<u8>>)
    requires
        label_known(label@),
    ensures
        r.deep_view() == label_decoded(label@, bytes@),
        r matches Some(t) ==> utf8_valid(t@),
{
    match encoding_rs::Encoding::for_label(label) {
        Some(enc) => {
            let (text, _, had_errors) = enc.decode(bytes);
            if had_errors {
                None
            } else {
                Some(text.into_owned().into_bytes())
            }
        },
        None => None,
    }
}

/// The UTF-8 bytes of the text that decoding `bytes` with the detector's
/// best guess yields, or `None` when that decode reports errors.
pub uninterp spec fn guess_decoded(bytes: Seq<u8>) -> Option<Seq<u8>>;

/// Relies on chardetng::EncodingDetector (new, feed, guess) and
/// encoding_rs::Encoding::decode: the detector is a deterministic
/// function of the bytes it is fed, defaulting to UTF-8 when
/// inconclusive, and the decoded text is valid UTF-8.
#[verifier::external_body]
fn guess_and_decode(bytes: &Vec<u8>) -> (r: Option<Vec<u8>>)
    ensures
        r.deep_view() == guess_decoded(bytes@),
        r matches Some(t) ==> utf8_valid(t@),
{
    let mut detector = chardetng::EncodingDetector::new(chardetng::Iso2022JpDetection::Allow);
    detector.feed(bytes, true);
    let enc = detector.guess(None, chardetng::Utf8Detection::Allow);
    let (text, _, had_errors) = enc.decode(bytes);
    if had_errors {
        None
    } else {
        Some(text.into_owned().into_bytes())
    }
}

/// Blank bytes before the `#` of a coding declaration: space, tab, form
/// feed.
pub open spec fn is_decl_blank(b: u8) -> bool {
    b == ' ' as u8 || b == '\t' as u8 || b == 12u8
}

/// First position at or after `k` that is no declaration blank.
pub open spec fn skip_decl_blanks(s: Seq<u8>, k: int) -> int
    decreases s.len() - k,
{
    if k < 0 {
        skip_decl_blanks(s, 0)
    } else if k >= s.len() {
        s.len() as int
    } else if is_decl_blank(s[k]) {
        skip_decl_blanks(s, k + 1)
    } else {
        k
    }
}

proof fn lemma_skip_decl_blanks_position(s: Seq<u8>, k: int, i: int)
    requires
        0 <= k <= i <= s.len(),
        forall|j: int| k <= j < i ==> is_decl_blank(s[j]),
        i < s.len() ==> !is_decl_blank(s[i]),
    ensures
        skip_decl_blanks(s, k) == i,
    decreases i - k,
{
    if k < i {
        lemma_skip_decl_blanks_position(s, k + 1, i);
    }
}

fn skip_decl_blanks_from(s: &Vec<u8>, k: usize) -> (e: usize)
    requires
        k <= s@.len(),
    ensures
        e == skip_decl_blanks(s@, k as int),
        k <= e <= s@.len(),
{
    let mut j: usize = k;
    while j < s.len()
        invariant
            k <= j <= s@.len(),
            forall|x: int| k <= x < j ==> is_decl_blank(s@[x]),
        decreases s@.len() - j,
    {
        let b = s[j];
        if !(b == ' ' as u8 || b == '\t' as u8 || b == 12u8) {
            proof {
                lemma_skip_decl_blanks_position(s@, k as int, j as int);
            }
            return j;
        }
        j = j + 1;
    }
    proof {
        lemma_skip_decl_blanks_position(s@, k as int, s@.len() as int);
    }
    s.len()
}

/// First line feed at or after `k`, or the length.
pub open spec fn first_newline(s: Seq<u8>, k: int) -> int
    decreases s.len() - k,
{
    if k < 0 {
        first_newline(s, 0)
    } else if k >= s.len() {
        s.len() as int
    } else if s[k] == '\n' as u8 {
        k
    } else {
        first_newline(s, k + 1)
    }
}

proof fn lemma_first_newline_position(s: Seq<u8>, k: int, i: int)
    requires
        0 <= k <= i <= s.len(),
        forall|j: int| k <= j < i ==> s[j] != '\n' as u8,
        i < s.len() ==> s[i] == '\n' as u8,
    ensures
        first_newline(s, k) == i,
    decreases i - k,
{
    if k < i {
        lemma_first_newline_position(s, k + 1, i);
    }
}

fn first_newline_from(s: &Vec<u8>, k: usize) -> (e: usize)
    requires
        k <= s@.len(),
    ensures
        e == first_newline(s@, k as int),
        k <= e <= s@.len(),
{
    let mut j: usize = k;
    while j < s.len()
        invariant
            k <= j <= s@.len(),
            forall|x: int| k <= x < j ==> s@[x] != '\n' as u8,
        decreases s@.len() - j,
    {
        if s[j] == '\n' as u8 {
            proof {
                lemma_first_newline_position(s@, k as int, j as int);
            }
            return j;
        }
        j = j + 1;
    }
    proof {
        lemma_first_newline_position(s@, k as int, s@.len() as int);
    }
    s.len()
}

/// A byte a coding declaration's label may hold.
pub open spec fn is_label_byte(b: u8) -> bool {
    ||| b == '-' as u8
    ||| b == '_' as u8
    ||| b == '.' as u8
    ||| '0' as u8 <= b <= '9' as u8
    ||| 'a' as u8 <= b <= 'z' as u8
    ||| 'A' as u8 <= b <= 'Z' as u8
}

fn is_label_byte_exec(b: u8) -> (r: bool)
    ensures
        r == is_label_byte(b),
{
    b == '-' as u8 || b == '_' as u8 || b == '.' as u8 || ('0' as u8 <= b && b <= '9' as u8) || (
    'a' as u8 <= b && b <= 'z' as u8) || ('A' as u8 <= b && b <= 'Z' as u8)
}

/// End of the label starting at `k`: the first non-label byte.
pub open spec fn label_end(s: Seq<u8>, k: int) -> int
    decreases s.len() - k,
{
    if k < 0 {
        label_end(s, 0)
    } else if k >= s.len() {
        s.len() as int
    } else if is_label_byte(s[k]) {
        label_end(s, k + 1)
    } else {
        k
    }
}

proof fn lemma_label_end_position(s: Seq<u8>, k: int, i: int)
    requires
        0 <= k <= i <= s.len(),
        forall|j: int| k <= j < i ==> is_label_byte(s[j]),
        i < s.len() ==> !is_label_byte(s[i]),
    ensures
        label_end(s, k) == i,
    decreases i - k,
{
    if k < i {
        lemma_label_end_position(s, k + 1, i);
    }
}

fn label_end_from(s: &Vec<u8>, k: usize) -> (e: usize)
    requires
        k <= s@.len(),
    ensures
        e == label_end(s@, k as int),
        k <= e <= s@.len(),
{
    let mut j: usize = k;
    while j < s.len()
        invariant
            k <= j <= s@.len(),
            forall|x: int| k <= x < j ==> is_label_byte(s@[x]),
        decreases s@.len() - j,
    {
        if !is_label_byte_exec(s[j]) {
            proof {
                lemma_label_end_position(s@, k as int, j as int);
            }
            return j;
        }
        j = j + 1;
    }
    proof {
        lemma_label_end_position(s@, k as int, s@.len() as int);
    }
    s.len()
}

/// Bytes of the word `coding`.
pub open spec fn coding_word() -> Seq<u8> {
    seq!['c' as u8, 'o' as u8, 'd' as u8, 'i' as u8, 'n' as u8, 'g' as u8]
}

fn coding_word_vec() -> (r: Vec<u8>)
    ensures
        r@ == coding_word(),
{
    let mut v: Vec<u8> = Vec::new();
    v.push('c' as u8);
    v.push('o' as u8);
    v.push('d' as u8);
    v.push('i' as u8);
    v.push('n' as u8);
    v.push('g' as u8);
    proof {
        assert(v@ =~= coding_word());
    }
    v
}

/// Whether `coding[:=]`, blanks, and at least one label byte stand at
/// position `p` of the line.
pub open spec fn coding_match_at(line: Seq<u8>, p: int) -> bool {
    &&& has_word_at(line, p, coding_word())
    &&& p + 7 <= line.len()
    &&& (line[p + 6] == ':' as u8 || line[p + 6] == '=' as u8)
    &&& {
        let q = skip_blanks(line, p + 7);
        q < line.len() && is_label_byte(line[q])
    }
}

fn coding_match(line: &Vec<u8>, p: usize) -> (r: bool)
    requires
        p <= line@.len(),
    ensures
        r == coding_match_at(line@, p as int),
{
    let w = coding_word_vec();
    if !word_at(line, p, &w) {
        return false;
    }
    if line.len() - p < 7 {
        return false;
    }
    let c = line[p + 6];
    if !(c == ':' as u8 || c == '=' as u8) {
        return false;
    }
    let q = skip_blanks_from(line, p + 7);
    q < line.len() && is_label_byte_exec(line[q])
}

/// First coding match at or after `k`, or the line's length.
pub open spec fn first_coding(line: Seq<u8>, k: int) -> int
    decreases line.len() - k,
{
    if k < 0 {
        first_coding(line, 0)
    } else if k >= line.len() {
        line.len() as int
    } else if coding_match_at(line, k) {
        k
    } else {
        first_coding(line, k + 1)
    }
}

proof fn lemma_first_coding_position(line: Seq<u8>, k: int, i: int)
    requires
        0 <= k <= i <= line.len(),
        forall|j: int| k <= j < i ==> !coding_match_at(line, j),
        i < line.len() ==> coding_match_at(line, i),
    ensures
        first_coding(line, k) == i,
    decreases i - k,
{
    if k < i {
        lemma_first_coding_position(line, k + 1, i);
    }
}

fn first_coding_from(line: &Vec<u8>, k: usize) -> (e: usize)
    requires
        k <= line@.len(),
    ensures
        e == first_coding(line@, k as int),
        k <= e <= line@.len(),
        e < line@.len() ==> coding_match_at(line@, e as int),
{
    let mut j: usize = k;
    while j < line.len()
        invariant
            k <= j <= line@.len(),
            forall|x: int| k <= x < j ==> !coding_match_at(line@, x),
        decreases line@.len() - j,
    {
        if coding_match(line, j) {
            proof {
                lemma_first_coding_position(line@, k as int, j as int);
            }
            return j;
        }
        j = j + 1;
    }
    proof {
        lemma_first_coding_position(line@, k as int, line@.len() as int);
    }
    line.len()
}

/// The declared label of one physical line: after leading blanks a `#`,
/// then anywhere in the comment `coding` with `:` or `=`, blanks, and the
/// label's bytes.
pub open spec fn line_coding_label(line: Seq<u8>) -> Option<Seq<u8>> {
    let i = skip_decl_blanks(line, 0);
    if i < line.len() && line[i] == '#' as u8 {
        let p = first_coding(line, i + 1);
        if p == line.len() {
            None
        } else {
            let q = skip_blanks(line, p + 7);
            Some(line.subrange(q, label_end(line, q)))
        }
    } else {
        None
    }
}

fn read_line_coding_label(line: &Vec<u8>) -> (r: Option<Vec<u8>>)
    ensures
        r.deep_view() == line_coding_label(line@),
{
    let i = skip_decl_blanks_from(line, 0);
    if i < line.len() && line[i] == '#' as u8 {
        let p = first_coding_from(line, i + 1);
        if p == line.len() {
            None
        } else {
            let q = skip_blanks_from(line, p + 7);
            let e = label_end_from(line, q);
            Some(bytes_subrange(line, q, e))
        }
    } else {
        None
    }
}

/// The line with one trailing carriage return stripped.
pub open spec fn stripped_cr(line: Seq<u8>) -> Seq<u8> {
    if line.len() > 0 && line.last() == '\r' as u8 {
        line.drop_last()
    } else {
        line
    }
}

/// The label of the coding declaration on the first two lines, if any:
/// the first line's declaration wins; the second line is read only when
/// the first has none.
pub open spec fn coding_label(bytes: Seq<u8>) -> Option<Seq<u8>> {
    let e1 = first_newline(bytes, 0);
    let l1 = stripped_cr(bytes.subrange(0, e1));
    match line_coding_label(l1) {
        Some(l) => Some(l),
        None => if e1 == bytes.len() {
            None
        } else {
            let e2 = first_newline(bytes, e1 + 1);
            line_coding_label(stripped_cr(bytes.subrange(e1 + 1, e2)))
        },
    }
}

fn line_slice(bytes: &Vec<u8>, a: usize, b: usize) -> (r: Vec<u8>)
    requires
        a <= b <= bytes@.len(),
    ensures
        r@ == stripped_cr(bytes@.subrange(a as int, b as int)),
{
    let e = if b > a && bytes[b - 1] == '\r' as u8 {
        b - 1
    } else {
        b
    };
    let r = bytes_subrange(bytes, a, e);
    proof {
        if b > a && bytes@[b as int - 1] == '\r' as u8 {
            assert(bytes@.subrange(a as int, b as int).drop_last() =~= bytes@.subrange(
                a as int,
                b as int - 1,
            ));
        }
    }
    r
}

/// Reads the coding declaration of the first two lines, if any.
pub fn detect_coding_declaration(bytes: &Vec<u8>) -> (r: Option<Vec<u8>>)
    ensures
        r.deep_view() == coding_label(bytes@),
{
    let e1 = first_newline_from(bytes, 0);
    let l1 = line_slice(bytes, 0, e1);
    match read_line_coding_label(&l1) {
        Some(l) => Some(l),
        None => {
            if e1 == bytes.len() {
                None
            } else {
                let e2 = first_newline_from(bytes, e1 + 1);
                let l2 = line_slice(bytes, e1 + 1, e2);
                read_line_coding_label(&l2)
            }
        },
    }
}

/// The decoded text of a source file's bytes: the bytes themselves when
/// they are valid UTF-8; otherwise, decoded with the declared encoding
/// when the first two lines declare a known one, and with the detector's
/// guess when they do not. A decode that reports errors is refused.
pub open spec fn decoded_content(bytes: Seq<u8>) -> Result<Seq<u8>, FileErrorV> {
    if utf8_valid(bytes) {
        Ok(bytes)
    } else {
        let attempt = match coding_label(bytes) {
            Some(l) => if label_known(l) {
                label_decoded(l, bytes)
            } else {
                guess_decoded(bytes)
            },
            None => guess_decoded(bytes),
        };
        match attempt {
            Some(t) => Ok(t),
            None => Err(FileErrorV::DecodeFailure),
        }
    }
}

/// Decodes a source file's bytes as `decoded_content` says; the returned
/// text is always valid UTF-8.
pub fn decode_file_content(bytes: &Vec<u8>) -> (r: Result<Vec<u8>, FileError>)
    ensures
        match r {
            Ok(t) => decoded_content(bytes@) == Ok::<Seq<u8>, FileErrorV>(t@) && utf8_valid(t@),
            Err(e) => decoded_content(bytes@) == Err::<Seq<u8>, FileErrorV>(e.deep_view()),
        },
{
    if is_valid_utf8(bytes) {
        return Ok(crate::bytes_util::bytes_clone(bytes));
    }
    let attempt = match detect_coding_declaration(bytes) {
        Some(l) => {
            if encoding_label_known(&l) {
                decode_with_label(&l, bytes)
            } else {
                guess_and_decode(bytes)
            }
        },
        None => guess_and_decode(bytes),
    };
    match attempt {
        Some(t) => Ok(t),
        None => Err(FileError::DecodeFailure),
    }
}

/// For valid UTF-8 input, the loader's outcome is the raw bytes
/// themselves: no detection, no change.
pub proof fn lemma_utf8_input_returned_verbatim(bytes: Seq<u8>)
    requires
        utf8_valid(bytes),
    ensures
        decoded_content(bytes) == Ok::<Seq<u8>, FileErrorV>(bytes),
{
}

/// For non-UTF-8 bytes whose first two lines declare a known encoding and
/// which that encoding decodes cleanly, the loader returns exactly that
/// decode.
pub proof fn lemma_declared_encoding_decodes_directly(
    bytes: Seq<u8>,
    label: Seq<u8>,
    text: Seq<u8>,
)
    requires
        !utf8_valid(bytes),
        coding_label(bytes) == Some(label),
        label_known(label),
        label_decoded(label, bytes) == Some(text),
    ensures
        decoded_content(bytes) == Ok::<Seq<u8>, FileErrorV>(text),
{
}

} // verus!
