//! The location mapper: turns byte offsets in source text into 1-based
//! line/column positions, and reads the inline suppression comment of the
//! line, `# deptry: ignore` with an optional bracketed code list.
//!
//! Columns count characters, not bytes: a UTF-8 continuation byte does not
//! start a character, so multi-byte characters earlier on a line do not
//! shift the reported column.

use vstd::prelude::*;

use crate::ast::TextSpan;
use crate::bytes_util::bytes_clone;
use crate::bytes_util::bytes_subrange;
use crate::location::Location;
use crate::location::LocationV;
use crate::table::ModuleTable;

verus! {

broadcast use crate::bytes_util::lemma_bytes_deep_view;

/// Blank bytes inside a suppression comment: space and tab.
pub open spec fn is_blank(b: u8) -> bool {
    b == ' ' as u8 || b == '\t' as u8
}

/// A UTF-8 continuation byte: does not start a character.
pub open spec fn is_continuation(b: u8) -> bool {
    0x80 <= b < 0xC0
}

/// A byte that ends a physical line.
pub open spec fn is_line_end_byte(b: u8) -> bool {
    b == '\n' as u8 || b == '\r' as u8
}

/// A line break completes at `i`: a line feed, or a carriage return not
/// followed by a line feed (`\r\n` counts once, at its line feed).
pub open spec fn is_break_at(text: Seq<u8>, i: int) -> bool {
    &&& 0 <= i < text.len()
    &&& {
        ||| text[i] == '\n' as u8
        ||| (text[i] == '\r' as u8 && (i + 1 == text.len() || text[i + 1] != '\n' as u8))
    }
}

/// Number of line breaks completed strictly before `k`.
pub open spec fn breaks_before(text: Seq<u8>, k: int) -> int
    decreases k,
{
    if k <= 0 {
        0
    } else {
        breaks_before(text, k - 1) + if is_break_at(text, k - 1) {
            1int
        } else {
            0int
        }
    }
}

pub proof fn lemma_breaks_before_bound(text: Seq<u8>, k: int)
    ensures
        0 <= breaks_before(text, k) <= (if k >= 0 {
            k
        } else {
            0
        }),
    decreases k,
{
    if k > 0 {
        lemma_breaks_before_bound(text, k - 1);
    }
}

/// Start of the line that contains position `off`.
pub open spec fn line_start(text: Seq<u8>, off: int) -> int
    decreases off,
{
    if off <= 0 {
        0
    } else if is_break_at(text, off - 1) {
        off
    } else {
        line_start(text, off - 1)
    }
}

pub proof fn lemma_line_start_bound(text: Seq<u8>, off: int)
    ensures
        0 <= line_start(text, off) <= (if off >= 0 {
            off
        } else {
            0
        }),
    decreases off,
{
    if off > 0 && !is_break_at(text, off - 1) {
        lemma_line_start_bound(text, off - 1);
    }
}

/// End (exclusive) of the physical line starting at or containing `k`:
/// the first line-end byte at or after `k`, or the end of the text.
pub open spec fn line_end(text: Seq<u8>, k: int) -> int
    decreases text.len() - k,
{
    if k < 0 {
        line_end(text, 0)
    } else if k >= text.len() {
        text.len() as int
    } else if is_line_end_byte(text[k]) {
        k
    } else {
        line_end(text, k + 1)
    }
}

proof fn lemma_line_end_position(text: Seq<u8>, k: int, i: int)
    requires
        0 <= k <= i <= text.len(),
        forall|j: int| k <= j < i ==> !is_line_end_byte(text[j]),
        i < text.len() ==> is_line_end_byte(text[i]),
    ensures
        line_end(text, k) == i,
    decreases i - k,
{
    if k < i {
        lemma_line_end_position(text, k + 1, i);
    }
}

/// Number of characters in `text[a..b)`: bytes that start a character.
pub open spec fn chars_between(text: Seq<u8>, a: int, b: int) -> int
    decreases b - a,
{
    if b <= a {
        0
    } else {
        chars_between(text, a, b - 1) + if is_continuation(text[b - 1]) {
            0int
        } else {
            1int
        }
    }
}

pub proof fn lemma_chars_between_bound(text: Seq<u8>, a: int, b: int)
    ensures
        0 <= chars_between(text, a, b) <= (if b >= a {
            b - a
        } else {
            0
        }),
    decreases b - a,
{
    if b > a {
        lemma_chars_between_bound(text, a, b - 1);
    }
}

/// The byte offset the mapper works from: the span's start, clamped to
/// the text's end.
pub open spec fn clamped_offset(text: Seq<u8>, start: u32) -> int {
    if start as int <= text.len() {
        start as int
    } else {
        text.len() as int
    }
}

/// The 1-based line of byte offset `start` (saturating at the largest
/// machine integer, which no real text reaches).
pub open spec fn line_of(text: Seq<u8>, start: u32) -> int {
    let b = 1 + breaks_before(text, clamped_offset(text, start));
    if b > usize::MAX {
        usize::MAX as int
    } else {
        b
    }
}

/// The 1-based character column of byte offset `start` within its line
/// (saturating at the largest machine integer).
pub open spec fn column_of(text: Seq<u8>, start: u32) -> int {
    let c = 1 + chars_between(
        text,
        line_start(text, clamped_offset(text, start)),
        clamped_offset(text, start),
    );
    if c > usize::MAX {
        usize::MAX as int
    } else {
        c
    }
}

fn is_break_at_exec(text: &Vec<u8>, i: usize) -> (r: bool)
    requires
        i < text@.len(),
    ensures
        r == is_break_at(text@, i as int),
{
    let n = text.len();
    if text[i] == '\n' as u8 {
        true
    } else if text[i] == '\r' as u8 {
        i + 1 == n || text[i + 1] != '\n' as u8
    } else {
        false
    }
}

/// The 1-based (saturating) line of `off` and the start of that line.
fn line_and_start(text: &Vec<u8>, off: usize) -> (r: (usize, usize))
    requires
        off <= text@.len(),
    ensures
        r.0 == (if 1 + breaks_before(text@, off as int) > usize::MAX {
            usize::MAX as int
        } else {
            1 + breaks_before(text@, off as int)
        }),
        r.1 == line_start(text@, off as int),
{
    let mut j: usize = 0;
    let mut breaks: usize = 0;
    let mut st: usize = 0;
    while j < off
        invariant
            j <= off <= text@.len(),
            breaks == breaks_before(text@, j as int),
            breaks <= j,
            st == line_start(text@, j as int),
        decreases off - j,
    {
        if is_break_at_exec(text, j) {
            breaks = breaks + 1;
            st = j + 1;
        }
        j = j + 1;
    }
    if breaks == usize::MAX {
        (usize::MAX, st)
    } else {
        (breaks + 1, st)
    }
}

/// The 1-based (saturating) character column of `off` on the line
/// starting at `st`.
fn column_from(text: &Vec<u8>, st: usize, off: usize) -> (col: usize)
    requires
        st <= off <= text@.len(),
    ensures
        col == (if 1 + chars_between(text@, st as int, off as int) > usize::MAX {
            usize::MAX as int
        } else {
            1 + chars_between(text@, st as int, off as int)
        }),
{
    let mut j: usize = st;
    let mut chars: usize = 0;
    while j < off
        invariant
            st <= j <= off <= text@.len(),
            chars == chars_between(text@, st as int, j as int),
            chars <= j - st,
        decreases off - j,
    {
        let b = text[j];
        if !(0x80 <= b && b < 0xC0) {
            chars = chars + 1;
        }
        j = j + 1;
    }
    if chars == usize::MAX {
        usize::MAX
    } else {
        chars + 1
    }
}

/// Bytes of the suppression keyword with its colon, `deptry:`.
pub open spec fn marker_keyword() -> Seq<u8> {
    seq!['d' as u8, 'e' as u8, 'p' as u8, 't' as u8, 'r' as u8, 'y' as u8, ':' as u8]
}

/// Bytes of `ignore`.
pub open spec fn ignore_word() -> Seq<u8> {
    seq!['i' as u8, 'g' as u8, 'n' as u8, 'o' as u8, 'r' as u8, 'e' as u8]
}

/// The sentinel rule entry meaning "suppress every rule here".
pub open spec fn all_rules_marker() -> Seq<u8> {
    seq!['*' as u8]
}

fn marker_keyword_vec() -> (r: Vec<u8>)
    ensures
        r@ == marker_keyword(),
{
    let mut v: Vec<u8> = Vec::new();
    v.push('d' as u8);
    v.push('e' as u8);
    v.push('p' as u8);
    v.push('t' as u8);
    v.push('r' as u8);
    v.push('y' as u8);
    v.push(':' as u8);
    proof {
        assert(v@ =~= marker_keyword());
    }
    v
}

fn ignore_word_vec() -> (r: Vec<u8>)
    ensures
        r@ == ignore_word(),
{
    let mut v: Vec<u8> = Vec::new();
    v.push('i' as u8);
    v.push('g' as u8);
    v.push('n' as u8);
    v.push('o' as u8);
    v.push('r' as u8);
    v.push('e' as u8);
    proof {
        assert(v@ =~= ignore_word());
    }
    v
}

fn all_rules_marker_vec() -> (r: Vec<u8>)
    ensures
        r@ == all_rules_marker(),
{
    let mut v: Vec<u8> = Vec::new();
    v.push('*' as u8);
    proof {
        assert(v@ =~= all_rules_marker());
    }
    v
}

/// First non-blank position at or after `k`.
pub open spec fn skip_blanks(s: Seq<u8>, k: int) -> int
    decreases s.len() - k,
{
    if k < 0 {
        skip_blanks(s, 0)
    } else if k >= s.len() {
        s.len() as int
    } else if is_blank(s[k]) {
        skip_blanks(s, k + 1)
    } else {
        k
    }
}

proof fn lemma_skip_blanks_position(s: Seq<u8>, k: int, i: int)
    requires
        0 <= k <= i <= s.len(),
        forall|j: int| k <= j < i ==> is_blank(s[j]),
        i < s.len() ==> !is_blank(s[i]),
    ensures
        skip_blanks(s, k) == i,
    decreases i - k,
{
    if k < i {
        lemma_skip_blanks_position(s, k + 1, i);
    }
}

pub(crate) fn skip_blanks_from(s: &Vec<u8>, k: usize) -> (e: usize)
    requires
        k <= s@.len(),
    ensures
        e == skip_blanks(s@, k as int),
        k <= e <= s@.len(),
{
    let mut j: usize = k;
    while j < s.len()
        invariant
            k <= j <= s@.len(),
            forall|x: int| k <= x < j ==> is_blank(s@[x]),
        decreases s@.len() - j,
    {
        let b = s[j];
        if !(b == ' ' as u8 || b == '\t' as u8) {
            proof {
                lemma_skip_blanks_position(s@, k as int, j as int);
            }
            return j;
        }
        j = j + 1;
    }
    proof {
        lemma_skip_blanks_position(s@, k as int, s@.len() as int);
    }
    s.len()
}

/// Whether the word `w` stands at position `k` of `s`.
pub open spec fn has_word_at(s: Seq<u8>, k: int, w: Seq<u8>) -> bool {
    &&& 0 <= k
    &&& k + w.len() <= s.len()
    &&& s.subrange(k, k + w.len() as int) == w
}

pub(crate) fn word_at(s: &Vec<u8>, k: usize, w: &Vec<u8>) -> (r: bool)
    ensures
        r == has_word_at(s@, k as int, w@),
{
    let n = s.len();
    if k > n || n - k < w.len() {
        return false;
    }
    let mut j: usize = 0;
    while j < w.len()
        invariant
            j <= w@.len(),
            k + w@.len() <= s@.len(),
            s@.len() <= usize::MAX,
            forall|x: int| 0 <= x < j ==> s@[k + x] == w@[x],
        decreases w@.len() - j,
    {
        if s[k + j] != w[j] {
            proof {
                assert(s@.subrange(k as int, k + w@.len() as int)[j as int] != w@[j as int]);
            }
            return false;
        }
        j = j + 1;
    }
    proof {
        assert(s@.subrange(k as int, k + w@.len() as int) =~= w@);
    }
    true
}

/// Whether a suppression marker (`#`, blanks, `deptry:`, blanks, `ignore`)
/// starts at position `h` of the line.
pub open spec fn marker_match_at(s: Seq<u8>, h: int) -> bool {
    &&& 0 <= h < s.len()
    &&& s[h] == '#' as u8
    &&& has_word_at(s, skip_blanks(s, h + 1), marker_keyword())
    &&& has_word_at(
        s,
        skip_blanks(s, skip_blanks(s, h + 1) + marker_keyword().len() as int),
        ignore_word(),
    )
}

/// Position right after the marker's `ignore` word.
pub open spec fn marker_codes_start(s: Seq<u8>, h: int) -> int {
    skip_blanks(s, skip_blanks(s, h + 1) + marker_keyword().len() as int) + ignore_word().len()
}

fn marker_match(s: &Vec<u8>, h: usize) -> (r: bool)
    requires
        h < s@.len(),
    ensures
        r == marker_match_at(s@, h as int),
{
    let n = s.len();
    if s[h] != '#' as u8 {
        return false;
    }
    let kw = marker_keyword_vec();
    let k1 = skip_blanks_from(s, h + 1);
    if !word_at(s, k1, &kw) {
        return false;
    }
    proof {
        assert(k1 + 7 <= n);
    }
    let ig = ignore_word_vec();
    let k2 = skip_blanks_from(s, k1 + 7);
    word_at(s, k2, &ig)
}

/// First suppression-marker position at or after `h`, or the line's length.
pub open spec fn first_marker(s: Seq<u8>, h: int) -> int
    decreases s.len() - h,
{
    if h < 0 {
        first_marker(s, 0)
    } else if h >= s.len() {
        s.len() as int
    } else if marker_match_at(s, h) {
        h
    } else {
        first_marker(s, h + 1)
    }
}

proof fn lemma_first_marker_position(s: Seq<u8>, h: int, i: int)
    requires
        0 <= h <= i <= s.len(),
        forall|j: int| h <= j < i ==> !marker_match_at(s, j),
        i < s.len() ==> marker_match_at(s, i),
    ensures
        first_marker(s, h) == i,
    decreases i - h,
{
    if h < i {
        lemma_first_marker_position(s, h + 1, i);
    }
}

proof fn lemma_first_marker_bounds(s: Seq<u8>, h: int)
    requires
        0 <= h <= s.len(),
    ensures
        h <= first_marker(s, h) <= s.len(),
        first_marker(s, h) < s.len() ==> marker_match_at(s, first_marker(s, h)),
    decreases s.len() - h,
{
    if h < s.len() && !marker_match_at(s, h) {
        lemma_first_marker_bounds(s, h + 1);
    }
}

fn find_marker(s: &Vec<u8>) -> (h: usize)
    ensures
        h == first_marker(s@, 0),
        h <= s@.len(),
{
    let mut j: usize = 0;
    while j < s.len()
        invariant
            j <= s@.len(),
            forall|x: int| 0 <= x < j ==> !marker_match_at(s@, x),
        decreases s@.len() - j,
    {
        if marker_match(s, j) {
            proof {
                lemma_first_marker_position(s@, 0, j as int);
            }
            return j;
        }
        j = j + 1;
    }
    proof {
        lemma_first_marker_position(s@, 0, s@.len() as int);
    }
    s.len()
}

/// First comma at or after `k`, or the length.
pub open spec fn next_comma(s: Seq<u8>, k: int) -> int
    decreases s.len() - k,
{
    if k < 0 {
        next_comma(s, 0)
    } else if k >= s.len() {
        s.len() as int
    } else if s[k] == ',' as u8 {
        k
    } else {
        next_comma(s, k + 1)
    }
}

pub proof fn lemma_next_comma_bounds(s: Seq<u8>, k: int)
    requires
        0 <= k <= s.len(),
    ensures
        k <= next_comma(s, k) <= s.len(),
    decreases s.len() - k,
{
    if k < s.len() && s[k] != ',' as u8 {
        lemma_next_comma_bounds(s, k + 1);
    }
}

proof fn lemma_next_comma_position(s: Seq<u8>, k: int, i: int)
    requires
        0 <= k <= i <= s.len(),
        forall|j: int| k <= j < i ==> s[j] != ',' as u8,
        i < s.len() ==> s[i] == ',' as u8,
    ensures
        next_comma(s, k) == i,
    decreases i - k,
{
    if k < i {
        lemma_next_comma_position(s, k + 1, i);
    }
}

fn next_comma_from(s: &Vec<u8>, k: usize) -> (e: usize)
    requires
        k <= s@.len(),
    ensures
        e == next_comma(s@, k as int),
        k <= e <= s@.len(),
{
    let mut j: usize = k;
    while j < s.len()
        invariant
            k <= j <= s@.len(),
            forall|x: int| k <= x < j ==> s@[x] != ',' as u8,
        decreases s@.len() - j,
    {
        if s[j] == ',' as u8 {
            proof {
                lemma_next_comma_position(s@, k as int, j as int);
            }
            return j;
        }
        j = j + 1;
    }
    proof {
        lemma_next_comma_position(s@, k as int, s@.len() as int);
    }
    s.len()
}

/// First closing bracket at or after `k`, or the length.
pub open spec fn next_close_bracket(s: Seq<u8>, k: int) -> int
    decreases s.len() - k,
{
    if k < 0 {
        next_close_bracket(s, 0)
    } else if k >= s.len() {
        s.len() as int
    } else if s[k] == ']' as u8 {
        k
    } else {
        next_close_bracket(s, k + 1)
    }
}

proof fn lemma_next_close_bracket_position(s: Seq<u8>, k: int, i: int)
    requires
        0 <= k <= i <= s.len(),
        forall|j: int| k <= j < i ==> s[j] != ']' as u8,
        i < s.len() ==> s[i] == ']' as u8,
    ensures
        next_close_bracket(s, k) == i,
    decreases i - k,
{
    if k < i {
        lemma_next_close_bracket_position(s, k + 1, i);
    }
}

fn next_close_bracket_from(s: &Vec<u8>, k: usize) -> (e: usize)
    requires
        k <= s@.len(),
    ensures
        e == next_close_bracket(s@, k as int),
        k <= e <= s@.len(),
{
    let mut j: usize = k;
    while j < s.len()
        invariant
            k <= j <= s@.len(),
            forall|x: int| k <= x < j ==> s@[x] != ']' as u8,
        decreases s@.len() - j,
    {
        if s[j] == ']' as u8 {
            proof {
                lemma_next_close_bracket_position(s@, k as int, j as int);
            }
            return j;
        }
        j = j + 1;
    }
    proof {
        lemma_next_close_bracket_position(s@, k as int, s@.len() as int);
    }
    s.len()
}

fn is_blank_byte(b: u8) -> (r: bool)
    ensures
        r == is_blank(b),
{
    b == ' ' as u8 || b == '\t' as u8
}

/// Length of `t` with trailing blanks dropped.
pub open spec fn trim_right_end(t: Seq<u8>) -> int
    decreases t.len(),
{
    if t.len() == 0 {
        0
    } else if is_blank(t.last()) {
        trim_right_end(t.drop_last())
    } else {
        t.len() as int
    }
}

/// `t` with leading and trailing blanks dropped.
pub open spec fn trimmed(t: Seq<u8>) -> Seq<u8> {
    let a = skip_blanks(t, 0);
    let b = trim_right_end(t);
    if a >= b {
        Seq::empty()
    } else {
        t.subrange(a, b)
    }
}

fn trim_right_from(t: &Vec<u8>) -> (e: usize)
    ensures
        e == trim_right_end(t@),
        e <= t@.len(),
{
    let mut j: usize = t.len();
    proof {
        assert(t@.subrange(0, t@.len() as int) =~= t@);
    }
    while j > 0 && is_blank_byte(t[j - 1])
        invariant
            j <= t@.len(),
            trim_right_end(t@) == trim_right_end(t@.subrange(0, j as int)),
        decreases j,
    {
        proof {
            assert(t@.subrange(0, j as int).drop_last() =~= t@.subrange(0, j as int - 1));
        }
        j = j - 1;
    }
    proof {
        if j > 0 {
            assert(trim_right_end(t@.subrange(0, j as int)) == j as int);
        }
    }
    j
}

/// A copy of `t` with leading and trailing blanks dropped.
fn trimmed_copy(t: &Vec<u8>) -> (r: Vec<u8>)
    ensures
        r@ == trimmed(t@),
{
    let a = skip_blanks_from(t, 0);
    let b = trim_right_from(t);
    if a >= b {
        Vec::new()
    } else {
        bytes_subrange(t, a, b)
    }
}

/// The non-empty trimmed code, as a one-entry list, or nothing.
pub open spec fn code_item(w: Seq<u8>) -> Seq<Seq<u8>> {
    if w.len() == 0 {
        Seq::empty()
    } else {
        seq![w]
    }
}

/// The comma-separated rule codes of `t[k..]`, each trimmed of blanks;
/// empty pieces contribute nothing.
pub open spec fn codes_from(t: Seq<u8>, k: int) -> Seq<Seq<u8>>
    decreases t.len() - k,
    via codes_from_dec
{
    if !(0 <= k <= t.len()) {
        Seq::empty()
    } else {
        let c = next_comma(t, k);
        let item = code_item(trimmed(t.subrange(k, c)));
        if c >= t.len() {
            item
        } else {
            item + codes_from(t, c + 1)
        }
    }
}

#[via_fn]
proof fn codes_from_dec(t: Seq<u8>, k: int) {
    if 0 <= k <= t.len() {
        lemma_next_comma_bounds(t, k);
    }
}

fn parse_codes(t: &Vec<u8>, k: usize) -> (r: Vec<Vec<u8>>)
    requires
        k <= t@.len(),
    ensures
        r.deep_view() == codes_from(t@, k as int),
    decreases t@.len() - k,
{
    let c = next_comma_from(t, k);
    let piece_raw = bytes_subrange(t, k, c);
    let piece = trimmed_copy(&piece_raw);
    let mut r: Vec<Vec<u8>> = Vec::new();
    if piece.len() > 0 {
        r.push(piece);
    }
    if c < t.len() {
        let mut rest = parse_codes(t, c + 1);
        r.append(&mut rest);
    }
    proof {
        assert(r.deep_view() =~~= codes_from(t@, k as int));
    }
    r
}

/// The rule identifiers suppressed by the line `s`: nothing without a
/// marker; the bracketed, comma-separated codes when a closed bracket
/// follows the marker; otherwise the all-rules sentinel.
pub open spec fn suppressed_rules_of_line(s: Seq<u8>) -> Seq<Seq<u8>> {
    let h = first_marker(s, 0);
    if h == s.len() {
        Seq::empty()
    } else {
        let e = marker_codes_start(s, h);
        if e < s.len() && s[e] == '[' as u8 {
            let c = next_close_bracket(s, e + 1);
            if c < s.len() {
                codes_from(s.subrange(e + 1, c), 0)
            } else {
                seq![all_rules_marker()]
            }
        } else {
            seq![all_rules_marker()]
        }
    }
}

/// Reads the suppression comment of the line `s`.
fn suppressed_rules_on_line(s: &Vec<u8>) -> (r: Vec<Vec<u8>>)
    ensures
        r.deep_view() == suppressed_rules_of_line(s@),
{
    let h = find_marker(s);
    if h == s.len() {
        let r: Vec<Vec<u8>> = Vec::new();
        proof {
            assert(r.deep_view() =~~= suppressed_rules_of_line(s@));
        }
        return r;
    }
    proof {
        lemma_first_marker_bounds(s@, 0);
    }
    let k1 = skip_blanks_from(s, h + 1);
    let k2 = skip_blanks_from(s, k1 + 7);
    let e = k2 + 6;
    let mut r: Vec<Vec<u8>> = Vec::new();
    if e < s.len() && s[e] == '[' as u8 {
        let c = next_close_bracket_from(s, e + 1);
        if c < s.len() {
            let inside = bytes_subrange(s, e + 1, c);
            let codes = parse_codes(&inside, 0);
            proof {
                assert(codes.deep_view() =~~= suppressed_rules_of_line(s@));
            }
            return codes;
        }
        r.push(all_rules_marker_vec());
    } else {
        r.push(all_rules_marker_vec());
    }
    proof {
        assert(r.deep_view() =~~= suppressed_rules_of_line(s@));
    }
    r
}

/// First line-end byte at or after `k`.
fn line_end_from(text: &Vec<u8>, k: usize) -> (e: usize)
    requires
        k <= text@.len(),
    ensures
        e == line_end(text@, k as int),
        k <= e <= text@.len(),
{
    let mut j: usize = k;
    while j < text.len()
        invariant
            k <= j <= text@.len(),
            forall|x: int| k <= x < j ==> !is_line_end_byte(text@[x]),
        decreases text@.len() - j,
    {
        let b = text[j];
        if b == '\n' as u8 || b == '\r' as u8 {
            proof {
                lemma_line_end_position(text@, k as int, j as int);
            }
            return j;
        }
        j = j + 1;
    }
    proof {
        lemma_line_end_position(text@, k as int, text@.len() as int);
    }
    text.len()
}

/// The suppression entries on the line containing byte offset `start`.
pub open spec fn suppressed_at(text: Seq<u8>, start: u32) -> Seq<Seq<u8>> {
    let ls = line_start(text, clamped_offset(text, start));
    suppressed_rules_of_line(text.subrange(ls, line_end(text, ls)))
}

/// The location reported for a text span starting at byte `start` of the
/// file `file`: 1-based line and character column, plus the suppression
/// entries of that line.
pub open spec fn location_at(file: Seq<u8>, text: Seq<u8>, start: u32) -> LocationV {
    LocationV {
        file: file,
        line: Some(line_of(text, start) as usize),
        column: Some(column_of(text, start) as usize),
        suppressed_rules: suppressed_at(text, start),
    }
}

/// Computes the location of the span starting at byte offset `start`.
pub fn locate_offset(file: &Vec<u8>, text: &Vec<u8>, start: u32) -> (r: Location)
    ensures
        r.deep_view() == location_at(file@, text@, start),
{
    let off = if (start as usize) <= text.len() {
        start as usize
    } else {
        text.len()
    };
    proof {
        lemma_line_start_bound(text@, off as int);
        lemma_breaks_before_bound(text@, off as int);
    }
    let (line, st) = line_and_start(text, off);
    proof {
        lemma_chars_between_bound(text@, st as int, off as int);
    }
    let col = column_from(text, st, off);
    let le = line_end_from(text, st);
    let line_bytes = bytes_subrange(text, st, le);
    let rules = suppressed_rules_on_line(&line_bytes);
    let r = Location {
        file: bytes_clone(file),
        line: Some(line),
        column: Some(col),
        suppressed_rules: rules,
    };
    proof {
        assert(r.deep_view().suppressed_rules == location_at(file@, text@, start).suppressed_rules);
    }
    r
}

/// The per-module location list: each span's start mapped to its location.
pub open spec fn locations_of(spans: Seq<TextSpan>, file: Seq<u8>, text: Seq<u8>) -> Seq<
    LocationV,
> {
    spans.map_values(|sp: TextSpan| location_at(file, text, sp.start))
}

/// Image of a whole import record under the location mapper.
pub open spec fn located_map(
    m: Map<Seq<u8>, Seq<TextSpan>>,
    file: Seq<u8>,
    text: Seq<u8>,
) -> Map<Seq<u8>, Seq<LocationV>> {
    Map::new(
        |k: Seq<u8>| m.dom().contains(k),
        |k: Seq<u8>| locations_of(m[k], file, text),
    )
}

proof fn lemma_located_map_insert(
    m: Map<Seq<u8>, Seq<TextSpan>>,
    k: Seq<u8>,
    v: Seq<TextSpan>,
    file: Seq<u8>,
    text: Seq<u8>,
)
    ensures
        located_map(m.insert(k, v), file, text) == located_map(m, file, text).insert(
            k,
            locations_of(v, file, text),
        ),
{
    assert(located_map(m.insert(k, v), file, text) =~= located_map(m, file, text).insert(
        k,
        locations_of(v, file, text),
    ));
}

/// Converts the text spans of an import record into structured locations:
/// file, 1-based line and character column, and the line's suppression
/// entries.
pub fn convert_imports_with_textranges_to_location_objects(
    imports: &ModuleTable<TextSpan>,
    file_path: &Vec<u8>,
    source: &Vec<u8>,
) -> (r: ModuleTable<Location>)
    requires
        imports.wf(),
    ensures
        r.wf(),
        r@ == located_map(imports@, file_path@, source@),
{
    let mut r: ModuleTable<Location> = ModuleTable::new();
    let n = imports.len();
    let mut i: usize = 0;
    while i < n
        invariant
            i <= n == imports.pairs().len(),
            imports.wf(),
            r.wf(),
            r@ == located_map(
                crate::table::pairs_to_map(imports.pairs().subrange(0, i as int)),
                file_path@,
                source@,
            ),
        decreases n - i,
    {
        let ghost prefix = imports.pairs().subrange(0, i as int);
        let key = bytes_clone(imports.key_at(i));
        let spans = imports.values_at(i);
        let mut locs: Vec<Location> = Vec::new();
        let mut j: usize = 0;
        while j < spans.len()
            invariant
                j <= spans@.len(),
                locs@.len() == j,
                forall|x: int|
                    0 <= x < j ==> locs@[x].deep_view() == location_at(
                        file_path@,
                        source@,
                        spans@[x].start,
                    ),
            decreases spans@.len() - j,
        {
            let loc = locate_offset(file_path, source, spans[j].start);
            locs.push(loc);
            j = j + 1;
        }
        proof {
            assert forall|x: int| 0 <= x < spans@.len() implies locs.deep_view()[x]
                == locations_of(spans.deep_view(), file_path@, source@)[x] by {
                assert(locs.deep_view()[x] == locs@[x].deep_view());
                assert(spans.deep_view()[x] == spans@[x]);
                assert(locations_of(spans.deep_view(), file_path@, source@)[x] == location_at(
                    file_path@,
                    source@,
                    spans.deep_view()[x].start,
                ));
            }
            assert(locs.deep_view() =~= locations_of(spans.deep_view(), file_path@, source@));
        }
        proof {
            assert(spans.deep_view().subrange(0, spans.deep_view().len() as int)
                =~= spans.deep_view());
            crate::table::lemma_pairs_to_map_dom(prefix);
            assert(!crate::table::pairs_to_map(prefix).dom().contains(key@)) by {
                assert forall|x: int| 0 <= x < prefix.len() implies prefix[x].0 != key@ by {
                    assert(imports.pairs()[x].0 != imports.pairs()[i as int].0);
                }
            }
            assert(prefix.push(imports.pairs()[i as int]) =~= imports.pairs().subrange(
                0,
                i as int + 1,
            ));
            assert(crate::table::pairs_to_map(prefix.push(imports.pairs()[i as int]))
                == crate::table::pairs_to_map(prefix).insert(key@, spans.deep_view())) by {
                assert(prefix.push(imports.pairs()[i as int]).drop_last() =~= prefix);
            }
            lemma_located_map_insert(
                crate::table::pairs_to_map(prefix),
                key@,
                spans.deep_view(),
                file_path@,
                source@,
            );
            assert(Seq::<LocationV>::empty() + locs.deep_view() =~= locs.deep_view());
        }
        r.append_values(key, locs);
        i = i + 1;
    }
    proof {
        assert(imports.pairs().subrange(0, imports.pairs().len() as int) =~= imports.pairs());
    }
    r
}

/// Every reported location names the file whose record it belongs to.
pub proof fn lemma_locations_name_their_file(
    m: Map<Seq<u8>, Seq<TextSpan>>,
    file: Seq<u8>,
    text: Seq<u8>,
    k: Seq<u8>,
    j: int,
)
    requires
        located_map(m, file, text).dom().contains(k),
        0 <= j < located_map(m, file, text)[k].len(),
    ensures
        located_map(m, file, text)[k][j].file == file,
{
    assert(located_map(m, file, text)[k][j] == location_at(file, text, m[k][j].start));
}

} // verus!
