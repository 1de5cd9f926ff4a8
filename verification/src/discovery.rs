//! File discovery rules: root deduplication, the combined exclude
//! pattern, path normalization, and the supported-extension check.
//!
//! The directory walk itself is I/O and lives with the caller; it prunes
//! every path the exclude pattern matches, keeps hidden files, and honors
//! ignore-file conventions only when asked. The rules below decide what
//! the walk feeds in and what it keeps.

use vstd::prelude::*;

use crate::bytes_util::bytes_clone;
use crate::bytes_util::bytes_eq;
use crate::bytes_util::bytes_extend;
use crate::bytes_util::bytes_subrange;
use crate::bytes_util::join_with;
use crate::bytes_util::joined_with;

verus! {

broadcast use crate::bytes_util::lemma_bytes_deep_view;

/// The list with consecutive duplicates removed, as root paths are
/// deduplicated before traversal.
pub open spec fn dedup_consecutive(ps: Seq<Seq<u8>>) -> Seq<Seq<u8>>
    decreases ps,
{
    if ps.len() <= 1 {
        ps
    } else if ps.last() == ps[ps.len() - 2] {
        dedup_consecutive(ps.drop_last())
    } else {
        dedup_consecutive(ps.drop_last()).push(ps.last())
    }
}

proof fn lemma_dedup_last(ps: Seq<Seq<u8>>)
    requires
        ps.len() > 0,
    ensures
        dedup_consecutive(ps).len() > 0,
        dedup_consecutive(ps).last() == ps.last(),
    decreases ps,
{
    if ps.len() > 1 && ps.last() == ps[ps.len() - 2] {
        lemma_dedup_last(ps.drop_last());
        assert(ps.drop_last().last() == ps[ps.len() - 2]);
    }
}

/// Removes consecutive duplicate root paths.
pub fn dedup_directories(dirs: Vec<Vec<u8>>) -> (r: Vec<Vec<u8>>)
    ensures
        r.deep_view() == dedup_consecutive(dirs.deep_view()),
{
    let ghost all = dirs.deep_view();
    let n_dirs = dirs.len();
    proof {
        assert(dirs@.len() == n_dirs);
        crate::bytes_util::lemma_deep_view_index(dirs);
        assert(all.subrange(0, 0) =~= Seq::<Seq<u8>>::empty());
    }
    let mut rest = dirs;
    let mut r: Vec<Vec<u8>> = Vec::new();
    let mut k: usize = 0;
    while rest.len() > 0
        invariant
            k + rest@.len() == all.len(),
            all.len() <= usize::MAX,
            forall|x: int|
                0 <= x < rest@.len() ==> (#[trigger] rest@[x]).deep_view() == all[k + x],
            r.deep_view() == dedup_consecutive(all.subrange(0, k as int)),
        decreases rest@.len(),
    {
        let ghost rest0 = rest@;
        let d = rest.remove(0);
        proof {
            assert(d.deep_view() == all[k as int]);
            assert forall|x: int| 0 <= x < rest@.len() implies (#[trigger] rest@[x]).deep_view()
                == all[k as int + 1 + x] by {
                assert(rest@[x] == rest0.subrange(1, rest0.len() as int)[x]);
                assert(rest0[x + 1].deep_view() == all[k as int + 1 + x]);
            }
            assert(all.subrange(0, k as int + 1).drop_last() =~= all.subrange(0, k as int));
            assert(all.subrange(0, k as int + 1).last() == all[k as int]);
            if k > 0 {
                lemma_dedup_last(all.subrange(0, k as int));
                assert(all.subrange(0, k as int).last() == all[k as int - 1]);
                assert(all.subrange(0, k as int + 1)[k as int - 1] == all[k as int - 1]);
            }
        }
        let ghost r0 = r.deep_view();
        let ghost rv0 = r@;
        let mut same = false;
        if r.len() > 0 {
            same = bytes_eq(&r[r.len() - 1], &d);
        }
        if !same {
            r.push(d);
            proof {
                crate::bytes_util::lemma_deep_view_index(r);
                assert forall|x: int| 0 <= x < rv0.len() implies r.deep_view()[x] == r0[x] by {
                    assert(r@[x] == rv0[x]);
                    assert(r0[x] == rv0[x].deep_view());
                }
                assert(r.deep_view() =~= dedup_consecutive(all.subrange(0, k as int + 1)));
            }
        } else {
            proof {
                assert(r.deep_view() =~= dedup_consecutive(all.subrange(0, k as int + 1)));
            }
        }
        k = k + 1;
    }
    proof {
        assert(all.subrange(0, all.len() as int) =~= all);
    }
    r
}

/// The combined exclude pattern: each supplied pattern anchored at the
/// start of the path and OR-ed into one expression, `^(p1|p2|...)`; no
/// pattern, no exclusion.
pub open spec fn exclude_pattern(ps: Seq<Seq<u8>>) -> Option<Seq<u8>> {
    if ps.len() == 0 {
        None
    } else {
        Some(
            seq!['^' as u8, '(' as u8] + joined_with(ps, '|' as u8) + seq![')' as u8],
        )
    }
}

/// Builds the combined exclude pattern out of the supplied patterns.
pub fn build_exclude_pattern(patterns: &Vec<Vec<u8>>) -> (r: Option<Vec<u8>>)
    ensures
        r.deep_view() == exclude_pattern(patterns.deep_view()),
{
    if patterns.len() == 0 {
        proof {
            assert(patterns.deep_view().len() == 0);
        }
        return None;
    }
    let mut r: Vec<u8> = Vec::new();
    r.push('^' as u8);
    r.push('(' as u8);
    let body = join_with(patterns, '|' as u8);
    bytes_extend(&mut r, &body);
    r.push(')' as u8);
    proof {
        assert(patterns.deep_view().len() > 0);
        assert(r@ =~= exclude_pattern(patterns.deep_view()).unwrap());
    }
    Some(r)
}

/// The path with one leading `./` stripped.
pub open spec fn stripped_dot_slash(p: Seq<u8>) -> Seq<u8> {
    if p.len() >= 2 && p[0] == '.' as u8 && p[1] == '/' as u8 {
        p.subrange(2, p.len() as int)
    } else {
        p
    }
}

/// Strips one leading `./` from a path.
pub fn strip_dot_slash(p: &Vec<u8>) -> (r: Vec<u8>)
    ensures
        r@ == stripped_dot_slash(p@),
{
    if p.len() >= 2 && p[0] == '.' as u8 && p[1] == '/' as u8 {
        bytes_subrange(p, 2, p.len())
    } else {
        bytes_clone(p)
    }
}

/// Whether `p` ends with the word `w`.
pub open spec fn ends_with(p: Seq<u8>, w: Seq<u8>) -> bool {
    p.len() >= w.len() && p.subrange(p.len() - w.len(), p.len() as int) == w
}

/// Bytes of the Python source extension, `.py`.
pub open spec fn py_extension() -> Seq<u8> {
    seq!['.' as u8, 'p' as u8, 'y' as u8]
}

/// Bytes of the notebook extension, `.ipynb`.
pub open spec fn notebook_extension() -> Seq<u8> {
    seq!['.' as u8, 'i' as u8, 'p' as u8, 'y' as u8, 'n' as u8, 'b' as u8]
}

/// Whether the path names a supported source file: a `.py` file, or a
/// `.ipynb` document when notebooks are included.
pub open spec fn supported_source_path(p: Seq<u8>, include_notebooks: bool) -> bool {
    ends_with(p, py_extension()) || (include_notebooks && ends_with(p, notebook_extension()))
}

fn ends_with_exec(p: &Vec<u8>, w: &Vec<u8>) -> (r: bool)
    ensures
        r == ends_with(p@, w@),
{
    let np = p.len();
    let nw = w.len();
    if np < nw {
        return false;
    }
    let mut j: usize = 0;
    while j < nw
        invariant
            j <= nw == w@.len(),
            nw <= np == p@.len(),
            forall|x: int| 0 <= x < j ==> p@[np - nw + x] == w@[x],
        decreases nw - j,
    {
        if p[np - nw + j] != w[j] {
            proof {
                assert(p@.subrange(np - nw, np as int)[j as int] != w@[j as int]);
            }
            return false;
        }
        j = j + 1;
    }
    proof {
        assert(p@.subrange(np - nw, np as int) =~= w@);
    }
    true
}

/// Whether the pattern is a regular expression the matcher accepts.
pub uninterp spec fn regex_valid(pattern: Seq<u8>) -> bool;

/// Whether the regular expression `pattern` matches somewhere in `text`.
pub uninterp spec fn regex_matches(pattern: Seq<u8>, text: Seq<u8>) -> bool;

/// Relies on regex::bytes::Regex::new and Regex::is_match: whether the
/// pattern compiles, and whether it matches somewhere in the text, depend
/// on pattern and text alone; a pattern that is not UTF-8 or does not
/// compile is invalid.
#[verifier::external_body]
fn regex_is_match(pattern: &Vec<u8>, text: &Vec<u8>) -> (r: Option<bool>)
    ensures
        (r is Some) == regex_valid(pattern@),
        r matches Some(b) ==> b == regex_matches(pattern@, text@),
{
    let p = match std::str::from_utf8(pattern) {
        Ok(p) => p,
        Err(_) => return None,
    };
    match regex::bytes::Regex::new(p) {
        Ok(re) => Some(re.is_match(text)),
        Err(_) => None,
    }
}

/// Whether the combined exclude pattern prunes this path; the pattern is
/// matched against the path with a leading `./` stripped. `None` when the
/// pattern does not compile, which the walk's caller treats as a usage
/// error.
pub fn pattern_excludes(pattern: &Vec<u8>, path: &Vec<u8>) -> (r: Option<bool>)
    ensures
        (r is Some) == regex_valid(pattern@),
        r matches Some(b) ==> b == regex_matches(pattern@, stripped_dot_slash(path@)),
{
    let sp = strip_dot_slash(path);
    regex_is_match(pattern, &sp)
}

/// Decides whether the exclude patterns prune this path: with no pattern
/// nothing is pruned; otherwise the combined anchored expression decides,
/// and `None` reports an uncompilable pattern.
pub fn path_is_excluded(patterns: &Vec<Vec<u8>>, path: &Vec<u8>) -> (r: Option<bool>)
    ensures
        match exclude_pattern(patterns.deep_view()) {
            None => r == Some(false),
            Some(p) => {
                &&& (r is Some) == regex_valid(p)
                &&& (r matches Some(b) ==> b == regex_matches(p, stripped_dot_slash(path@)))
            },
        },
{
    match build_exclude_pattern(patterns) {
        None => Some(false),
        Some(p) => pattern_excludes(&p, path),
    }
}

/// Decides by extension whether a path is a candidate source file.
pub fn has_supported_extension(p: &Vec<u8>, include_notebooks: bool) -> (r: bool)
    ensures
        r == supported_source_path(p@, include_notebooks),
{
    let mut py: Vec<u8> = Vec::new();
    py.push('.' as u8);
    py.push('p' as u8);
    py.push('y' as u8);
    proof {
        assert(py@ =~= py_extension());
    }
    if ends_with_exec(p, &py) {
        return true;
    }
    if !include_notebooks {
        return false;
    }
    let mut nb: Vec<u8> = Vec::new();
    nb.push('.' as u8);
    nb.push('i' as u8);
    nb.push('p' as u8);
    nb.push('y' as u8);
    nb.push('n' as u8);
    nb.push('b' as u8);
    proof {
        assert(nb@ =~= notebook_extension());
    }
    ends_with_exec(p, &nb)
}

} // verus!
