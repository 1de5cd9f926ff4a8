//! Notebook normalization: the importable code of a notebook document's
//! cells, extracted as one synthetic text blob with line-for-line fidelity.
//!
//! Only cells whose type is `code` contribute. Each cell's source is an
//! array of physical lines; a line's single trailing newline is stripped
//! before the lines are rejoined with `\n`, so line numbers in the blob
//! map back to cell content. A line opening with a magic-command sigil
//! (`%` or `!`) is blanked, not removed, to keep the alignment of any
//! import below it.

use vstd::prelude::*;

use crate::bytes_util::bytes_clone;
use crate::bytes_util::bytes_subrange;
use crate::bytes_util::join_with;
use crate::bytes_util::joined_with;

verus! {

broadcast use crate::bytes_util::lemma_bytes_deep_view;

/// One cell as read out of the document: its `cell_type` string (absent
/// when the field is missing or not a string) and its `source` lines
/// (absent when the field is missing or not an array; a `None` line is an
/// array entry that is not a string).
pub struct RawCell {
    pub cell_type: Option<Vec<u8>>,
    pub lines: Option<Vec<Option<Vec<u8>>>>,
}

/// Mathematical image of a `RawCell`.
pub struct RawCellV {
    pub cell_type: Option<Seq<u8>>,
    pub lines: Option<Seq<Option<Seq<u8>>>>,
}

impl DeepView for RawCell {
    type V = RawCellV;

    open spec fn deep_view(&self) -> RawCellV {
        RawCellV { cell_type: self.cell_type.deep_view(), lines: self.lines.deep_view() }
    }
}

/// Bytes of the `code` cell type.
pub open spec fn code_cell_type() -> Seq<u8> {
    seq!['c' as u8, 'o' as u8, 'd' as u8, 'e' as u8]
}

fn code_cell_type_vec() -> (r: Vec<u8>)
    ensures
        r@ == code_cell_type(),
{
    let mut v: Vec<u8> = Vec::new();
    v.push('c' as u8);
    v.push('o' as u8);
    v.push('d' as u8);
    v.push('e' as u8);
    proof {
        assert(v@ =~= code_cell_type());
    }
    v
}

/// A magic-command line: its first byte is `%` or `!`.
pub open spec fn is_magic_line(l: Seq<u8>) -> bool {
    l.len() > 0 && (l[0] == '%' as u8 || l[0] == '!' as u8)
}

/// One physical line, normalized: a magic line is blanked, and a single
/// trailing newline is stripped.
pub open spec fn normalized_line(l: Seq<u8>) -> Seq<u8> {
    if is_magic_line(l) {
        Seq::empty()
    } else if l.len() > 0 && l.last() == '\n' as u8 {
        l.drop_last()
    } else {
        l
    }
}

/// The normalized string entries of a cell's source array, in order;
/// entries that are not strings contribute nothing.
pub open spec fn normalized_lines(ls: Seq<Option<Seq<u8>>>) -> Seq<Seq<u8>>
    decreases ls,
{
    if ls.len() == 0 {
        Seq::empty()
    } else {
        normalized_lines(ls.drop_last()) + (match ls.last() {
            Some(l) => seq![normalized_line(l)],
            None => Seq::empty(),
        })
    }
}

/// Whether a cell contributes code.
pub open spec fn is_code_cell(c: RawCellV) -> bool {
    c.cell_type == Some(code_cell_type())
}

/// The normalized lines of every code cell, in document order.
pub open spec fn notebook_lines(cells: Seq<RawCellV>) -> Seq<Seq<u8>>
    decreases cells,
{
    if cells.len() == 0 {
        Seq::empty()
    } else {
        notebook_lines(cells.drop_last()) + (match cells.last().lines {
            Some(ls) => if is_code_cell(cells.last()) {
                normalized_lines(ls)
            } else {
                Seq::empty()
            },
            None => Seq::empty(),
        })
    }
}

/// The synthetic code blob of a notebook's cells: the normalized code
/// lines joined with `\n`.
pub open spec fn notebook_code(cells: Seq<RawCellV>) -> Seq<u8> {
    joined_with(notebook_lines(cells), '\n' as u8)
}

/// Normalizes one physical line.
fn normalize_line(l: &Vec<u8>) -> (r: Vec<u8>)
    ensures
        r@ == normalized_line(l@),
{
    if l.len() > 0 && (l[0] == '%' as u8 || l[0] == '!' as u8) {
        Vec::new()
    } else if l.len() > 0 && l[l.len() - 1] == '\n' as u8 {
        let r = bytes_subrange(l, 0, l.len() - 1);
        proof {
            assert(l@.drop_last() =~= l@.subrange(0, l@.len() as int - 1));
        }
        r
    } else {
        bytes_clone(l)
    }
}

/// Collects the normalized lines of every code cell.
fn collect_code_lines(cells: &Vec<RawCell>) -> (r: Vec<Vec<u8>>)
    ensures
        r.deep_view() == notebook_lines(cells.deep_view()),
{
    let ghost all = cells.deep_view();
    let code_word = code_cell_type_vec();
    let mut r: Vec<Vec<u8>> = Vec::new();
    let mut i: usize = 0;
    while i < cells.len()
        invariant
            i <= cells@.len(),
            all == cells.deep_view(),
            all.len() == cells@.len(),
            code_word@ == code_cell_type(),
            r.deep_view() == notebook_lines(all.subrange(0, i as int)),
        decreases cells@.len() - i,
    {
        let cell = &cells[i];
        proof {
            assert(all.subrange(0, i as int + 1).drop_last() =~= all.subrange(0, i as int));
            assert(all.subrange(0, i as int + 1).last() == cell.deep_view());
        }
        let is_code = match &cell.cell_type {
            Some(t) => crate::bytes_util::bytes_eq(t, &code_word),
            None => false,
        };
        match &cell.lines {
            Some(ls) => {
                if is_code {
                    let ghost lsv = ls.deep_view();
                    let mut j: usize = 0;
                    while j < ls.len()
                        invariant
                            j <= ls@.len(),
                            i < all.len(),
                            lsv == ls.deep_view(),
                            lsv.len() == ls@.len(),
                            r.deep_view() == notebook_lines(all.subrange(0, i as int))
                                + normalized_lines(lsv.subrange(0, j as int)),
                        decreases ls@.len() - j,
                    {
                        proof {
                            assert(lsv.subrange(0, j as int + 1).drop_last() =~= lsv.subrange(
                                0,
                                j as int,
                            ));
                            assert(lsv.subrange(0, j as int + 1).last() == ls@[
                                j as int
                            ].deep_view());
                        }
                        let ghost r0 = r.deep_view();
                        let ghost rv0 = r@;
                        match &ls[j] {
                            Some(l) => {
                                let n = normalize_line(l);
                                r.push(n);
                                proof {
                                    assert(lsv.subrange(0, j as int + 1).last() == Some(l@));
                                    crate::bytes_util::lemma_deep_view_index(r);
                                    assert forall|x: int| 0 <= x < rv0.len()
                                        implies r.deep_view()[x] == r0[x] by {
                                        assert(r@[x] == rv0[x]);
                                        assert(r0[x] == rv0[x].deep_view());
                                    }
                                    assert(r.deep_view()[rv0.len() as int] == n@);
                                    assert(r.deep_view() =~= r0 + seq![normalized_line(l@)]);
                                    assert(r.deep_view() =~= notebook_lines(
                                        all.subrange(0, i as int),
                                    ) + normalized_lines(lsv.subrange(0, j as int + 1)));
                                }
                            },
                            None => {
                                proof {
                                    assert(lsv.subrange(0, j as int + 1).last() == lsv[j as int]);
                                    assert(normalized_lines(lsv.subrange(0, j as int + 1))
                                        =~= normalized_lines(lsv.subrange(0, j as int)));
                                    assert(r.deep_view() =~= notebook_lines(
                                        all.subrange(0, i as int),
                                    ) + normalized_lines(lsv.subrange(0, j as int + 1)));
                                }
                            },
                        }
                        j = j + 1;
                    }
                    proof {
                        assert(lsv.subrange(0, lsv.len() as int) =~= lsv);
                        assert(r.deep_view() =~= notebook_lines(all.subrange(0, i as int + 1)));
                    }
                } else {
                    proof {
                        assert(r.deep_view() =~= notebook_lines(all.subrange(0, i as int + 1)));
                    }
                }
            },
            None => {
                proof {
                    assert(r.deep_view() =~= notebook_lines(all.subrange(0, i as int + 1)));
                }
            },
        }
        i = i + 1;
    }
    proof {
        assert(all.subrange(0, all.len() as int) =~= all);
    }
    r
}

/// The cell table a JSON document's bytes hold: `None` when the bytes
/// are not valid JSON or there is no array under `list_key`; otherwise,
/// per array element, the string under `type_key` and the array under
/// `lines_key` with its entries (`None` for a non-string entry). A
/// function of the bytes and the keys alone.
pub uninterp spec fn json_string_table(
    bytes: Seq<u8>,
    list_key: Seq<char>,
    type_key: Seq<char>,
    lines_key: Seq<char>,
) -> Option<Seq<RawCellV>>;

#[verifier::external_type_specification]
#[verifier::external_body]
pub struct ExValue(serde_json::Value);

/// Relies on serde_json::from_slice and Value's get, as_array and as_str:
/// reads the document's cell array field by field, deterministically in
/// the bytes and keys.
#[verifier::external_body]
pub(crate) fn read_json_cells(
    bytes: &Vec<u8>,
    list_key: &str,
    type_key: &str,
    lines_key: &str,
) -> (r: Option<Vec<RawCell>>)
    ensures
        r.deep_view() == json_string_table(bytes@, list_key@, type_key@, lines_key@),
{
    let v: serde_json::Value = match serde_json::from_slice(bytes) {
        Ok(v) => v,
        Err(_) => return None,
    };
    let cells = match v.get(list_key).and_then(serde_json::Value::as_array) {
        Some(c) => c,
        None => return None,
    };
    Some(cells.iter().map(|c| conv_cell(c, type_key, lines_key)).collect())
}

/// Relies on serde_json::Value's get, as_array and as_str: one cell's
/// type string and source lines, read field by field.
#[verifier::external_body]
fn conv_cell(c: &serde_json::Value, type_key: &str, lines_key: &str) -> RawCell {
    RawCell {
        cell_type: c.get(type_key).and_then(serde_json::Value::as_str).map(|s| s.as_bytes().to_vec()),
        lines: c.get(lines_key).and_then(serde_json::Value::as_array).map(
            |a| a.iter().map(|x| x.as_str().map(|s| s.as_bytes().to_vec())).collect(),
        ),
    }
}

/// Extracts and concatenates the code of a notebook's code cells as one
/// blob whose line numbers map back to cell content.
pub fn extract_code_from_notebook_cells(cells: &Vec<RawCell>) -> (r: Vec<u8>)
    ensures
        r@ == notebook_code(cells.deep_view()),
{
    let lines = collect_code_lines(cells);
    join_with(&lines, '\n' as u8)
}

/// Number of string entries in a cell's source array.
pub open spec fn string_entry_count(ls: Seq<Option<Seq<u8>>>) -> int
    decreases ls,
{
    if ls.len() == 0 {
        0
    } else {
        string_entry_count(ls.drop_last()) + if ls.last() is Some {
            1int
        } else {
            0int
        }
    }
}

/// Normalization keeps one output line per string entry: a magic-command
/// line is blanked, never removed, so later line numbers do not shift.
pub proof fn lemma_normalization_keeps_line_count(ls: Seq<Option<Seq<u8>>>)
    ensures
        normalized_lines(ls).len() == string_entry_count(ls),
    decreases ls,
{
    if ls.len() > 0 {
        lemma_normalization_keeps_line_count(ls.drop_last());
    }
}

} // verus!
