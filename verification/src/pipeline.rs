//! Per-file outcomes and the batch merge.
//!
//! Each file yields either an import record or a typed failure. A batch
//! never fails as a whole: the records of the files that succeeded are
//! merged key-wise into one aggregate mapping, and the failures are
//! collected beside it, one warning per broken file.

use vstd::prelude::*;

use crate::location::Location;
use crate::location::LocationV;
use crate::table::ModuleTable;
use crate::table::pairs_to_map;

verus! {

broadcast use crate::bytes_util::lemma_bytes_deep_view;

/// Why a file contributed nothing: it was missing, unreadable, could not
/// be losslessly decoded, was not a well-formed notebook document, or did
/// not parse (with the parser's message).
#[derive(Debug)]
pub enum FileError {
    NotFound,
    OtherIo,
    DecodeFailure,
    InvalidDocument,
    Syntax(Vec<u8>),
}

/// Mathematical image of a `FileError`.
pub enum FileErrorV {
    NotFound,
    OtherIo,
    DecodeFailure,
    InvalidDocument,
    Syntax(Seq<u8>),
}

impl DeepView for FileError {
    type V = FileErrorV;

    open spec fn deep_view(&self) -> FileErrorV {
        match self {
            FileError::NotFound => FileErrorV::NotFound,
            FileError::OtherIo => FileErrorV::OtherIo,
            FileError::DecodeFailure => FileErrorV::DecodeFailure,
            FileError::InvalidDocument => FileErrorV::InvalidDocument,
            FileError::Syntax(m) => FileErrorV::Syntax(m.deep_view()),
        }
    }
}

/// One file's outcome: its path, and either its import record or the
/// failure that kept it out of the aggregate.
pub struct ThreadResult {
    pub file: Vec<u8>,
    pub result: Result<ModuleTable<Location>, FileError>,
}

/// Mathematical image of a `ThreadResult`.
pub struct ThreadResultV {
    pub file: Seq<u8>,
    pub result: Result<Map<Seq<u8>, Seq<LocationV>>, FileErrorV>,
}

impl DeepView for ThreadResult {
    type V = ThreadResultV;

    open spec fn deep_view(&self) -> ThreadResultV {
        ThreadResultV {
            file: self.file.deep_view(),
            result: match &self.result {
                Ok(t) => Ok(t@),
                Err(e) => Err(e.deep_view()),
            },
        }
    }
}

/// The value under `k`, or the empty sequence when `k` is absent.
pub open spec fn value_or_empty<T>(m: Map<Seq<u8>, Seq<T>>, k: Seq<u8>) -> Seq<T> {
    if m.dom().contains(k) {
        m[k]
    } else {
        Seq::empty()
    }
}

/// Key-wise merge of two records: the domains unite, and the location
/// sequences concatenate, first map first.
pub open spec fn merged_maps<T>(
    m1: Map<Seq<u8>, Seq<T>>,
    m2: Map<Seq<u8>, Seq<T>>,
) -> Map<Seq<u8>, Seq<T>> {
    Map::new(
        |k: Seq<u8>| m1.dom().contains(k) || m2.dom().contains(k),
        |k: Seq<u8>| value_or_empty(m1, k) + value_or_empty(m2, k),
    )
}

/// The aggregate record of a result list: the records of the successful
/// files merged in list order; failed files contribute nothing.
pub open spec fn aggregated(rs: Seq<ThreadResultV>) -> Map<Seq<u8>, Seq<LocationV>>
    decreases rs,
{
    if rs.len() == 0 {
        Map::empty()
    } else {
        match rs.last().result {
            Ok(m) => merged_maps(aggregated(rs.drop_last()), m),
            Err(_) => aggregated(rs.drop_last()),
        }
    }
}

/// The failures of a result list, in list order.
pub open spec fn failures_of(rs: Seq<ThreadResultV>) -> Seq<(Seq<u8>, FileErrorV)>
    decreases rs,
{
    if rs.len() == 0 {
        Seq::empty()
    } else {
        failures_of(rs.drop_last()) + (match rs.last().result {
            Ok(_) => Seq::empty(),
            Err(e) => seq![(rs.last().file, e)],
        })
    }
}

/// Merging the empty record changes nothing.
pub proof fn lemma_merged_empty<T>(m: Map<Seq<u8>, Seq<T>>)
    ensures
        merged_maps(m, Map::<Seq<u8>, Seq<T>>::empty()) == m,
{
    assert(merged_maps(m, Map::<Seq<u8>, Seq<T>>::empty()) =~~= m);
}

/// Merging one new entry of the second record inserts it key-wise.
proof fn lemma_merged_step<T>(
    m0: Map<Seq<u8>, Seq<T>>,
    mp: Map<Seq<u8>, Seq<T>>,
    k: Seq<u8>,
    v: Seq<T>,
)
    requires
        !mp.dom().contains(k),
    ensures
        merged_maps(m0, mp.insert(k, v)) == merged_maps(m0, mp).insert(
            k,
            value_or_empty(merged_maps(m0, mp), k) + v,
        ),
{
    assert(merged_maps(m0, mp.insert(k, v)) =~~= merged_maps(m0, mp).insert(
        k,
        value_or_empty(merged_maps(m0, mp), k) + v,
    ));
}

/// Merges per-file results into one aggregate record and one failure
/// list. The aggregate holds exactly the entries of the successful
/// results, their location sequences concatenated in result order; the
/// failures keep result order too.
pub fn merge_results_from_threads(results: Vec<ThreadResult>) -> (r: (
    ModuleTable<Location>,
    Vec<(Vec<u8>, FileError)>,
))
    requires
        forall|i: int|
            0 <= i < results@.len() ==> ((#[trigger] results@[i]).result matches Ok(t) ==> t.wf()),
    ensures
        r.0.wf(),
        r.0@ == aggregated(results.deep_view()),
        r.1.deep_view() == failures_of(results.deep_view()),
{
    let ghost orig = results@;
    let ghost all = results.deep_view();
    let n_results = results.len();
    proof {
        assert(orig.len() == n_results);
        crate::bytes_util::lemma_deep_view_index(results);
    }
    let mut rest = results;
    let mut agg: ModuleTable<Location> = ModuleTable::new();
    let mut failures: Vec<(Vec<u8>, FileError)> = Vec::new();
    let mut k: usize = 0;
    proof {
        assert(all.subrange(0, 0) =~= Seq::<ThreadResultV>::empty());
    }
    while rest.len() > 0
        invariant
            k + rest@.len() == orig.len(),
            orig.len() <= usize::MAX,
            all.len() == orig.len(),
            forall|x: int| 0 <= x < orig.len() ==> all[x] == (#[trigger] orig[x]).deep_view(),
            forall|x: int| 0 <= x < rest@.len() ==> #[trigger] rest@[x] == orig[k + x],
            forall|i: int|
                0 <= i < orig.len() ==> ((#[trigger] orig[i]).result matches Ok(t) ==> t.wf()),
            agg.wf(),
            agg@ == aggregated(all.subrange(0, k as int)),
            failures.deep_view() == failures_of(all.subrange(0, k as int)),
        decreases rest@.len(),
    {
        let ghost rest0 = rest@;
        let tr = rest.remove(0);
        proof {
            assert(tr == orig[k as int]);
            assert forall|x: int| 0 <= x < rest@.len() implies #[trigger] rest@[x] == orig[
                k as int + 1 + x
            ] by {
                assert(rest@[x] == rest0.subrange(1, rest0.len() as int)[x]);
                assert(rest0[x + 1] == orig[k as int + 1 + x]);
            }
        }
        let ThreadResult { file, result } = tr;
        match result {
            Ok(t) => {
                let ghost agg0 = agg@;
                let ghost tp = t.pairs();
                proof {
                    lemma_merged_empty::<LocationV>(agg0);
                    assert(tp.subrange(0, 0) =~= Seq::<(Seq<u8>, Seq<LocationV>)>::empty());
                }
                let mut entries = t.into_entries();
                let n_entries = entries.len();
                proof {
                    assert(entries@.len() == n_entries);
                    crate::bytes_util::lemma_deep_view_index(entries);
                }
                let ghost en0 = entries.deep_view();
                let mut m: usize = 0;
                while entries.len() > 0
                    invariant
                        m + entries@.len() == tp.len(),
                        tp.len() <= usize::MAX,
                        en0 == tp,
                        forall|x: int|
                            0 <= x < entries@.len() ==> (#[trigger] entries@[x]).deep_view() == tp[
                                m + x
                            ],
                        forall|i: int, j: int| 0 <= i < j < tp.len() ==> tp[i].0 != tp[j].0,
                        agg.wf(),
                        agg@ == merged_maps(agg0, pairs_to_map(tp.subrange(0, m as int))),
                    decreases entries@.len(),
                {
                    let ghost ent0 = entries@;
                    let ghost ent0dv = entries.deep_view();
                    let e = entries.remove(0);
                    proof {
                        assert(ent0dv[0] == ent0[0].deep_view());
                        assert(e.deep_view() == tp[m as int]);
                        crate::bytes_util::lemma_deep_view_index(entries);
                        assert forall|x: int| 0 <= x < entries@.len() implies (#[trigger] entries@[
                            x
                        ]).deep_view() == tp[m as int + 1 + x] by {
                            assert(entries@[x] == ent0.subrange(1, ent0.len() as int)[x]);
                            assert(ent0[x + 1].deep_view() == ent0dv[x + 1]);
                        }
                    }
                    let (key, vals) = e;
                    proof {
                        assert(key.deep_view() == tp[m as int].0);
                        assert(vals.deep_view() == tp[m as int].1);
                        crate::table::lemma_pairs_to_map_dom(tp.subrange(0, m as int));
                        assert(!pairs_to_map(tp.subrange(0, m as int)).dom().contains(
                            tp[m as int].0,
                        )) by {
                            assert forall|x: int| 0 <= x < m as int implies tp.subrange(
                                0,
                                m as int,
                            )[x].0 != tp[m as int].0 by {
                                assert(tp[x].0 != tp[m as int].0);
                            }
                        }
                        lemma_merged_step(
                            agg0,
                            pairs_to_map(tp.subrange(0, m as int)),
                            tp[m as int].0,
                            tp[m as int].1,
                        );
                        assert(tp.subrange(0, m as int + 1).drop_last() =~= tp.subrange(
                            0,
                            m as int,
                        ));
                        assert(pairs_to_map(tp.subrange(0, m as int + 1)) == pairs_to_map(
                            tp.subrange(0, m as int),
                        ).insert(tp[m as int].0, tp[m as int].1));
                    }
                    agg.append_values(key, vals);
                    m = m + 1;
                }
                proof {
                    assert(tp.subrange(0, tp.len() as int) =~= tp);
                    assert(all.subrange(0, k as int + 1).drop_last() =~= all.subrange(0, k as int));
                    assert(all.subrange(0, k as int + 1).last() == orig[k as int].deep_view());
                }
            },
            Err(e) => {
                let ghost f0 = failures.deep_view();
                let ghost fv0 = failures@;
                failures.push((file, e));
                proof {
                    crate::bytes_util::lemma_deep_view_index(failures);
                    assert forall|x: int| 0 <= x < fv0.len() implies failures.deep_view()[x] == f0[
                        x
                    ] by {
                        assert(failures@[x] == fv0[x]);
                        assert(f0[x] == fv0[x].deep_view());
                    }
                    assert(failures.deep_view()[fv0.len() as int] == (
                        file.deep_view(),
                        e.deep_view(),
                    ));
                    assert(all.subrange(0, k as int + 1).drop_last() =~= all.subrange(0, k as int));
                    assert(all.subrange(0, k as int + 1).last() == orig[k as int].deep_view());
                    assert(failures.deep_view() =~= failures_of(all.subrange(0, k as int + 1)));
                }
            },
        }
        k = k + 1;
    }
    proof {
        assert(all.subrange(0, all.len() as int) =~= all);
    }
    (agg, failures)
}

/// What one Python file's result must be, given its path and raw bytes:
/// decode, parse, walk, locate — or the failure of the stage that broke,
/// the parser's message left open.
pub open spec fn py_content_outcome(
    path: Seq<u8>,
    bytes: Seq<u8>,
    r: Result<Map<Seq<u8>, Seq<LocationV>>, FileErrorV>,
) -> bool {
    match r {
        Ok(m) => {
            &&& crate::encoding::decoded_content(bytes) matches Ok(text)
            &&& crate::parse::parsed_module(text) matches Some(stmts)
            &&& m == crate::locate::located_map(
                crate::visitor::visit_stmts_spec(crate::visitor::initial_state(), stmts).imports,
                path,
                text,
            )
        },
        Err(FileErrorV::DecodeFailure) => crate::encoding::decoded_content(bytes) == Err::<
            Seq<u8>,
            FileErrorV,
        >(FileErrorV::DecodeFailure),
        Err(FileErrorV::Syntax(_)) => {
            &&& crate::encoding::decoded_content(bytes) matches Ok(text)
            &&& crate::parse::parsed_module(text) is None
        },
        Err(_) => false,
    }
}

/// Extracts the imports of one Python file, given its raw bytes: decoded
/// text, parsed statements, the import walk, and the location mapping.
pub fn get_imports_from_py_file(path: &Vec<u8>, bytes: &Vec<u8>) -> (r: Result<
    ModuleTable<Location>,
    FileError,
>)
    ensures
        r matches Ok(t) ==> t.wf() && py_content_outcome(path@, bytes@, Ok(t@)),
        r matches Err(e) ==> py_content_outcome(path@, bytes@, Err(e.deep_view())),
{
    let text = match crate::encoding::decode_file_content(bytes) {
        Ok(t) => t,
        Err(e) => {
            return Err(e);
        },
    };
    let stmts = match crate::parse::parse_file_content(&text, path) {
        Ok(s) => s,
        Err(e) => {
            return Err(e);
        },
    };
    let spans = crate::visitor::extract_imports_from_parsed_file_content(&stmts);
    Ok(crate::locate::convert_imports_with_textranges_to_location_objects(&spans, path, &text))
}

/// The cell table of a notebook document's decoded text.
pub open spec fn notebook_cells_of(text: Seq<u8>) -> Option<Seq<crate::notebook::RawCellV>> {
    crate::notebook::json_string_table(text, "cells"@, "cell_type"@, "source"@)
}

/// What one notebook file's result must be, given its path and raw bytes:
/// decode, read the cells, synthesize the code blob, then parse, walk and
/// locate against that blob.
pub open spec fn ipynb_content_outcome(
    path: Seq<u8>,
    bytes: Seq<u8>,
    r: Result<Map<Seq<u8>, Seq<LocationV>>, FileErrorV>,
) -> bool {
    match r {
        Ok(m) => {
            &&& crate::encoding::decoded_content(bytes) matches Ok(text)
            &&& notebook_cells_of(text) matches Some(cells)
            &&& crate::parse::parsed_module(crate::notebook::notebook_code(cells)) matches Some(
                stmts,
            )
            &&& m == crate::locate::located_map(
                crate::visitor::visit_stmts_spec(crate::visitor::initial_state(), stmts).imports,
                path,
                crate::notebook::notebook_code(cells),
            )
        },
        Err(FileErrorV::DecodeFailure) => crate::encoding::decoded_content(bytes) == Err::<
            Seq<u8>,
            FileErrorV,
        >(FileErrorV::DecodeFailure),
        Err(FileErrorV::InvalidDocument) => {
            &&& crate::encoding::decoded_content(bytes) matches Ok(text)
            &&& notebook_cells_of(text) is None
        },
        Err(FileErrorV::Syntax(_)) => {
            &&& crate::encoding::decoded_content(bytes) matches Ok(text)
            &&& notebook_cells_of(text) matches Some(cells)
            &&& crate::parse::parsed_module(crate::notebook::notebook_code(cells)) is None
        },
        Err(_) => false,
    }
}

/// Extracts the imports of one notebook file, given its raw bytes: the
/// code cells' lines, synthesized into one blob, go through the same
/// parse, walk and locate pipeline as plain source.
pub fn get_imports_from_ipynb_file(path: &Vec<u8>, bytes: &Vec<u8>) -> (r: Result<
    ModuleTable<Location>,
    FileError,
>)
    ensures
        r matches Ok(t) ==> t.wf() && ipynb_content_outcome(path@, bytes@, Ok(t@)),
        r matches Err(e) ==> ipynb_content_outcome(path@, bytes@, Err(e.deep_view())),
{
    let text = match crate::encoding::decode_file_content(bytes) {
        Ok(t) => t,
        Err(e) => {
            return Err(e);
        },
    };
    let cells = match crate::notebook::read_json_cells(&text, "cells", "cell_type", "source") {
        Some(c) => c,
        None => {
            return Err(FileError::InvalidDocument);
        },
    };
    let code = crate::notebook::extract_code_from_notebook_cells(&cells);
    let stmts = match crate::parse::parse_file_content(&code, path) {
        Ok(s) => s,
        Err(e) => {
            return Err(e);
        },
    };
    let spans = crate::visitor::extract_imports_from_parsed_file_content(&stmts);
    Ok(crate::locate::convert_imports_with_textranges_to_location_objects(&spans, path, &code))
}

/// A result list that a batch over `files` may produce: one result per
/// file in order, each as the per-file contract says (`is_notebook`
/// selects the notebook pipeline).
pub open spec fn results_match_files(
    files: Seq<(Seq<u8>, Seq<u8>)>,
    rs: Seq<ThreadResultV>,
    is_notebook: bool,
) -> bool {
    &&& rs.len() == files.len()
    &&& forall|i: int|
        0 <= i < files.len() ==> {
            &&& (#[trigger] rs[i]).file == files[i].0
            &&& if is_notebook {
                ipynb_content_outcome(files[i].0, files[i].1, rs[i].result)
            } else {
                py_content_outcome(files[i].0, files[i].1, rs[i].result)
            }
        }
}

/// Extracts imports from many Python files' contents (path and raw bytes
/// each) and merges them: the aggregate of every file that succeeded, and
/// one warning per file that failed.
pub fn get_imports_from_py_files(files: Vec<(Vec<u8>, Vec<u8>)>) -> (r: (
    ModuleTable<Location>,
    Vec<(Vec<u8>, FileError)>,
))
    ensures
        r.0.wf(),
        exists|rs: Seq<ThreadResultV>|
            {
                &&& #[trigger] results_match_files(files.deep_view(), rs, false)
                &&& r.0@ == aggregated(rs)
                &&& r.1.deep_view() == failures_of(rs)
            },
{
    let results = collect_file_results(files, false);
    let ghost rs = results.deep_view();
    let out = merge_results_from_threads(results);
    proof {
        assert(results_match_files(files.deep_view(), rs, false));
    }
    out
}

/// Extracts imports from many notebook files' contents and merges them,
/// as `get_imports_from_py_files` does for plain sources.
pub fn get_imports_from_ipynb_files(files: Vec<(Vec<u8>, Vec<u8>)>) -> (r: (
    ModuleTable<Location>,
    Vec<(Vec<u8>, FileError)>,
))
    ensures
        r.0.wf(),
        exists|rs: Seq<ThreadResultV>|
            {
                &&& #[trigger] results_match_files(files.deep_view(), rs, true)
                &&& r.0@ == aggregated(rs)
                &&& r.1.deep_view() == failures_of(rs)
            },
{
    let results = collect_file_results(files, true);
    let ghost rs = results.deep_view();
    let out = merge_results_from_threads(results);
    proof {
        assert(results_match_files(files.deep_view(), rs, true));
    }
    out
}

/// Runs the per-file pipeline over each file, collecting one result per
/// file in order.
fn collect_file_results(files: Vec<(Vec<u8>, Vec<u8>)>, is_notebook: bool) -> (results: Vec<
    ThreadResult,
>)
    ensures
        results_match_files(files.deep_view(), results.deep_view(), is_notebook),
        forall|i: int|
            0 <= i < results@.len() ==> ((#[trigger] results@[i]).result matches Ok(t) ==> t.wf()),
{
    let ghost fl = files.deep_view();
    let n_files = files.len();
    proof {
        assert(files@.len() == n_files);
        crate::bytes_util::lemma_deep_view_index(files);
    }
    let mut rest = files;
    let mut results: Vec<ThreadResult> = Vec::new();
    let mut k: usize = 0;
    while rest.len() > 0
        invariant
            k + rest@.len() == fl.len(),
            fl.len() <= usize::MAX,
            forall|x: int|
                0 <= x < rest@.len() ==> (#[trigger] rest@[x]).deep_view() == fl[k + x],
            results@.len() == k,
            forall|i: int|
                0 <= i < k ==> {
                    &&& (#[trigger] results@[i]).deep_view().file == fl[i].0
                    &&& if is_notebook {
                        ipynb_content_outcome(fl[i].0, fl[i].1, results@[i].deep_view().result)
                    } else {
                        py_content_outcome(fl[i].0, fl[i].1, results@[i].deep_view().result)
                    }
                },
            forall|i: int|
                0 <= i < k ==> ((#[trigger] results@[i]).result matches Ok(t) ==> t.wf()),
        decreases rest@.len(),
    {
        let ghost rest0 = rest@;
        let f = rest.remove(0);
        proof {
            assert(f.deep_view() == fl[k as int]);
            assert forall|x: int| 0 <= x < rest@.len() implies (#[trigger] rest@[x]).deep_view()
                == fl[k as int + 1 + x] by {
                assert(rest@[x] == rest0.subrange(1, rest0.len() as int)[x]);
                assert(rest0[x + 1].deep_view() == fl[k as int + 1 + x]);
            }
        }
        let (path, bytes) = f;
        let outcome = if is_notebook {
            get_imports_from_ipynb_file(&path, &bytes)
        } else {
            get_imports_from_py_file(&path, &bytes)
        };
        results.push(ThreadResult { file: path, result: outcome });
        k = k + 1;
    }
    proof {
        crate::bytes_util::lemma_deep_view_index(results);
        assert forall|i: int| 0 <= i < results@.len() implies (#[trigger] results.deep_view()[i])
            == results@[i].deep_view() by {
        }
    }
    results
}

/// One broken file never hides another file's results: every module of
/// every successful result reaches the aggregate.
pub proof fn lemma_aggregate_keeps_all_successes(rs: Seq<ThreadResultV>, i: int, key: Seq<u8>)
    requires
        0 <= i < rs.len(),
        rs[i].result matches Ok(m) && m.dom().contains(key),
    ensures
        aggregated(rs).dom().contains(key),
    decreases rs.len(),
{
    if i < rs.len() - 1 {
        assert(rs.drop_last()[i] == rs[i]);
        lemma_aggregate_keeps_all_successes(rs.drop_last(), i, key);
    }
}

/// A one-element batch behaves as the single-file form: a success is the
/// whole aggregate with no warnings, a failure leaves the aggregate empty
/// with that one warning.
pub proof fn lemma_single_file_batch(r: ThreadResultV)
    ensures
        r.result matches Ok(m) ==> aggregated(seq![r]) == m && failures_of(seq![r])
            == Seq::<(Seq<u8>, FileErrorV)>::empty(),
        r.result matches Err(e) ==> aggregated(seq![r]) == Map::<Seq<u8>, Seq<LocationV>>::empty()
            && failures_of(seq![r]) == seq![(r.file, e)],
{
    reveal_with_fuel(aggregated, 2);
    reveal_with_fuel(failures_of, 2);
    assert(seq![r].drop_last() =~= Seq::<ThreadResultV>::empty());
    assert(failures_of(seq![r].drop_last()) == Seq::<(Seq<u8>, FileErrorV)>::empty());
    match r.result {
        Ok(m) => {
            assert(merged_maps(aggregated(Seq::<ThreadResultV>::empty()), m) =~~= m);
            assert(failures_of(seq![r]) =~= Seq::<(Seq<u8>, FileErrorV)>::empty());
        },
        Err(e) => {
            assert(failures_of(seq![r]) =~= seq![(r.file, e)]);
        },
    }
}

} // verus!
