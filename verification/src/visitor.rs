//! Import classification: a depth-first walk over the statement model.
//!
//! The walk records, per top-level module name, every place the module is
//! imported, and tracks which local names currently refer to the dynamic
//! module-loading function (`importlib.import_module`) so that later
//! dynamic-import calls are recognized even under an alias.
//!
//! Statements nested under `if TYPE_CHECKING:` (or `if typing.TYPE_CHECKING:`)
//! are skipped entirely: such imports serve the type checker only. This
//! policy is unconditional; it does not depend on a `from __future__ import
//! annotations` declaration being present.

use vstd::prelude::*;

use crate::ast::{AliasV, CallInfo, CallInfoV, CallTarget, CallTargetV, IfTestV, ImportAlias,
    PyStmt, StmtV, TextSpan, stmt_view, stmts_view};
use crate::bytes_util::{bytes_clone, bytes_eq, bytes_extend, bytes_subrange};
use crate::table::ModuleTable;

verus! {

broadcast use crate::bytes_util::lemma_bytes_deep_view;

/// Bytes of `importlib`, the module that provides the dynamic loader.
pub open spec fn importlib_name() -> Seq<u8> {
    seq![
        'i' as u8,
        'm' as u8,
        'p' as u8,
        'o' as u8,
        'r' as u8,
        't' as u8,
        'l' as u8,
        'i' as u8,
        'b' as u8,
    ]
}

/// Bytes of `import_module`, the dynamic loader function.
pub open spec fn import_module_name() -> Seq<u8> {
    seq![
        'i' as u8,
        'm' as u8,
        'p' as u8,
        'o' as u8,
        'r' as u8,
        't' as u8,
        '_' as u8,
        'm' as u8,
        'o' as u8,
        'd' as u8,
        'u' as u8,
        'l' as u8,
        'e' as u8,
    ]
}

/// Bytes of `typing`.
pub open spec fn typing_name() -> Seq<u8> {
    seq!['t' as u8, 'y' as u8, 'p' as u8, 'i' as u8, 'n' as u8, 'g' as u8]
}

/// Bytes of `TYPE_CHECKING`.
pub open spec fn type_checking_name() -> Seq<u8> {
    seq![
        'T' as u8,
        'Y' as u8,
        'P' as u8,
        'E' as u8,
        '_' as u8,
        'C' as u8,
        'H' as u8,
        'E' as u8,
        'C' as u8,
        'K' as u8,
        'I' as u8,
        'N' as u8,
        'G' as u8,
    ]
}

fn importlib_vec() -> (r: Vec<u8>)
    ensures
        r@ == importlib_name(),
{
    let mut v: Vec<u8> = Vec::new();
    v.push('i' as u8);
    v.push('m' as u8);
    v.push('p' as u8);
    v.push('o' as u8);
    v.push('r' as u8);
    v.push('t' as u8);
    v.push('l' as u8);
    v.push('i' as u8);
    v.push('b' as u8);
    proof {
        assert(v@ =~= importlib_name());
    }
    v
}

fn import_module_vec() -> (r: Vec<u8>)
    ensures
        r@ == import_module_name(),
{
    let mut v: Vec<u8> = Vec::new();
    v.push('i' as u8);
    v.push('m' as u8);
    v.push('p' as u8);
    v.push('o' as u8);
    v.push('r' as u8);
    v.push('t' as u8);
    v.push('_' as u8);
    v.push('m' as u8);
    v.push('o' as u8);
    v.push('d' as u8);
    v.push('u' as u8);
    v.push('l' as u8);
    v.push('e' as u8);
    proof {
        assert(v@ =~= import_module_name());
    }
    v
}

fn typing_vec() -> (r: Vec<u8>)
    ensures
        r@ == typing_name(),
{
    let mut v: Vec<u8> = Vec::new();
    v.push('t' as u8);
    v.push('y' as u8);
    v.push('p' as u8);
    v.push('i' as u8);
    v.push('n' as u8);
    v.push('g' as u8);
    proof {
        assert(v@ =~= typing_name());
    }
    v
}

fn type_checking_vec() -> (r: Vec<u8>)
    ensures
        r@ == type_checking_name(),
{
    let mut v: Vec<u8> = Vec::new();
    v.push('T' as u8);
    v.push('Y' as u8);
    v.push('P' as u8);
    v.push('E' as u8);
    v.push('_' as u8);
    v.push('C' as u8);
    v.push('H' as u8);
    v.push('E' as u8);
    v.push('C' as u8);
    v.push('K' as u8);
    v.push('I' as u8);
    v.push('N' as u8);
    v.push('G' as u8);
    proof {
        assert(v@ =~= type_checking_name());
    }
    v
}

/// Index of the first `.` in `name`, or `name.len()` if there is none.
pub open spec fn first_dot(name: Seq<u8>) -> int
    decreases name.len(),
{
    if name.len() == 0 {
        0
    } else if name[0] == '.' as u8 {
        0
    } else {
        1 + first_dot(name.drop_first())
    }
}

/// The top-level component of a dotted module path: everything before the
/// first `.`, or the whole path if it has no dot.
pub open spec fn top_level_of(name: Seq<u8>) -> Seq<u8> {
    name.subrange(0, first_dot(name))
}

pub proof fn lemma_first_dot_bounds(name: Seq<u8>)
    ensures
        0 <= first_dot(name) <= name.len(),
        forall|j: int| 0 <= j < first_dot(name) ==> name[j] != '.' as u8,
        first_dot(name) < name.len() ==> name[first_dot(name)] == '.' as u8,
    decreases name.len(),
{
    if name.len() > 0 && name[0] != '.' as u8 {
        lemma_first_dot_bounds(name.drop_first());
        assert forall|j: int| 0 <= j < first_dot(name) implies name[j] != '.' as u8 by {
            if j > 0 {
                assert(name.drop_first()[j - 1] == name[j]);
            }
        }
        if first_dot(name) < name.len() {
            assert(name.drop_first()[first_dot(name) - 1] == name[first_dot(name)]);
        }
    }
}

/// A position with no dot before it, and a dot (or the end) at it, is the
/// first dot.
proof fn lemma_first_dot_position(name: Seq<u8>, i: int)
    requires
        0 <= i <= name.len(),
        forall|j: int| 0 <= j < i ==> name[j] != '.' as u8,
        i < name.len() ==> name[i] == '.' as u8,
    ensures
        first_dot(name) == i,
    decreases name.len(),
{
    if name.len() == 0 {
    } else if name[0] == '.' as u8 {
        assert(i == 0);
    } else {
        assert(name[0] != '.' as u8);
        assert(i >= 1);
        let tail = name.drop_first();
        assert forall|j: int| 0 <= j < i - 1 implies tail[j] != '.' as u8 by {
            assert(tail[j] == name[j + 1]);
        }
        if i - 1 < tail.len() {
            assert(tail[i - 1] == name[i]);
        }
        lemma_first_dot_position(tail, i - 1);
    }
}

/// Extracts the top-level module name from a potentially nested module
/// path, e.g. `foo.bar` gives `foo`.
pub fn get_top_level_module_name(name: &Vec<u8>) -> (r: Vec<u8>)
    ensures
        r@ == top_level_of(name@),
{
    let mut i: usize = 0;
    while i < name.len() && name[i] != '.' as u8
        invariant
            i <= name@.len(),
            forall|j: int| 0 <= j < i ==> name@[j] != '.' as u8,
        decreases name@.len() - i,
    {
        i = i + 1;
    }
    proof {
        lemma_first_dot_position(name@, i as int);
    }
    bytes_subrange(name, 0, i)
}

/// The traversal state: the import record built so far, and the set of
/// local names that grant access to the dynamic loader. A name of the
/// form `x.import_module` in the set means the bare name `x` is bound to
/// the `importlib` module; a plain entry means the name is bound to the
/// loader function itself.
pub struct VisitState {
    pub imports: Map<Seq<u8>, Seq<TextSpan>>,
    pub loader_names: Set<Seq<u8>>,
}

/// The state a fresh walk starts from.
pub open spec fn initial_state() -> VisitState {
    VisitState { imports: Map::empty(), loader_names: Set::empty() }
}

/// Appends one occurrence of `module` at `span` to the import record.
pub open spec fn record_import(st: VisitState, module: Seq<u8>, span: TextSpan) -> VisitState {
    VisitState {
        imports: st.imports.insert(
            module,
            (if st.imports.dom().contains(module) {
                st.imports[module]
            } else {
                Seq::empty()
            }).push(span),
        ),
        loader_names: st.loader_names,
    }
}

/// The local name an alias binds: the alias after `as`, or the plain name.
pub open spec fn bound_name(a: AliasV) -> Seq<u8> {
    match a.asname {
        Some(n) => n,
        None => a.name,
    }
}

/// The loader-set entry for a name bound to the `importlib` module.
pub open spec fn loader_key(name: Seq<u8>) -> Seq<u8> {
    name + seq!['.' as u8] + import_module_name()
}

/// Effect of one `import` target: one occurrence of its top-level module
/// at the target's own span; a target naming `importlib` also registers
/// its bound name as granting loader access.
pub open spec fn import_alias_step(st: VisitState, a: AliasV) -> VisitState {
    let recorded = record_import(st, top_level_of(a.name), a.span);
    if a.name == importlib_name() {
        VisitState {
            imports: recorded.imports,
            loader_names: recorded.loader_names.insert(loader_key(bound_name(a))),
        }
    } else {
        recorded
    }
}

/// Effect of `import a.b.c as x, ...`: `import_alias_step` per target.
pub open spec fn handle_import_spec(st: VisitState, names: Seq<AliasV>) -> VisitState
    decreases names,
{
    if names.len() == 0 {
        st
    } else {
        import_alias_step(handle_import_spec(st, names.drop_last()), names.last())
    }
}

/// Effect of one `from importlib import ...` target: an `import_module`
/// target registers its bound name as granting loader access.
pub open spec fn loader_alias_step(st: VisitState, a: AliasV) -> VisitState {
    if a.name == import_module_name() {
        VisitState { imports: st.imports, loader_names: st.loader_names.insert(bound_name(a)) }
    } else {
        st
    }
}

/// Registers every `import_module` target of `from importlib import ...`
/// under its bound name.
pub open spec fn register_loader_aliases(st: VisitState, names: Seq<AliasV>) -> VisitState
    decreases names,
{
    if names.len() == 0 {
        st
    } else {
        loader_alias_step(register_loader_aliases(st, names.drop_last()), names.last())
    }
}

/// Effect of `from mod import x, ...`: one occurrence of the source
/// module's top-level component at the whole statement's span, for
/// absolute imports only; a relative import (nonzero `level`) or a
/// missing module contributes nothing.
pub open spec fn handle_import_from_spec(
    st: VisitState,
    module: Option<Seq<u8>>,
    names: Seq<AliasV>,
    level: u32,
    span: TextSpan,
) -> VisitState {
    match module {
        Some(m) => if level == 0 {
            let recorded = record_import(st, top_level_of(m), span);
            if m == importlib_name() {
                register_loader_aliases(recorded, names)
            } else {
                recorded
            }
        } else {
            st
        },
        None => st,
    }
}

/// Whether a call's callee reaches the dynamic loader: an attribute access
/// on a name bound to the `importlib` module, or a bare name bound to the
/// loader function.
pub open spec fn is_loader_call(st: VisitState, target: CallTargetV) -> bool {
    match target {
        CallTargetV::AttributeOf(obj) => st.loader_names.contains(loader_key(obj)),
        CallTargetV::Name(id) => st.loader_names.contains(id),
        CallTargetV::Other => false,
    }
}

/// Effect of an expression statement: a loader call whose first positional
/// argument is a string literal records that literal's top-level module at
/// the whole statement's span.
pub open spec fn handle_expression_spec(
    st: VisitState,
    call: Option<CallInfoV>,
    span: TextSpan,
) -> VisitState {
    match call {
        Some(ci) => if is_loader_call(st, ci.target) {
            match ci.first_arg {
                Some(arg) => record_import(st, top_level_of(arg), span),
                None => st,
            }
        } else {
            st
        },
        None => st,
    }
}

/// Whether an `if` test is the type-checking guard: the bare name
/// `TYPE_CHECKING`, or the attribute `typing.TYPE_CHECKING`.
pub open spec fn is_type_checking_guard(test: IfTestV) -> bool {
    match test {
        IfTestV::Name(id) => id == type_checking_name(),
        IfTestV::Attribute(obj, attr) => obj == typing_name() && attr == type_checking_name(),
        IfTestV::Other => false,
    }
}

/// Effect of one statement on the traversal state.
pub open spec fn visit_stmt_spec(st: VisitState, s: StmtV) -> VisitState
    decreases s,
{
    match s {
        StmtV::Import { names } => handle_import_spec(st, names),
        StmtV::ImportFrom { module, names, level, span } => handle_import_from_spec(
            st,
            module,
            names,
            level,
            span,
        ),
        StmtV::Expression { call, span } => handle_expression_spec(st, call, span),
        StmtV::If { test, body } => if is_type_checking_guard(test) {
            st
        } else {
            visit_stmts_spec(st, body)
        },
        StmtV::Other { body } => visit_stmts_spec(st, body),
    }
}

/// Effect of a statement sequence, in order.
pub open spec fn visit_stmts_spec(st: VisitState, ss: Seq<StmtV>) -> VisitState
    decreases ss,
{
    if ss.len() == 0 {
        st
    } else {
        visit_stmt_spec(visit_stmts_spec(st, ss.drop_last()), ss.last())
    }
}

/// The set of byte strings held by a name list.
pub open spec fn names_set(ns: Seq<Vec<u8>>) -> Set<Seq<u8>> {
    Set::new(|n: Seq<u8>| exists|i: int| 0 <= i < ns.len() && #[trigger] ns[i]@ == n)
}

proof fn lemma_names_set_push(ns: Seq<Vec<u8>>, k: Vec<u8>)
    ensures
        names_set(ns.push(k)) == names_set(ns).insert(k@),
{
    assert forall|n: Seq<u8>| names_set(ns.push(k)).contains(n) implies names_set(
        ns,
    ).insert(k@).contains(n) by {
        let i = choose|i: int| 0 <= i < ns.push(k).len() && ns.push(k)[i]@ == n;
        if i < ns.len() {
            assert(ns[i]@ == n);
        }
    }
    assert forall|n: Seq<u8>| names_set(ns).insert(k@).contains(n) implies names_set(
        ns.push(k),
    ).contains(n) by {
        if n == k@ {
            assert(ns.push(k)[ns.len() as int]@ == n);
        } else {
            let i = choose|i: int| 0 <= i < ns.len() && ns[i]@ == n;
            assert(ns.push(k)[i]@ == n);
        }
    }
    assert(names_set(ns.push(k)) =~= names_set(ns).insert(k@));
}

/// Visitor that tracks imports over a statement tree.
///
/// `imports` maps top-level module names to their import occurrences;
/// `import_module_names` holds the local names (including aliases) that
/// refer to the `importlib.import_module` function: the loader-access
/// names of `VisitState`.
pub struct ImportVisitor {
    imports: ModuleTable<TextSpan>,
    import_module_names: Vec<Vec<u8>>,
}

impl View for ImportVisitor {
    type V = VisitState;

    closed spec fn view(&self) -> VisitState {
        VisitState {
            imports: self.imports@,
            loader_names: names_set(self.import_module_names@),
        }
    }
}

impl ImportVisitor {
    /// The import table's keys are unique.
    pub closed spec fn wf(&self) -> bool {
        self.imports.wf()
    }

    pub fn new() -> (r: Self)
        ensures
            r@ == initial_state(),
            r.wf(),
    {
        let r = ImportVisitor { imports: ModuleTable::new(), import_module_names: Vec::new() };
        proof {
            assert(names_set(r.import_module_names@) =~= Set::<Seq<u8>>::empty());
        }
        r
    }

    /// Hands out the import record built by the walk.
    pub fn get_imports(self) -> (r: ModuleTable<TextSpan>)
        requires
            self.wf(),
        ensures
            r@ == self@.imports,
            r.wf(),
    {
        let ImportVisitor { imports, import_module_names: _ } = self;
        imports
    }

    /// Whether `key` is currently registered as granting loader access.
    fn knows_loader_name(&self, key: &Vec<u8>) -> (r: bool)
        ensures
            r == self@.loader_names.contains(key@),
    {
        let mut i: usize = 0;
        while i < self.import_module_names.len()
            invariant
                i <= self.import_module_names@.len(),
                forall|j: int| 0 <= j < i ==> self.import_module_names@[j]@ != key@,
            decreases self.import_module_names@.len() - i,
        {
            if bytes_eq(&self.import_module_names[i], key) {
                proof {
                    assert(self.import_module_names@[i as int]@ == key@);
                    assert(names_set(self.import_module_names@).contains(key@));
                }
                return true;
            }
            i = i + 1;
        }
        false
    }

    /// Registers `key` as granting loader access.
    fn add_loader_name(&mut self, key: Vec<u8>)
        ensures
            final(self)@ == (VisitState {
                imports: old(self)@.imports,
                loader_names: old(self)@.loader_names.insert(key@),
            }),
            final(self).wf() == old(self).wf(),
    {
        proof {
            lemma_names_set_push(self.import_module_names@, key);
        }
        self.import_module_names.push(key);
    }

    /// Handles `import a.b.c as x, ...` statements.
    fn handle_import(&mut self, names: &Vec<ImportAlias>)
        requires
            old(self).wf(),
        ensures
            final(self).wf(),
            final(self)@ == handle_import_spec(old(self)@, names.deep_view()),
    {
        let ghost all = names.deep_view();
        let mut i: usize = 0;
        while i < names.len()
            invariant
                i <= names@.len(),
                all == names.deep_view(),
                all.len() == names@.len(),
                self.wf(),
                self@ == handle_import_spec(old(self)@, all.subrange(0, i as int)),
            decreases names@.len() - i,
        {
            let a = &names[i];
            proof {
                assert(all.subrange(0, i as int + 1).drop_last() =~= all.subrange(0, i as int));
                assert(all[i as int] == a.deep_view());
            }
            let top = get_top_level_module_name(&a.name);
            self.imports.push_value(top, a.span);
            let il = importlib_vec();
            if bytes_eq(&a.name, &il) {
                let local = match &a.asname {
                    Some(n) => bytes_clone(n),
                    None => il,
                };
                let key = loader_key_vec(&local);
                self.add_loader_name(key);
            }
            proof {
                let st0 = old(self)@;
                let pre = handle_import_spec(st0, all.subrange(0, i as int));
                let av = a.deep_view();
                assert(av.name == a.name@);
                assert(all.subrange(0, i as int + 1).last() == av);
                let recorded = record_import(pre, top_level_of(av.name), av.span);
                assert(self@.imports == recorded.imports);
                if av.name == importlib_name() {
                    assert(self@.loader_names == recorded.loader_names.insert(
                        loader_key(bound_name(av)),
                    ));
                } else {
                    assert(self@.loader_names == recorded.loader_names);
                }
                assert(self@ == import_alias_step(pre, av));
                assert(handle_import_spec(st0, all.subrange(0, i as int + 1))
                    == import_alias_step(pre, av));
            }
            i = i + 1;
        }
        proof {
            assert(all.subrange(0, all.len() as int) =~= all);
        }
    }

    /// Handles `from mod import x as y, ...` statements.
    fn handle_import_from(
        &mut self,
        module: &Option<Vec<u8>>,
        names: &Vec<ImportAlias>,
        level: u32,
        span: TextSpan,
    )
        requires
            old(self).wf(),
        ensures
            final(self).wf(),
            final(self)@ == handle_import_from_spec(
                old(self)@,
                module.deep_view(),
                names.deep_view(),
                level,
                span,
            ),
    {
        match module {
            Some(m) => {
                if level == 0 {
                    let top = get_top_level_module_name(m);
                    self.imports.push_value(top, span);
                    let il = importlib_vec();
                    if bytes_eq(m, &il) {
                        self.register_loader_aliases_exec(names);
                    }
                }
            },
            None => {},
        }
    }

    /// Registers loader aliases out of `from importlib import ...` targets.
    fn register_loader_aliases_exec(&mut self, names: &Vec<ImportAlias>)
        requires
            old(self).wf(),
        ensures
            final(self).wf(),
            final(self)@ == register_loader_aliases(old(self)@, names.deep_view()),
    {
        let ghost all = names.deep_view();
        let mut i: usize = 0;
        while i < names.len()
            invariant
                i <= names@.len(),
                all == names.deep_view(),
                all.len() == names@.len(),
                self.wf(),
                self@ == register_loader_aliases(old(self)@, all.subrange(0, i as int)),
            decreases names@.len() - i,
        {
            let a = &names[i];
            proof {
                assert(all.subrange(0, i as int + 1).drop_last() =~= all.subrange(0, i as int));
                assert(all[i as int] == a.deep_view());
            }
            let im = import_module_vec();
            if bytes_eq(&a.name, &im) {
                let local = match &a.asname {
                    Some(n) => bytes_clone(n),
                    None => im,
                };
                self.add_loader_name(local);
            }
            i = i + 1;
        }
        proof {
            assert(all.subrange(0, all.len() as int) =~= all);
        }
    }

    /// Handles expression statements, looking for dynamic imports through
    /// the registered loader names.
    fn handle_expression(&mut self, call: &Option<CallInfo>, span: TextSpan)
        requires
            old(self).wf(),
        ensures
            final(self).wf(),
            final(self)@ == handle_expression_spec(old(self)@, call.deep_view(), span),
    {
        match call {
            Some(ci) => {
                let is_loader = match &ci.target {
                    CallTarget::AttributeOf(obj) => {
                        let key = loader_key_vec(obj);
                        self.knows_loader_name(&key)
                    },
                    CallTarget::Name(id) => self.knows_loader_name(id),
                    CallTarget::Other => false,
                };
                proof {
                    assert(is_loader == is_loader_call(self@, ci.target.deep_view()));
                }
                if is_loader {
                    match &ci.first_arg {
                        Some(arg) => {
                            let top = get_top_level_module_name(arg);
                            self.imports.push_value(top, span);
                        },
                        None => {},
                    }
                }
            },
            None => {},
        }
    }

    /// Walks one statement, updating the state as `visit_stmt_spec` says.
    pub fn visit_stmt(&mut self, s: &PyStmt)
        requires
            old(self).wf(),
        ensures
            final(self).wf(),
            final(self)@ == visit_stmt_spec(old(self)@, s.deep_view()),
        decreases *s,
    {
        match s {
            PyStmt::Import { names } => self.handle_import(names),
            PyStmt::ImportFrom { module, names, level, span } => self.handle_import_from(
                module,
                names,
                *level,
                *span,
            ),
            PyStmt::Expression { call, span } => self.handle_expression(call, *span),
            PyStmt::If { test, body } => {
                let guarded = match test {
                    crate::ast::IfTest::Name(id) => {
                        let tc = type_checking_vec();
                        bytes_eq(id, &tc)
                    },
                    crate::ast::IfTest::Attribute(obj, attr) => {
                        let ty = typing_vec();
                        let tc = type_checking_vec();
                        bytes_eq(obj, &ty) && bytes_eq(attr, &tc)
                    },
                    crate::ast::IfTest::Other => false,
                };
                proof {
                    assert(guarded == is_type_checking_guard(test.deep_view()));
                }
                if !guarded {
                    self.visit_stmts(body);
                }
            },
            PyStmt::Other { body } => self.visit_stmts(body),
        }
    }

    /// Walks a statement list in order.
    pub fn visit_stmts(&mut self, ss: &Vec<PyStmt>)
        requires
            old(self).wf(),
        ensures
            final(self).wf(),
            final(self)@ == visit_stmts_spec(old(self)@, stmts_view(ss@)),
        decreases ss@,
    {
        let ghost all = stmts_view(ss@);
        proof {
            crate::ast::lemma_stmts_view_len(ss@);
        }
        let mut i: usize = 0;
        while i < ss.len()
            invariant
                i <= ss@.len(),
                all == stmts_view(ss@),
                all.len() == ss@.len(),
                forall|j: int| 0 <= j < ss@.len() ==> all[j] == stmt_view(ss@[j]),
                self.wf(),
                self@ == visit_stmts_spec(old(self)@, all.subrange(0, i as int)),
            decreases ss@.len() - i,
        {
            proof {
                assert(all.subrange(0, i as int + 1).drop_last() =~= all.subrange(0, i as int));
                assert(all.subrange(0, i as int + 1).last() == stmt_view(ss@[i as int]));
            }
            self.visit_stmt(&ss[i]);
            i = i + 1;
        }
        proof {
            assert(all.subrange(0, all.len() as int) =~= all);
        }
    }
}

/// Builds the loader-set entry for a name bound to the `importlib` module.
fn loader_key_vec(name: &Vec<u8>) -> (r: Vec<u8>)
    ensures
        r@ == loader_key(name@),
{
    let mut r = bytes_clone(name);
    r.push('.' as u8);
    let im = import_module_vec();
    bytes_extend(&mut r, &im);
    proof {
        assert(r@ =~= loader_key(name@));
    }
    r
}

/// Walks a whole parsed module and hands back its import record: the
/// mapping from top-level module name to every place it is imported.
pub fn extract_imports_from_parsed_file_content(stmts: &Vec<PyStmt>) -> (r: ModuleTable<TextSpan>)
    ensures
        r.wf(),
        r@ == visit_stmts_spec(initial_state(), stmts_view(stmts@)).imports,
{
    let mut visitor = ImportVisitor::new();
    visitor.visit_stmts(stmts);
    visitor.get_imports()
}

/// A top-level module name never holds a dot.
pub proof fn lemma_top_level_has_no_dot(name: Seq<u8>, j: int)
    requires
        0 <= j < top_level_of(name).len(),
    ensures
        top_level_of(name)[j] != '.' as u8,
{
    lemma_first_dot_bounds(name);
}

/// `import a.b.c [as x]` yields the top-level module of the dotted path,
/// with one new occurrence at the target's own span.
pub proof fn lemma_import_yields_top_level_module(st: VisitState, a: AliasV)
    ensures
        ({
            let st1 = visit_stmt_spec(st, StmtV::Import { names: seq![a] });
            let m = top_level_of(a.name);
            &&& st1.imports.dom().contains(m)
            &&& st1.imports[m] == (if st.imports.dom().contains(m) {
                st.imports[m]
            } else {
                Seq::empty()
            }).push(a.span)
        }),
{
    reveal_with_fuel(handle_import_spec, 2);
    assert(seq![a].drop_last() =~= Seq::<AliasV>::empty());
    assert(handle_import_spec(st, seq![a].drop_last()) == st);
}

/// Loader-alias registration never touches the import record.
pub proof fn lemma_register_preserves_imports(st: VisitState, names: Seq<AliasV>)
    ensures
        register_loader_aliases(st, names).imports == st.imports,
    decreases names,
{
    if names.len() > 0 {
        lemma_register_preserves_imports(st, names.drop_last());
    }
}

/// `from pkg.sub import x` (an absolute import) yields the source
/// module's top-level component, with one new occurrence at the whole
/// statement's span.
pub proof fn lemma_from_import_yields_source_module(
    st: VisitState,
    module: Seq<u8>,
    names: Seq<AliasV>,
    span: TextSpan,
)
    ensures
        ({
            let st1 = visit_stmt_spec(
                st,
                StmtV::ImportFrom { module: Some(module), names, level: 0, span },
            );
            let m = top_level_of(module);
            &&& st1.imports.dom().contains(m)
            &&& st1.imports[m] == (if st.imports.dom().contains(m) {
                st.imports[m]
            } else {
                Seq::empty()
            }).push(span)
        }),
{
    let recorded = record_import(st, top_level_of(module), span);
    lemma_register_preserves_imports(recorded, names);
}

/// A relative import (nonzero level) contributes nothing, whatever its
/// module and targets.
pub proof fn lemma_relative_import_yields_nothing(
    st: VisitState,
    module: Option<Seq<u8>>,
    names: Seq<AliasV>,
    level: u32,
    span: TextSpan,
)
    requires
        level != 0,
    ensures
        visit_stmt_spec(st, StmtV::ImportFrom { module, names, level, span }) == st,
{
}

/// Statements under a type-checking guard are skipped entirely: the walk
/// leaves the state untouched, whatever the body holds.
pub proof fn lemma_type_checking_guard_skips_body(st: VisitState, test: IfTestV, body: Seq<StmtV>)
    requires
        is_type_checking_guard(test),
    ensures
        visit_stmt_spec(st, StmtV::If { test, body }) == st,
{
}

/// Both spellings of the guard are recognized: the bare `TYPE_CHECKING`
/// name and the attribute on `typing`.
pub proof fn lemma_guard_spellings()
    ensures
        is_type_checking_guard(IfTestV::Name(type_checking_name())),
        is_type_checking_guard(IfTestV::Attribute(typing_name(), type_checking_name())),
{
}

/// After `import importlib [as x]`, a call through an attribute of the
/// bound name whose first positional argument is a string literal records
/// the literal's top-level module at the call statement's span.
pub proof fn lemma_dynamic_import_via_module(st: VisitState, a: AliasV, arg: Seq<u8>, span: TextSpan)
    requires
        a.name == importlib_name(),
    ensures
        ({
            let st1 = visit_stmt_spec(st, StmtV::Import { names: seq![a] });
            let call = CallInfoV {
                target: CallTargetV::AttributeOf(bound_name(a)),
                first_arg: Some(arg),
            };
            let st2 = visit_stmt_spec(st1, StmtV::Expression { call: Some(call), span });
            let m = top_level_of(arg);
            &&& st2.imports.dom().contains(m)
            &&& st2.imports[m] == (if st1.imports.dom().contains(m) {
                st1.imports[m]
            } else {
                Seq::empty()
            }).push(span)
        }),
{
    reveal_with_fuel(handle_import_spec, 2);
    assert(seq![a].drop_last() =~= Seq::<AliasV>::empty());
    assert(handle_import_spec(st, seq![a].drop_last()) == st);
}

/// After `from importlib import import_module [as x]`, a direct call of
/// the bound name with a string-literal first argument records that
/// literal's top-level module at the call statement's span.
pub proof fn lemma_dynamic_import_via_loader_alias(
    st: VisitState,
    a: AliasV,
    arg: Seq<u8>,
    span1: TextSpan,
    span2: TextSpan,
)
    requires
        a.name == import_module_name(),
    ensures
        ({
            let st1 = visit_stmt_spec(
                st,
                StmtV::ImportFrom {
                    module: Some(importlib_name()),
                    names: seq![a],
                    level: 0,
                    span: span1,
                },
            );
            let call = CallInfoV { target: CallTargetV::Name(bound_name(a)), first_arg: Some(arg) };
            let st2 = visit_stmt_spec(st1, StmtV::Expression { call: Some(call), span: span2 });
            let m = top_level_of(arg);
            &&& st2.imports.dom().contains(m)
            &&& st2.imports[m] == (if st1.imports.dom().contains(m) {
                st1.imports[m]
            } else {
                Seq::empty()
            }).push(span2)
        }),
{
    reveal_with_fuel(register_loader_aliases, 2);
    assert(seq![a].drop_last() =~= Seq::<AliasV>::empty());
    let recorded = record_import(st, top_level_of(importlib_name()), span1);
    assert(register_loader_aliases(recorded, seq![a].drop_last()) == recorded);
}


} // verus!
