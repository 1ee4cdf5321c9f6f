//! Type resolution of `let` statements: the type a statement declares or infers, and the
//! types of the parts of a tuple pattern, taken from the tuple type they match.
use std::collections::VecDeque;
use vstd::prelude::*;

use crate::ast::{Expr, ExprKind, LetStmt, Literal, Operator, Pat, PatKind, Path};
use crate::hir::NodeId;
use crate::interning::{intern_spec, law_lookup_after_intern};
use crate::resolve::def::Def;
use crate::resolve::resolver::ResolutionContext;
use crate::session::item::{ItemInfo, ItemKind};
use crate::session::local::LocalInfo;
use crate::session::Session;
use crate::span::Span;
use crate::types::interner::{children, refers_below, TypeInterner};
use crate::types::ty::{PrimTy, SpecTyKind, TyId, TyKind};

verus! {

broadcast use vstd::std_specs::hash::group_hash_axioms;

/// The size of a pattern: one for itself, and the sizes of its elements.
pub open spec fn pat_size(p: Pat) -> nat
    decreases p,
{
    1 + match p.kind {
        PatKind::Tuple(ps) => pats_size(ps@),
        PatKind::Binding(_) => 0,
    }
}

/// The sizes of `ps`, added up.
pub open spec fn pats_size(ps: Seq<Pat>) -> nat
    decreases ps,
{
    if ps.len() == 0 {
        0
    } else {
        pats_size(ps.drop_last()) + pat_size(ps.last())
    }
}

/// The sizes of the patterns of a queue, added up.
pub open spec fn ty_queue_size<'a>(q: Seq<(TyId, Option<&'a Pat>)>) -> nat
    decreases q.len(),
{
    if q.len() == 0 {
        0
    } else {
        ty_queue_size(q.drop_last()) + match q.last().1 {
            Some(p) => pat_size(*p),
            None => 0,
        }
    }
}

/// The element types `tys` of a tuple type, each with the pattern element at its place,
/// if any.
pub open spec fn ty_pairs<'a>(tys: Seq<TyId>, ps: Seq<Pat>) -> Seq<(TyId, Option<&'a Pat>)> {
    Seq::new(tys.len(), |i: int| (tys[i], if i < ps.len() { Some(&ps[i]) } else { None }))
}

/// The patterns of the pairs in `q`, each with the type it is paired with, and then those
/// of the pairs of their elements: the pairs are taken from the front, and a tuple pattern
/// paired with a tuple type (among the interned `kinds`) puts the pairs of their elements
/// at the back.
pub open spec fn pattern_types<'a>(q: Seq<(TyId, Option<&'a Pat>)>, kinds: Seq<SpecTyKind>) -> Seq<(NodeId, TyId)>
    decreases ty_queue_size(q), q.len(),
{
    if q.len() == 0 {
        Seq::empty()
    } else {
        let ty = q[0].0;
        let rest = q.drop_first();
        proof {
            lemma_ty_queue_first(q);
        }
        match q[0].1 {
            Some(p) => seq![(p.id, ty)] + match (kinds[ty.index()], p.kind) {
                (SpecTyKind::Tuple(nested), PatKind::Tuple(ps)) => {
                    proof {
                        lemma_ty_queue_add(rest, ty_pairs(nested, ps@));
                        lemma_ty_pairs_size(nested, ps@);
                    }
                    pattern_types(rest + ty_pairs(nested, ps@), kinds)
                },
                _ => pattern_types(rest, kinds),
            },
            None => pattern_types(rest, kinds),
        }
    }
}

/// The types that the parts of pattern `pat` get from type `ty` (among the interned
/// `kinds`) as [pattern_types] pairs them: nothing unless both are tuples.
pub open spec fn pattern_part_types(pat: Pat, ty: TyId, kinds: Seq<SpecTyKind>) -> Seq<(NodeId, TyId)> {
    match (kinds[ty.index()], pat.kind) {
        (SpecTyKind::Tuple(es), PatKind::Tuple(ps)) => pattern_types(ty_pairs(es, ps@), kinds),
        _ => Seq::empty(),
    }
}

/// Whether every type that `m` records is below index `bound`.
pub open spec fn types_below(m: Map<usize, TyId>, bound: int) -> bool {
    forall|k: usize| #[trigger] m.contains_key(k) ==> 0 <= m[k].index() < bound
}

/// Whether every kind of `kinds` refers only to kinds before it.
pub open spec fn kinds_founded(kinds: Seq<SpecTyKind>) -> bool {
    forall|i: int| 0 <= i < kinds.len() ==> refers_below(#[trigger] kinds[i], i)
}

/// The type that `m` gives node `id`, or `err` where it gives none.
pub open spec fn ty_in(m: Map<usize, TyId>, id: NodeId, err: TyId) -> TyId {
    if m.contains_key(id.0) {
        m[id.0]
    } else {
        err
    }
}

/// `m` with each node of `pairs`, in order, mapped to its type.
pub open spec fn insert_types(m: Map<usize, TyId>, pairs: Seq<(NodeId, TyId)>) -> Map<usize, TyId>
    decreases pairs.len(),
{
    if pairs.len() == 0 {
        m
    } else {
        insert_types(m, pairs.drop_last()).insert(pairs.last().0.0, pairs.last().1)
    }
}

/// The sizes of two queues one after the other add up.
pub proof fn lemma_ty_queue_add<'a>(a: Seq<(TyId, Option<&'a Pat>)>, b: Seq<(TyId, Option<&'a Pat>)>)
    ensures
        ty_queue_size(a + b) == ty_queue_size(a) + ty_queue_size(b),
    decreases b.len(),
{
    if b.len() > 0 {
        lemma_ty_queue_add(a, b.drop_last());
        assert((a + b).drop_last() =~= a + b.drop_last());
        assert((a + b).last() == b.last());
    } else {
        assert(a + b =~= a);
    }
}

/// The size of a queue is that of its first pattern and of the rest.
pub proof fn lemma_ty_queue_first<'a>(q: Seq<(TyId, Option<&'a Pat>)>)
    requires
        q.len() > 0,
    ensures
        ty_queue_size(q) == ty_queue_size(seq![q[0]]) + ty_queue_size(q.drop_first()),
        ty_queue_size(seq![q[0]]) == match q[0].1 {
            Some(p) => pat_size(*p),
            None => 0,
        },
{
    let head = seq![q[0]];
    lemma_ty_queue_add(head, q.drop_first());
    assert(head + q.drop_first() =~= q);
    assert(head.drop_last() =~= Seq::<(TyId, Option<&'a Pat>)>::empty());
    assert(head.last() == q[0]);
    assert(ty_queue_size(head) == ty_queue_size(head.drop_last()) + match head.last().1 {
        Some(p) => pat_size(*p),
        None => 0,
    });
}

/// The first `n` patterns are no larger than all of them.
pub proof fn lemma_pats_size_take(ps: Seq<Pat>, n: int)
    requires
        0 <= n <= ps.len(),
    ensures
        pats_size(ps.take(n)) <= pats_size(ps),
    decreases ps.len(),
{
    if n < ps.len() {
        assert(ps.take(n) =~= ps.drop_last().take(n));
        lemma_pats_size_take(ps.drop_last(), n);
    } else {
        assert(ps.take(n) =~= ps);
    }
}

/// The pairs of a tuple type's elements hold no more of the pattern than its elements.
pub proof fn lemma_ty_pairs_size(tys: Seq<TyId>, ps: Seq<Pat>)
    ensures
        ty_queue_size(ty_pairs(tys, ps)) <= pats_size(ps),
{
    lemma_ty_pairs_size_take(tys, ps);
    let n = if tys.len() < ps.len() { tys.len() as int } else { ps.len() as int };
    lemma_pats_size_take(ps, n);
}

proof fn lemma_ty_pairs_size_take(tys: Seq<TyId>, ps: Seq<Pat>)
    ensures
        ty_queue_size(ty_pairs(tys, ps)) == pats_size(ps.take(if tys.len() < ps.len() { tys.len() as int } else { ps.len() as int })),
    decreases tys.len(),
{
    if tys.len() > 0 {
        lemma_ty_pairs_size_take(tys.drop_last(), ps);
        assert(ty_pairs(tys, ps).drop_last() =~= ty_pairs(tys.drop_last(), ps));
        let n = tys.len() as int;
        if n <= ps.len() {
            assert(ps.take(n).drop_last() =~= ps.take(n - 1));
        } else {
            assert(ps.take(ps.len() as int) =~= ps.take(ps.len() as int));
        }
    } else {
        assert(ps.take(0) =~= Seq::<Pat>::empty());
    }
}

/// The types that [pattern_types] gives are interned where those of the queue are.
pub proof fn lemma_pattern_types_below<'a>(q: Seq<(TyId, Option<&'a Pat>)>, kinds: Seq<SpecTyKind>)
    requires
        kinds_founded(kinds),
        forall|k: int| 0 <= k < q.len() ==> 0 <= (#[trigger] q[k]).0.index() < kinds.len(),
    ensures
        forall|k: int| 0 <= k < pattern_types(q, kinds).len() ==> 0 <= (#[trigger] pattern_types(q, kinds)[k]).1.index() < kinds.len(),
    decreases ty_queue_size(q), q.len(),
{
    if q.len() > 0 {
        let ty = q[0].0;
        let rest = q.drop_first();
        lemma_ty_queue_first(q);
        assert(0 <= q[0].0.index() < kinds.len());
        assert forall|k: int| 0 <= k < rest.len() implies 0 <= (#[trigger] rest[k]).0.index() < kinds.len() by {
            assert(rest[k] == q[k + 1]);
        }
        match q[0].1 {
            Some(p) => match (kinds[ty.index()], p.kind) {
                (SpecTyKind::Tuple(nested), PatKind::Tuple(ps)) => {
                    lemma_ty_queue_add(rest, ty_pairs(nested, ps@));
                    lemma_ty_pairs_size(nested, ps@);
                    let next = rest + ty_pairs(nested, ps@);
                    assert forall|k: int| 0 <= k < next.len() implies 0 <= (#[trigger] next[k]).0.index() < kinds.len() by {
                        if k >= rest.len() {
                            assert(children(kinds[ty.index()])[k - rest.len()] == next[k].0);
                        }
                    }
                    lemma_pattern_types_below(next, kinds);
                    let out = pattern_types(q, kinds);
                    assert(out == seq![(p.id, ty)] + pattern_types(next, kinds));
                    assert forall|k: int| 0 <= k < out.len() implies 0 <= (#[trigger] out[k]).1.index() < kinds.len() by {
                        if k > 0 {
                            assert(out[k] == pattern_types(next, kinds)[k - 1]);
                        }
                    }
                },
                _ => {
                    lemma_pattern_types_below(rest, kinds);
                    let out = pattern_types(q, kinds);
                    assert(out == seq![(p.id, ty)] + pattern_types(rest, kinds));
                    assert forall|k: int| 0 <= k < out.len() implies 0 <= (#[trigger] out[k]).1.index() < kinds.len() by {
                        if k > 0 {
                            assert(out[k] == pattern_types(rest, kinds)[k - 1]);
                        }
                    }
                },
            },
            None => {
                lemma_pattern_types_below(rest, kinds);
                assert(pattern_types(q, kinds) == pattern_types(rest, kinds));
            },
        }
    }
}

/// Recording types below a bound keeps every recorded type below it.
pub proof fn lemma_insert_types_below(m: Map<usize, TyId>, pairs: Seq<(NodeId, TyId)>, bound: int)
    requires
        types_below(m, bound),
        forall|k: int| 0 <= k < pairs.len() ==> 0 <= (#[trigger] pairs[k]).1.index() < bound,
    ensures
        types_below(insert_types(m, pairs), bound),
    decreases pairs.len(),
{
    if pairs.len() > 0 {
        assert forall|k: int| 0 <= k < pairs.drop_last().len() implies 0 <= (#[trigger] pairs.drop_last()[k]).1.index() < bound by {
            assert(pairs.drop_last()[k] == pairs[k]);
        }
        lemma_insert_types_below(m, pairs.drop_last(), bound);
        assert(pairs.last() == pairs[pairs.len() - 1]);
    }
}

/// The primitive type of a literal.
pub open spec fn lit_prim(lit: Literal) -> PrimTy {
    match lit {
        Literal::Bool => PrimTy::Bool,
        Literal::Integer => PrimTy::Int,
        Literal::Str | Literal::InterpolatedStr => PrimTy::Str,
    }
}

/// The primitive type of a binary expression: `int` for arithmetic, `bool` for a
/// comparison.
pub open spec fn op_prim(op: Operator) -> PrimTy {
    match op {
        Operator::Add | Operator::Div | Operator::Minus | Operator::Modulus | Operator::Mul => PrimTy::Int,
        _ => PrimTy::Bool,
    }
}

/// The interned kinds and the id after interning kind `k` into `kinds`.
pub open spec fn intern_kind(kinds: Seq<SpecTyKind>, k: SpecTyKind) -> (Seq<SpecTyKind>, TyId) {
    (intern_spec(kinds, k).0, TyId::with_index(intern_spec(kinds, k).1))
}

/// What path `path` names, by the resolutions of `rcx`, or [Def::Error].
pub open spec fn path_def(path: Path, rcx: ResolutionContext) -> Def {
    if rcx.name_resolutions@.contains_key(path.id.0) {
        rcx.name_resolutions@[path.id.0]
    } else {
        Def::Error
    }
}

/// The type of a path: that recorded for the function it names (none for a module), that
/// recorded for the local it names, and otherwise the error type.
pub open spec fn path_type(path: Path, rcx: ResolutionContext, items: Map<u64, ItemInfo>, locals: Seq<LocalInfo>) -> TyId {
    let tys = rcx.tys_by_node@;
    let err = rcx.error_id;
    match path_def(path, rcx) {
        Def::Def(id) => {
            let item = items[id.0];
            if (item.kind is Fn || item.kind is ExternFn) && tys.contains_key(item.id.0) {
                tys[item.id.0]
            } else {
                err
            }
        },
        Def::Local(l) => ty_in(tys, locals[l.0 as int].id, err),
        Def::Error => err,
    }
}

/// The interned kinds and the type of expression `e`, starting from `kinds`: a tuple's
/// elements are typed in order and the tuple of their types interned; a literal and a
/// binary expression get their primitive type; a path the type of what it names; a call
/// the return type of the function type recorded for its callee (the error type where
/// that is no function type); a parenthesized expression the type of what it holds.
pub open spec fn expr_type(
    e: Expr,
    kinds: Seq<SpecTyKind>,
    rcx: ResolutionContext,
    items: Map<u64, ItemInfo>,
    locals: Seq<LocalInfo>,
) -> (Seq<SpecTyKind>, TyId)
    decreases e,
{
    match e.kind {
        ExprKind::Tuple(es) => {
            let inner = exprs_types(es@, kinds, rcx, items, locals);
            intern_kind(inner.0, SpecTyKind::Tuple(inner.1))
        },
        ExprKind::Lit(lit) => intern_kind(kinds, SpecTyKind::Prim(lit_prim(lit))),
        ExprKind::Path(path) => (kinds, path_type(path, rcx, items, locals)),
        ExprKind::Call(call) => (
            kinds,
            match kinds[ty_in(rcx.tys_by_node@, call.callee.id, rcx.error_id).index()] {
                SpecTyKind::Fn(_, ret) => ret,
                _ => rcx.error_id,
            },
        ),
        ExprKind::Parenthesized(inner) => expr_type(*inner, kinds, rcx, items, locals),
        ExprKind::Binary(bin) => intern_kind(kinds, SpecTyKind::Prim(op_prim(bin.operator))),
    }
}

/// The interned kinds and the types of expressions `es`, typed from the first to the last.
pub open spec fn exprs_types(
    es: Seq<Expr>,
    kinds: Seq<SpecTyKind>,
    rcx: ResolutionContext,
    items: Map<u64, ItemInfo>,
    locals: Seq<LocalInfo>,
) -> (Seq<SpecTyKind>, Seq<TyId>)
    decreases es,
{
    if es.len() == 0 {
        (kinds, Seq::empty())
    } else {
        let before = exprs_types(es.drop_last(), kinds, rcx, items, locals);
        let last = expr_type(es.last(), before.0, rcx, items, locals);
        (last.0, before.1.push(last.1))
    }
}

/// How many kinds typing `e` may intern.
pub open spec fn intern_count(e: Expr) -> nat
    decreases e,
{
    match e.kind {
        ExprKind::Tuple(es) => 1 + exprs_intern_count(es@),
        ExprKind::Lit(_) | ExprKind::Binary(_) => 1,
        ExprKind::Parenthesized(inner) => intern_count(*inner),
        _ => 0,
    }
}

/// How many kinds typing `es` may intern.
pub open spec fn exprs_intern_count(es: Seq<Expr>) -> nat
    decreases es,
{
    if es.len() == 0 {
        0
    } else {
        exprs_intern_count(es.drop_last()) + intern_count(es.last())
    }
}

/// Whether every path that typing `e` reads names a registered item or a known local.
pub open spec fn refs_known(e: Expr, rcx: ResolutionContext, items: Map<u64, ItemInfo>, locals: Seq<LocalInfo>) -> bool
    decreases e,
{
    match e.kind {
        ExprKind::Tuple(es) => exprs_refs_known(es@, rcx, items, locals),
        ExprKind::Path(path) => match path_def(path, rcx) {
            Def::Def(id) => items.contains_key(id.0),
            Def::Local(l) => l.0 < locals.len(),
            Def::Error => true,
        },
        ExprKind::Parenthesized(inner) => refs_known(*inner, rcx, items, locals),
        _ => true,
    }
}

/// Whether [refs_known] holds of each of `es`.
pub open spec fn exprs_refs_known(es: Seq<Expr>, rcx: ResolutionContext, items: Map<u64, ItemInfo>, locals: Seq<LocalInfo>) -> bool
    decreases es,
{
    if es.len() == 0 {
        true
    } else {
        exprs_refs_known(es.drop_last(), rcx, items, locals) && refs_known(es.last(), rcx, items, locals)
    }
}

/// The kind that typing `e` from `kinds` gives it: the kind held at its id afterwards.
pub open spec fn expr_type_kind(
    e: Expr,
    kinds: Seq<SpecTyKind>,
    rcx: ResolutionContext,
    items: Map<u64, ItemInfo>,
    locals: Seq<LocalInfo>,
) -> SpecTyKind {
    let (ks, id) = expr_type(e, kinds, rcx, items, locals);
    ks[id.index()]
}

/// Literals and binary expressions have primitive types, whatever was interned before: a
/// boolean literal has type `bool`, an integer literal `int`, and every string literal,
/// plain or interpolated, `str`; an arithmetic expression (`+`, `-`, `*`, `/`, `%`) has type
/// `int`, and only a comparison (`<`, `<=`, `>`, `>=`, `==`, `!=`) has type `bool`. The id
/// handed out is that of an interned kind.
pub proof fn law_literal_and_operator_types(
    e: Expr,
    kinds: Seq<SpecTyKind>,
    rcx: ResolutionContext,
    items: Map<u64, ItemInfo>,
    locals: Seq<LocalInfo>,
)
    requires
        kinds.len() <= usize::MAX,
    ensures
        ({
            let (ks, id) = expr_type(e, kinds, rcx, items, locals);
            let k = expr_type_kind(e, kinds, rcx, items, locals);
            &&& (e.kind is Lit || e.kind is Binary) ==> 0 <= id.index() < ks.len()
            &&& e.kind matches ExprKind::Lit(lit) ==> (
                (lit is Bool ==> k == SpecTyKind::Prim(PrimTy::Bool))
                && (lit is Integer ==> k == SpecTyKind::Prim(PrimTy::Int))
                && (lit is Str || lit is InterpolatedStr ==> k == SpecTyKind::Prim(PrimTy::Str)))
            &&& e.kind matches ExprKind::Binary(bin) ==> (
                (bin.operator is Add || bin.operator is Minus || bin.operator is Mul || bin.operator is Div
                    || bin.operator is Modulus ==> k == SpecTyKind::Prim(PrimTy::Int))
                && (bin.operator is Lt || bin.operator is LtOrEqual || bin.operator is Gt
                    || bin.operator is GtOrEqual || bin.operator is EqualsEquals || bin.operator is NotEquals
                    ==> k == SpecTyKind::Prim(PrimTy::Bool)))
        }),
{
    let prim = match e.kind {
        ExprKind::Lit(lit) => lit_prim(lit),
        ExprKind::Binary(bin) => op_prim(bin.operator),
        _ => PrimTy::Bool,
    };
    let k = SpecTyKind::Prim(prim);
    law_lookup_after_intern(kinds, k);
    let i = intern_spec(kinds, k).1;
    TyId::lemma_with_index(TyId::with_index(i), i);
}

/// The counts and checks of the first `n` expressions are those of a prefix.
pub proof fn lemma_exprs_take(es: Seq<Expr>, n: int, rcx: ResolutionContext, items: Map<u64, ItemInfo>, locals: Seq<LocalInfo>)
    requires
        0 <= n <= es.len(),
    ensures
        exprs_intern_count(es.take(n)) <= exprs_intern_count(es),
        exprs_refs_known(es, rcx, items, locals) ==> exprs_refs_known(es.take(n), rcx, items, locals),
    decreases es.len(),
{
    if n < es.len() {
        assert(es.take(n) =~= es.drop_last().take(n));
        lemma_exprs_take(es.drop_last(), n, rcx, items, locals);
    } else {
        assert(es.take(n) =~= es);
    }
}

/// A `let` statement without a written type whose expression's type could not be
/// resolved ("unable to infer type"): the statement, the part up to the end of the
/// pattern, and the expression.
#[derive(Clone, Copy, Debug, PartialEq, Eq, Structural)]
pub struct UnableToInfer {
    pub file_id: usize,
    pub stmt_span: Span,
    pub label_span: Span,
    pub init_span: Span,
}

/// The type resolution of a file, as far as `let` statements go: the resolutions it
/// fills, the interned types it reads, and what it reports.
pub struct TypeResolutionPhase {
    pub rcx: ResolutionContext,
    pub interner: TypeInterner,
    pub file_id: usize,
    pub diagnostics: Vec<UnableToInfer>,
}

impl TypeResolutionPhase {
    /// No kind is interned twice, every interned kind refers only to kinds interned
    /// before it, and the error type and every type recorded for a node are interned.
    pub open spec fn inv(&self) -> bool {
        &&& self.interner.wf()
        &&& self.interner.well_founded()
        &&& 0 <= self.rcx.error_id.index() < self.interner@.len()
        &&& types_below(self.rcx.tys_by_node@, self.interner@.len() as int)
    }

    /// Resolves the type of the `let` statement `stmt_id` at `stmt_span`: its written
    /// type if it has one, and otherwise the type of its expression, reported where that
    /// is the error type ("unable to infer type"). Then gives the pattern its types
    /// ([Self::tr_walk_pat_expr_pair]), the statement's own type recorded first.
    pub fn visit_let_stmt(&mut self, stmt_id: NodeId, stmt_span: Span, let_stmt: &LetStmt)
        requires
            old(self).inv(),
        ensures
            final(self).inv(),
            ({
                let old_tys = old(self).rcx.tys_by_node@;
                let err = old(self).rcx.error_id;
                let declared = match let_stmt.ty {
                    Some(t) => ty_in(old_tys, t.id, err),
                    None => ty_in(old_tys, let_stmt.init.id, err),
                };
                let with_stmt = old_tys.insert(stmt_id.0, declared);
                let init_ty = ty_in(with_stmt, let_stmt.init.id, err);
                final(self).rcx.tys_by_node@ == insert_types(
                    with_stmt,
                    pattern_part_types(let_stmt.pat, init_ty, old(self).interner@),
                ).insert(let_stmt.pat.id.0, init_ty)
            }),
            let_stmt.ty is None && old(self).rcx.ty_id_of_spec(let_stmt.init.id) == old(self).rcx.error_id
                ==> final(self).diagnostics@ == old(self).diagnostics@.push(
                (UnableToInfer {
                    file_id: old(self).file_id,
                    stmt_span,
                    label_span: Span { start: stmt_span.start, end: let_stmt.pat.span.end },
                    init_span: let_stmt.init.span,
                }),
            ),
            !(let_stmt.ty is None && old(self).rcx.ty_id_of_spec(let_stmt.init.id) == old(self).rcx.error_id)
                ==> final(self).diagnostics == old(self).diagnostics,
            final(self).interner == old(self).interner,
            final(self).file_id == old(self).file_id,
            final(self).rcx.error_id == old(self).rcx.error_id,
            final(self).rcx.name_resolutions == old(self).rcx.name_resolutions,
            final(self).rcx.def_ids == old(self).rcx.def_ids,
            final(self).rcx.defs_by_node == old(self).rcx.defs_by_node,
            final(self).rcx.locals_by_node == old(self).rcx.locals_by_node,
            final(self).rcx.qualified_paths == old(self).rcx.qualified_paths,
    {
        let ty = match &let_stmt.ty {
            Some(ty) => self.rcx.ty_id_of(ty.id),
            None => {
                let inferred = self.rcx.ty_id_of(let_stmt.init.id);
                if self.rcx.is_error(inferred) {
                    self.diagnostics.push(
                        UnableToInfer {
                            file_id: self.file_id,
                            stmt_span,
                            label_span: Span::from((stmt_span.start, let_stmt.pat.span.end)),
                            init_span: let_stmt.init.span,
                        },
                    );
                }
                inferred
            },
        };
        self.rcx.tys_by_node.insert(stmt_id.0, ty);
        self.tr_walk_pat_expr_pair(&let_stmt.pat, &let_stmt.init);
    }

    /// The type of expression `expr` (see [expr_type]), interning the kinds it needs;
    /// `sess` holds the items and `locals` the locals (by [crate::resolve::def::LocalId])
    /// that its paths may name. Nothing but the interner changes.
    pub fn evaluate_type_of_expr(&mut self, expr: &Expr, sess: &Session, locals: &Vec<LocalInfo>) -> (r: TyId)
        requires
            old(self).inv(),
            refs_known(*expr, old(self).rcx, sess.items(), locals@),
            old(self).interner@.len() + intern_count(*expr) < u32::MAX - 1,
        ensures
            final(self).inv(),
            (final(self).interner@, r) == expr_type(*expr, old(self).interner@, old(self).rcx, sess.items(), locals@),
            final(self).interner@.len() <= old(self).interner@.len() + intern_count(*expr),
            0 <= r.index() < final(self).interner@.len(),
            expr.kind matches ExprKind::Lit(lit) ==> final(self).interner@[r.index()] == SpecTyKind::Prim(
                if lit is Bool { PrimTy::Bool } else if lit is Integer { PrimTy::Int } else { PrimTy::Str }),
            expr.kind matches ExprKind::Binary(bin) ==> final(self).interner@[r.index()] == SpecTyKind::Prim(
                if bin.operator is Add || bin.operator is Minus || bin.operator is Mul || bin.operator is Div
                    || bin.operator is Modulus { PrimTy::Int } else { PrimTy::Bool }),
            old(self).interner@.len() <= final(self).interner@.len(),
            final(self).rcx == old(self).rcx,
            final(self).file_id == old(self).file_id,
            final(self).diagnostics == old(self).diagnostics,
        decreases expr,
    {
        proof {
            law_literal_and_operator_types(*expr, old(self).interner@, old(self).rcx, sess.items(), locals@);
        }
        let kind = match &expr.kind {
            ExprKind::Tuple(inner) => {
                let ghost kinds0 = self.interner@;
                let mut ids: Vec<TyId> = Vec::new();
                let mut i: usize = 0;
                proof {
                    assert(inner@.take(0) =~= Seq::<Expr>::empty());
                }
                while i < inner.len()
                    invariant
                        0 <= i <= inner@.len(),
                        self.inv(),
                        self.rcx == old(self).rcx,
                        self.file_id == old(self).file_id,
                        self.diagnostics == old(self).diagnostics,
                        kinds0 == old(self).interner@,
                        exprs_refs_known(inner@, old(self).rcx, sess.items(), locals@),
                        expr.kind == ExprKind::Tuple(*inner),
                        old(self).interner@.len() + intern_count(*expr) < u32::MAX - 1,
                        (self.interner@, ids@) == exprs_types(inner@.take(i as int), kinds0, old(self).rcx, sess.items(), locals@),
                        self.interner@.len() <= kinds0.len() + exprs_intern_count(inner@.take(i as int)),
                        kinds0.len() <= self.interner@.len(),
                        forall|j: int| 0 <= j < ids@.len() ==> 0 <= (#[trigger] ids@[j]).index() < self.interner@.len(),
                    decreases inner@.len() - i,
                {
                    proof {
                        assert(inner@.take(i + 1).drop_last() =~= inner@.take(i as int));
                        assert(inner@.take(i + 1).last() == inner@[i as int]);
                        lemma_exprs_take(inner@, i + 1, old(self).rcx, sess.items(), locals@);
                        assert(decreases_to!(*expr => expr.kind));
                        assert(decreases_to!(expr.kind => *inner));
                        assert(decreases_to!(*inner => inner@));
                        assert(decreases_to!(inner@ => inner@[i as int]));
                    }
                    let id = self.evaluate_type_of_expr(&inner[i], sess, locals);
                    ids.push(id);
                    i = i + 1;
                }
                proof {
                    assert(inner@.take(i as int) =~= inner@);
                }
                TyKind::Tuple(ids)
            },
            ExprKind::Lit(lit) => TyKind::Prim(
                match lit {
                    Literal::Bool => PrimTy::Bool,
                    Literal::Integer => PrimTy::Int,
                    Literal::Str | Literal::InterpolatedStr => PrimTy::Str,
                },
            ),
            ExprKind::Path(path) => {
                return match self.rcx.get_name_res(path.id) {
                    Def::Def(id) => {
                        let item = sess.item(id);
                        match item.kind {
                            ItemKind::Fn { .. } | ItemKind::ExternFn { .. } => match self.rcx.tys_by_node.get(&item.id.0) {
                                Some(t) => *t,
                                None => self.rcx.error_id,
                            },
                            _ => self.rcx.error_id,
                        }
                    },
                    Def::Local(id) => self.rcx.ty_id_of(locals[id.0].id),
                    Def::Error => self.rcx.error_id,
                };
            },
            ExprKind::Call(call) => {
                let callee_ty = self.rcx.ty_of(call.callee.id, &self.interner);
                return match callee_ty {
                    TyKind::Fn(_, ret) => {
                        proof {
                            let c = self.rcx.ty_id_of_spec(call.callee.id).index();
                            let ch = children(self.interner@[c]);
                            assert(ch[ch.len() - 1] == *ret);
                        }
                        *ret
                    },
                    _ => self.rcx.error_id,
                };
            },
            ExprKind::Parenthesized(inner) => {
                return self.evaluate_type_of_expr(inner, sess, locals);
            },
            ExprKind::Binary(bin) => TyKind::Prim(
                match bin.operator {
                    Operator::Add | Operator::Div | Operator::Minus | Operator::Modulus | Operator::Mul => PrimTy::Int,
                    _ => PrimTy::Bool,
                },
            ),
        };
        let ghost before = self.interner@;
        let r = self.interner.intern(kind);
        proof {
            TyId::lemma_with_index(r, r.index());
            assert(types_below(self.rcx.tys_by_node@, self.interner@.len() as int));
        }
        r
    }

    /// Gives pattern `pat` the type of expression `expr`, and each part of a tuple pattern
    /// the type it gets from that type ([pattern_part_types]).
    pub fn tr_walk_pat_expr_pair(&mut self, pat: &Pat, expr: &Expr)
        requires
            old(self).inv(),
        ensures
            final(self).inv(),
            final(self).interner == old(self).interner,
            final(self).file_id == old(self).file_id,
            final(self).diagnostics == old(self).diagnostics,
            final(self).rcx.error_id == old(self).rcx.error_id,
            final(self).rcx.name_resolutions == old(self).rcx.name_resolutions,
            final(self).rcx.def_ids == old(self).rcx.def_ids,
            final(self).rcx.defs_by_node == old(self).rcx.defs_by_node,
            final(self).rcx.locals_by_node == old(self).rcx.locals_by_node,
            final(self).rcx.qualified_paths == old(self).rcx.qualified_paths,
            final(self).rcx.tys_by_node@ == insert_types(
                old(self).rcx.tys_by_node@,
                pattern_part_types(*pat, old(self).rcx.ty_id_of_spec(expr.id), old(self).interner@),
            ).insert(pat.id.0, old(self).rcx.ty_id_of_spec(expr.id)),
    {
        let expr_ty_id = self.rcx.ty_id_of(expr.id);
        let collected = part_types(&self.interner, pat, expr_ty_id);
        proof {
            let kinds = self.interner@;
            let pk = pat.kind;
            match (kinds[expr_ty_id.index()], pk) {
                (SpecTyKind::Tuple(es), PatKind::Tuple(ps)) => {
                    let q = ty_pairs(es, ps@);
                    assert forall|k: int| 0 <= k < q.len() implies 0 <= (#[trigger] q[k]).0.index() < kinds.len() by {
                        assert(children(kinds[expr_ty_id.index()])[k] == q[k].0);
                    }
                    lemma_pattern_types_below(q, kinds);
                },
                _ => {},
            }
            lemma_insert_types_below(self.rcx.tys_by_node@, collected@, kinds.len() as int);
        }
        let ghost m0 = self.rcx.tys_by_node@;
        let mut k: usize = 0;
        while k < collected.len()
            invariant
                0 <= k <= collected@.len(),
                self.rcx.tys_by_node@ == insert_types(m0, collected@.take(k as int)),
                self.interner == old(self).interner,
                self.file_id == old(self).file_id,
                self.diagnostics == old(self).diagnostics,
                self.rcx.error_id == old(self).rcx.error_id,
                self.rcx.name_resolutions == old(self).rcx.name_resolutions,
                self.rcx.def_ids == old(self).rcx.def_ids,
                self.rcx.defs_by_node == old(self).rcx.defs_by_node,
                self.rcx.locals_by_node == old(self).rcx.locals_by_node,
                self.rcx.qualified_paths == old(self).rcx.qualified_paths,
            decreases collected@.len() - k,
        {
            let (id, ty) = collected[k];
            self.rcx.tys_by_node.insert(id.0, ty);
            k = k + 1;
            assert(collected@.take(k as int).drop_last() =~= collected@.take(k - 1));
        }
        assert(collected@.take(k as int) =~= collected@);
        self.rcx.tys_by_node.insert(pat.id.0, expr_ty_id);
        assert(types_below(self.rcx.tys_by_node@, self.interner@.len() as int));
    }
}

/// The types of the parts of `pat` from type `expr_ty_id` ([pattern_part_types]).
fn part_types(interner: &TypeInterner, pat: &Pat, expr_ty_id: TyId) -> (r: Vec<(NodeId, TyId)>)
    requires
        interner.well_founded(),
        0 <= expr_ty_id.index() < interner@.len(),
    ensures
        r@ == pattern_part_types(*pat, expr_ty_id, interner@),
{
    let ghost kinds = interner@;
    let mut collected: Vec<(NodeId, TyId)> = Vec::new();
    match (interner.get(expr_ty_id), &pat.kind) {
        (TyKind::Tuple(elements), PatKind::Tuple(pats)) => {
            let mut queue: VecDeque<(TyId, Option<&Pat>)> = VecDeque::new();
            let mut i: usize = 0;
            while i < elements.len()
                invariant
                    0 <= i <= elements@.len(),
                    queue@ == ty_pairs(elements@, pats@).take(i as int),
                decreases elements@.len() - i,
            {
                let p = if i < pats.len() {
                    Some(&pats[i])
                } else {
                    None
                };
                queue.push_back((elements[i], p));
                i = i + 1;
                assert(queue@ =~= ty_pairs(elements@, pats@).take(i as int));
            }
            let ghost initial = queue@;
            assert(initial =~= ty_pairs(elements@, pats@));
            proof {
                assert forall|k: int| 0 <= k < initial.len() implies 0 <= (#[trigger] initial[k]).0.index() < kinds.len() by {
                    assert(children(kinds[expr_ty_id.index()])[k] == initial[k].0);
                }
            }
            loop
                invariant_except_break
                    interner@ == kinds,
                    interner.well_founded(),
                    forall|k: int| 0 <= k < queue@.len() ==> 0 <= (#[trigger] queue@[k]).0.index() < kinds.len(),
                    collected@ + pattern_types(queue@, kinds) == pattern_types(initial, kinds),
                ensures
                    collected@ == pattern_types(initial, kinds),
                decreases ty_queue_size(queue@), queue@.len(),
            {
                let ghost q = queue@;
                proof {
                    if q.len() > 0 {
                        lemma_ty_queue_first(q);
                    }
                }
                match queue.pop_front() {
                    None => {
                        assert(collected@ + pattern_types(q, kinds) =~= collected@);
                        break;
                    },
                    Some((ty_id, maybe_pat)) => {
                        assert(q[0] == (ty_id, maybe_pat));
                        if let Some(p) = maybe_pat {
                            let ghost before = collected@;
                            collected.push((p.id, ty_id));
                            let ghost rest = queue@;
                            assert(rest =~= q.drop_first());
                            match (interner.get(ty_id), &p.kind) {
                                (TyKind::Tuple(nested_tys), PatKind::Tuple(nested_pats)) => {
                                    let mut j: usize = 0;
                                    while j < nested_tys.len()
                                        invariant
                                            0 <= j <= nested_tys@.len(),
                                            queue@ == rest + ty_pairs(nested_tys@, nested_pats@).take(j as int),
                                        decreases nested_tys@.len() - j,
                                    {
                                        let np = if j < nested_pats.len() {
                                            Some(&nested_pats[j])
                                        } else {
                                            None
                                        };
                                        queue.push_back((nested_tys[j], np));
                                        j = j + 1;
                                        assert(queue@ =~= rest + ty_pairs(nested_tys@, nested_pats@).take(j as int));
                                    }
                                    assert(ty_pairs(nested_tys@, nested_pats@).take(j as int) =~= ty_pairs(nested_tys@, nested_pats@));
                                    proof {
                                        lemma_ty_queue_add(rest, ty_pairs(nested_tys@, nested_pats@));
                                        lemma_ty_pairs_size(nested_tys@, nested_pats@);
                                        assert forall|k: int| 0 <= k < queue@.len() implies 0 <= (#[trigger] queue@[k]).0.index() < kinds.len() by {
                                            if k >= rest.len() {
                                                assert(children(kinds[ty_id.index()])[k - rest.len()] == queue@[k].0);
                                            } else {
                                                assert(queue@[k] == q[k + 1]);
                                            }
                                        }
                                        assert(before + pattern_types(q, kinds) =~= collected@ + pattern_types(queue@, kinds));
                                    }
                                },
                                _ => {
                                    proof {
                                        assert forall|k: int| 0 <= k < queue@.len() implies 0 <= (#[trigger] queue@[k]).0.index() < kinds.len() by {
                                            assert(queue@[k] == q[k + 1]);
                                        }
                                        assert(before + pattern_types(q, kinds) =~= collected@ + pattern_types(queue@, kinds));
                                    }
                                },
                            }
                        } else {
                            proof {
                                assert(queue@ =~= q.drop_first());
                                assert forall|k: int| 0 <= k < queue@.len() implies 0 <= (#[trigger] queue@[k]).0.index() < kinds.len() by {
                                    assert(queue@[k] == q[k + 1]);
                                }
                            }
                        }
                    },
                }
            }
        },
        _ => {},
    }
    collected
}

} // verus!
