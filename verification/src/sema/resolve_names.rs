use vstd::prelude::*;

use crate::hir::{Expression, Item, Package, Statement};
use crate::sema::build_scope::{build_package, lemma_build_items_shape, lemma_fn_scope, lemma_top_binds_all};
use crate::sema::scope::{ScopeCtx, ScopeId, SpecScopeCtx};
use crate::symbol::Symbol;

verus! {

/// The identifiers of `e` that resolve to nothing from scope `scope`, in the order in
/// which they occur: the callee of a call before its arguments.
pub open spec fn unresolved_expr(v: SpecScopeCtx, scope: int, e: Expression) -> Seq<Symbol>
    decreases e,
{
    match e {
        Expression::Call { callee, args } => unresolved_expr(v, scope, *callee) + unresolved_exprs(v, scope, args@),
        Expression::Lit => Seq::empty(),
        Expression::Ident(sym) => if v.resolves(scope, sym.key()) is None {
            seq![sym]
        } else {
            Seq::empty()
        },
    }
}

/// The unresolved identifiers of `es`, in order.
pub open spec fn unresolved_exprs(v: SpecScopeCtx, scope: int, es: Seq<Expression>) -> Seq<Symbol>
    decreases es,
{
    if es.len() == 0 {
        Seq::empty()
    } else {
        unresolved_exprs(v, scope, es.drop_last()) + unresolved_expr(v, scope, es.last())
    }
}

/// The unresolved identifiers of the statements `ss`, in order.
pub open spec fn unresolved_stmts(v: SpecScopeCtx, scope: int, ss: Seq<Statement>) -> Seq<Symbol>
    decreases ss.len(),
{
    if ss.len() == 0 {
        Seq::empty()
    } else {
        let rest = unresolved_stmts(v, scope, ss.drop_last());
        match ss.last() {
            Statement::Expr(e) => rest + unresolved_expr(v, scope, e),
        }
    }
}

/// The unresolved identifiers in the bodies of the functions among `items`, each body
/// checked from the scope attached to its function, in order.
pub open spec fn unresolved_items(v: SpecScopeCtx, items: Seq<Item>) -> Seq<Symbol>
    decreases items.len(),
{
    if items.len() == 0 {
        Seq::empty()
    } else {
        let rest = unresolved_items(v, items.drop_last());
        match items.last() {
            Item::Fn(f) => rest + unresolved_stmts(v, v.attached[f.hir_id.0], f.block.stmts@),
            Item::ExternFn(_) => rest,
        }
    }
}

/// Every function among `items` has a scope attached to its node, in range.
pub open spec fn bodies_have_scopes(v: SpecScopeCtx, items: Seq<Item>) -> bool {
    forall|k: int| 0 <= k < items.len() ==> ((#[trigger] items[k]) matches Item::Fn(f) ==> v.attached.contains_key(f.hir_id.0)
        && 0 <= v.attached[f.hir_id.0] < v.scopes.len())
}

/// Every identifier reported for `e` resolves to nothing from `scope`.
pub proof fn lemma_unresolved_expr_unbound(v: SpecScopeCtx, scope: int, e: Expression)
    ensures
        forall|k: int| 0 <= k < unresolved_expr(v, scope, e).len() ==> v.resolves(scope, (#[trigger] unresolved_expr(v, scope, e)[k]).key()) is None,
    decreases e,
{
    match e {
        Expression::Call { callee, args } => {
            lemma_unresolved_expr_unbound(v, scope, *callee);
            lemma_unresolved_exprs_unbound(v, scope, args@);
            let a = unresolved_expr(v, scope, *callee);
            let b = unresolved_exprs(v, scope, args@);
            assert forall|k: int| 0 <= k < (a + b).len() implies v.resolves(scope, (#[trigger] (a + b)[k]).key()) is None by {
                if k >= a.len() {
                    assert((a + b)[k] == b[k - a.len()]);
                }
            }
        },
        _ => {},
    }
}

/// Every identifier reported for `es` resolves to nothing from `scope`.
pub proof fn lemma_unresolved_exprs_unbound(v: SpecScopeCtx, scope: int, es: Seq<Expression>)
    ensures
        forall|k: int| 0 <= k < unresolved_exprs(v, scope, es).len() ==> v.resolves(scope, (#[trigger] unresolved_exprs(v, scope, es)[k]).key()) is None,
    decreases es,
{
    if es.len() > 0 {
        lemma_unresolved_exprs_unbound(v, scope, es.drop_last());
        lemma_unresolved_expr_unbound(v, scope, es.last());
        let a = unresolved_exprs(v, scope, es.drop_last());
        let b = unresolved_expr(v, scope, es.last());
        assert forall|k: int| 0 <= k < (a + b).len() implies v.resolves(scope, (#[trigger] (a + b)[k]).key()) is None by {
            if k >= a.len() {
                assert((a + b)[k] == b[k - a.len()]);
            }
        }
    }
}

/// Every identifier reported for `ss` resolves to nothing from `scope`.
pub proof fn lemma_unresolved_stmts_unbound(v: SpecScopeCtx, scope: int, ss: Seq<Statement>)
    ensures
        forall|k: int| 0 <= k < unresolved_stmts(v, scope, ss).len() ==> v.resolves(scope, (#[trigger] unresolved_stmts(v, scope, ss)[k]).key()) is None,
    decreases ss.len(),
{
    if ss.len() > 0 {
        lemma_unresolved_stmts_unbound(v, scope, ss.drop_last());
        match ss.last() {
            Statement::Expr(e) => {
                lemma_unresolved_expr_unbound(v, scope, e);
                let a = unresolved_stmts(v, scope, ss.drop_last());
                let b = unresolved_expr(v, scope, e);
                assert forall|k: int| 0 <= k < (a + b).len() implies v.resolves(scope, (#[trigger] (a + b)[k]).key()) is None by {
                    if k >= a.len() {
                        assert((a + b)[k] == b[k - a.len()]);
                    }
                }
            },
        }
    }
}

/// Whether `item` is a function from whose scope `sym` resolves to nothing.
pub open spec fn misses_in_fn_scope(v: SpecScopeCtx, item: Item, sym: usize) -> bool {
    match item {
        Item::Fn(f) => v.resolves(v.attached[f.hir_id.0], sym) is None,
        Item::ExternFn(_) => false,
    }
}

/// Every identifier reported for `items` resolves to nothing from the scope of some
/// function among them.
pub proof fn lemma_unresolved_items_unbound(v: SpecScopeCtx, items: Seq<Item>)
    ensures
        forall|k: int| 0 <= k < unresolved_items(v, items).len() ==> exists|m: int| 0 <= m < items.len()
            && misses_in_fn_scope(v, #[trigger] items[m], (#[trigger] unresolved_items(v, items)[k]).key()),
    decreases items.len(),
{
    if items.len() > 0 {
        let rest = items.drop_last();
        lemma_unresolved_items_unbound(v, rest);
        let a = unresolved_items(v, rest);
        let last = items.len() - 1;
        assert forall|k: int| 0 <= k < a.len() implies exists|m: int| 0 <= m < items.len()
            && misses_in_fn_scope(v, #[trigger] items[m], (#[trigger] a[k]).key()) by {
            let m = choose|m: int| 0 <= m < rest.len() && misses_in_fn_scope(v, #[trigger] rest[m], a[k].key());
            assert(items[m] == rest[m]);
        }
        match items[last] {
            Item::Fn(f) => {
                let b = unresolved_stmts(v, v.attached[f.hir_id.0], f.block.stmts@);
                lemma_unresolved_stmts_unbound(v, v.attached[f.hir_id.0], f.block.stmts@);
                assert forall|k: int| 0 <= k < (a + b).len() implies exists|m: int| 0 <= m < items.len()
                    && misses_in_fn_scope(v, #[trigger] items[m], (#[trigger] (a + b)[k]).key()) by {
                    if k >= a.len() {
                        assert((a + b)[k] == b[k - a.len()]);
                        assert(misses_in_fn_scope(v, items[last], (a + b)[k].key()));
                    } else {
                        assert((a + b)[k] == a[k]);
                    }
                }
            },
            Item::ExternFn(_) => {},
        }
    }
}

/// Once the scopes of a package are built, its function bodies can all be checked, and no
/// identifier that names an item of the package is ever reported as unresolved.
pub proof fn law_item_names_resolve_in_bodies(v: SpecScopeCtx, pid: usize, items: Seq<Item>, j: int)
    requires
        v.wf(),
        0 <= j < items.len(),
    ensures
        bodies_have_scopes(build_package(v, pid, items), items),
        !unresolved_items(build_package(v, pid, items), items).contains(items[j].name_spec()),
{
    let top = v.scopes.len() as int;
    let entered = SpecScopeCtx { top_levels: v.top_levels.insert(pid, top), ..v.push_scope(None) };
    let after = build_package(v, pid, items);
    assert(entered.wf()) by {
        assert forall|i: int| 0 <= i < entered.scopes.len() implies ((#[trigger] entered.scopes[i]).parent matches Some(p) ==> 0 <= p < i) by {
            if i < v.scopes.len() {
                assert(entered.scopes[i] == v.scopes[i]);
            }
        }
    }
    assert forall|k: int| 0 <= k < items.len() implies ((#[trigger] items[k]) matches Item::Fn(f) ==> after.attached.contains_key(f.hir_id.0)
        && 0 <= after.attached[f.hir_id.0] < after.scopes.len()) by {
        if items[k] is Fn {
            lemma_fn_scope(entered, top, items, k);
        }
    }
    let name = items[j].name_spec();
    lemma_top_binds_all(entered, top, items, j);
    lemma_unresolved_items_unbound(after, items);
    let u = unresolved_items(after, items);
    if u.contains(name) {
        let k = choose|k: int| 0 <= k < u.len() && u[k] == name;
        let m = choose|m: int| 0 <= m < items.len() && misses_in_fn_scope(after, #[trigger] items[m], u[k].key());
        lemma_fn_scope(entered, top, items, m);
        let s = after.attached[items[m]->Fn_0.hir_id.0];
        assert(!after.scopes[s].defs.contains_key(name.key()));
        assert(after.resolves(s, name.key()) == after.resolves(top, name.key()));
        lemma_build_items_shape(entered, top, items);
        assert(after.resolves(top, name.key()) is Some);
    }
}

/// The pass that checks that every identifier in the function bodies of a package
/// refers to something.
pub struct ResolveNamesPass<'a> {
    pub scope_ctx: &'a ScopeCtx,
}

impl<'a> ResolveNamesPass<'a> {
    /// A pass that checks against `scope_ctx`.
    pub fn new(scope_ctx: &'a ScopeCtx) -> (r: Self)
        ensures
            *r.scope_ctx == *scope_ctx,
    {
        ResolveNamesPass { scope_ctx }
    }

    /// The identifiers in the function bodies of `package` that refer to nothing from
    /// the scope of their function, in order.
    pub fn run(&self, package: &Package) -> (r: Vec<Symbol>)
        requires
            self.scope_ctx.wf(),
            bodies_have_scopes(self.scope_ctx@, package.items@),
        ensures
            r@ == unresolved_items(self.scope_ctx@, package.items@),
    {
        let mut out: Vec<Symbol> = Vec::new();
        let mut i: usize = 0;
        assert(package.items@.take(0) =~= Seq::<Item>::empty());
        while i < package.items.len()
            invariant
                self.scope_ctx.wf(),
                bodies_have_scopes(self.scope_ctx@, package.items@),
                0 <= i <= package.items@.len(),
                out@ == unresolved_items(self.scope_ctx@, package.items@.take(i as int)),
            decreases package.items@.len() - i,
        {
            proof {
                assert(package.items@.take(i + 1).drop_last() =~= package.items@.take(i as int));
                assert(package.items@.take(i + 1).last() == package.items@[i as int]);
            }
            match &package.items[i] {
                Item::Fn(function) => {
                    let scope = self.scope_ctx.hir_scope_id(function.hir_id);
                    match scope {
                        Some(scope) => self.check_statements(scope, &function.block.stmts, &mut out),
                        None => {},
                    }
                },
                Item::ExternFn(_) => {},
            }
            i = i + 1;
        }
        assert(package.items@.take(i as int) =~= package.items@);
        out
    }

    fn check_statements(&self, scope: ScopeId, statements: &Vec<Statement>, out: &mut Vec<Symbol>)
        requires
            self.scope_ctx.wf(),
            0 <= scope.index() < self.scope_ctx@.scopes.len(),
        ensures
            final(out)@ == old(out)@ + unresolved_stmts(self.scope_ctx@, scope.index(), statements@),
    {
        let mut i: usize = 0;
        assert(statements@.take(0) =~= Seq::<Statement>::empty());
        assert(old(out)@ + Seq::<Symbol>::empty() =~= old(out)@);
        while i < statements.len()
            invariant
                self.scope_ctx.wf(),
                0 <= scope.index() < self.scope_ctx@.scopes.len(),
                0 <= i <= statements@.len(),
                out@ == old(out)@ + unresolved_stmts(self.scope_ctx@, scope.index(), statements@.take(i as int)),
            decreases statements@.len() - i,
        {
            proof {
                assert(statements@.take(i + 1).drop_last() =~= statements@.take(i as int));
                assert(statements@.take(i + 1).last() == statements@[i as int]);
            }
            match &statements[i] {
                Statement::Expr(expr) => self.check_expr(scope, expr, out),
            }
            i = i + 1;
            assert(out@ =~= old(out)@ + unresolved_stmts(self.scope_ctx@, scope.index(), statements@.take(i as int)));
        }
        assert(statements@.take(i as int) =~= statements@);
    }

    fn check_expr(&self, scope: ScopeId, expr: &Expression, out: &mut Vec<Symbol>)
        requires
            self.scope_ctx.wf(),
            0 <= scope.index() < self.scope_ctx@.scopes.len(),
        ensures
            final(out)@ == old(out)@ + unresolved_expr(self.scope_ctx@, scope.index(), *expr),
        decreases *expr,
    {
        match expr {
            Expression::Call { callee, args } => {
                proof {
                    assert(decreases_to!(*expr => *expr->callee));
                }
                self.check_expr(scope, callee, out);
                let ghost mid = out@;
                let mut i: usize = 0;
                assert(args@.take(0) =~= Seq::<Expression>::empty());
                assert(mid + Seq::<Symbol>::empty() =~= mid);
                while i < args.len()
                    invariant
                        self.scope_ctx.wf(),
                        0 <= scope.index() < self.scope_ctx@.scopes.len(),
                        0 <= i <= args@.len(),
                        *expr matches Expression::Call { args: a, .. } && a@ == args@,
                        out@ == mid + unresolved_exprs(self.scope_ctx@, scope.index(), args@.take(i as int)),
                    decreases args@.len() - i,
                {
                    proof {
                        assert(args@.take(i + 1).drop_last() =~= args@.take(i as int));
                        assert(args@.take(i + 1).last() == args@[i as int]);
                        assert(decreases_to!(*expr => expr->args));
                        assert(decreases_to!(expr->args => expr->args@));
                        assert(decreases_to!(args@ => args@[i as int]));
                    }
                    self.check_expr(scope, &args[i], out);
                    i = i + 1;
                    assert(out@ =~= mid + unresolved_exprs(self.scope_ctx@, scope.index(), args@.take(i as int)));
                }
                assert(args@.take(i as int) =~= args@);
                assert(out@ =~= old(out)@ + unresolved_expr(self.scope_ctx@, scope.index(), *expr));
            },
            Expression::Lit => {
                assert(out@ =~= old(out)@ + unresolved_expr(self.scope_ctx@, scope.index(), *expr));
            },
            Expression::Ident(ident) => {
                self.check_identifier(scope, *ident, out);
            },
        }
    }

    fn check_identifier(&self, scope: ScopeId, ident: Symbol, out: &mut Vec<Symbol>)
        requires
            self.scope_ctx.wf(),
            0 <= scope.index() < self.scope_ctx@.scopes.len(),
        ensures
            final(out)@ == old(out)@ + unresolved_expr(self.scope_ctx@, scope.index(), Expression::Ident(ident)),
    {
        if self.scope_ctx.lookup(scope, ident).is_none() {
            out.push(ident);
        }
        assert(out@ =~= old(out)@ + unresolved_expr(self.scope_ctx@, scope.index(), Expression::Ident(ident)));
    }
}

} // verus!
