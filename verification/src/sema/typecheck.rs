//! The checks of the type checker that decide on resolved types: how the arguments of a
//! call fit the parameters of the function called, what a `let` statement binds, what is
//! assigned and returned, and the conditions of `if` and `while`.
use vstd::prelude::*;
use vstd::string::StringExecFns;

use std::collections::VecDeque;

use crate::ast::{Expr, ExprKind, LetStmt, Pat, PatKind};
use crate::hir::NodeId;
use crate::resolve::ty::{res_kind_text, same_ty_kind, PrimTy, Ty, TyKind};
use crate::session::local::LocalInfo;
use crate::span::Span;

verus! {

/// The positions (from 0) below `n` at which the argument's type is not the parameter's.
pub open spec fn incorrect_positions(params: Seq<Ty>, args: Seq<Ty>, n: int) -> Seq<usize>
    decreases n,
{
    if n <= 0 {
        Seq::empty()
    } else {
        let rest = incorrect_positions(params, args, n - 1);
        if !same_ty_kind(params[n - 1].kind, args[n - 1].kind) {
            rest.push((n - 1) as usize)
        } else {
            rest
        }
    }
}

/// The positions from `from` up to (not including) `to`.
pub open spec fn positions(from: int, to: int) -> Seq<usize> {
    Seq::new(if to > from { (to - from) as nat } else { 0 }, |k: int| (from + k) as usize)
}

/// How the arguments of a call fit the parameters of the function called, by position
/// (from 0): the arguments whose type is not the parameter's, the arguments beyond the
/// parameters, and, where there are none of those, the parameters without an argument.
pub struct CallArguments {
    pub missing: Vec<usize>,
    pub unexpected: Vec<usize>,
    pub incorrect: Vec<usize>,
}

/// What the report on a call says: that the number of arguments is wrong, or that some
/// of them have the wrong type.
#[derive(Clone, Copy, Debug, PartialEq, Eq, Structural)]
pub enum CallMessage {
    ArgumentCount { params: usize, args: usize },
    IncorrectArguments,
}

impl CallArguments {
    /// The arguments whose type is not the parameter's.
    pub open spec fn incorrect_spec(params: Seq<Ty>, args: Seq<Ty>) -> Seq<usize> {
        incorrect_positions(params, args, if args.len() < params.len() { args.len() as int } else { params.len() as int })
    }

    /// The arguments beyond the parameters.
    pub open spec fn unexpected_spec(params: Seq<Ty>, args: Seq<Ty>) -> Seq<usize> {
        positions(params.len() as int, args.len() as int)
    }

    /// The parameters without an argument, where no argument is beyond the parameters.
    pub open spec fn missing_spec(params: Seq<Ty>, args: Seq<Ty>) -> Seq<usize> {
        if args.len() > params.len() {
            Seq::empty()
        } else {
            positions(args.len() as int, params.len() as int)
        }
    }

    /// Compares the types of the arguments `args` of a call with those of the parameters
    /// `params`, position by position.
    pub fn check(params: &Vec<Ty>, args: &Vec<Ty>) -> (r: Self)
        ensures
            r.incorrect@ == Self::incorrect_spec(params@, args@),
            r.unexpected@ == Self::unexpected_spec(params@, args@),
            r.missing@ == Self::missing_spec(params@, args@),
    {
        let mut incorrect: Vec<usize> = Vec::new();
        let mut unexpected: Vec<usize> = Vec::new();
        let mut i: usize = 0;
        while i < args.len()
            invariant
                0 <= i <= args@.len(),
                incorrect@ == incorrect_positions(params@, args@, if i < params@.len() { i as int } else { params@.len() as int }),
                unexpected@ == positions(params@.len() as int, i as int),
            decreases args@.len() - i,
        {
            if i < params.len() {
                if !(params[i] == args[i]) {
                    incorrect.push(i);
                }
            } else {
                unexpected.push(i);
            }
            i = i + 1;
            assert(unexpected@ =~= positions(params@.len() as int, i as int));
        }
        let mut missing: Vec<usize> = Vec::new();
        if unexpected.len() == 0 {
            let mut j: usize = 0;
            while j < params.len()
                invariant
                    0 <= j <= params@.len(),
                    args@.len() <= params@.len(),
                    missing@ == positions(args@.len() as int, if j < args@.len() { args@.len() as int } else { j as int }),
                decreases params@.len() - j,
            {
                if j >= args.len() {
                    missing.push(j);
                }
                j = j + 1;
                assert(missing@ =~= positions(args@.len() as int, if j < args@.len() { args@.len() as int } else { j as int }));
            }
        }
        proof {
            if args@.len() > params@.len() {
                assert(unexpected@.len() > 0);
                assert(missing@ =~= Seq::<usize>::empty());
            } else {
                assert(missing@ =~= positions(args@.len() as int, params@.len() as int));
            }
        }
        CallArguments { missing, unexpected, incorrect }
    }

    /// What the report on the call says, if the call needs one: the counts where an
    /// argument is missing or beyond the parameters, and otherwise that some have the
    /// wrong type; `None` where every argument fits.
    pub fn message(&self, params: usize, args: usize) -> (r: Option<CallMessage>)
        ensures
            r == if self.missing@.len() > 0 || self.unexpected@.len() > 0 {
                Some(CallMessage::ArgumentCount { params, args })
            } else if self.incorrect@.len() > 0 {
                Some(CallMessage::IncorrectArguments)
            } else {
                None
            },
    {
        if self.missing.len() > 0 || self.unexpected.len() > 0 {
            Some(CallMessage::ArgumentCount { params, args })
        } else if self.incorrect.len() > 0 {
            Some(CallMessage::IncorrectArguments)
        } else {
            None
        }
    }
}

/// The texts of the types, each between backticks, joined by `", "`.
pub open spec fn quoted_list(texts: Seq<Seq<char>>) -> Seq<char>
    decreases texts.len(),
{
    if texts.len() == 0 {
        Seq::empty()
    } else {
        let last = seq!['`'] + texts.last() + seq!['`'];
        if texts.len() == 1 {
            last
        } else {
            quoted_list(texts.drop_last()) + seq![',', ' '] + last
        }
    }
}

/// The types of the parameters at `positions` as one phrase: each between backticks,
/// all but the last joined by `", "`, and the last added with `" and "`.
pub open spec fn missing_types_text(params: Seq<Ty>, positions: Seq<usize>) -> Seq<char> {
    let texts = positions.map_values(|p: usize| res_kind_text(params[p as int].kind));
    quoted_list(texts.drop_last()) + seq![' ', 'a', 'n', 'd', ' ', '`'] + texts.last() + seq!['`']
}

/// The types of the missing parameters at `missing`, as the report names them when two
/// or more are missing: "`a`, `b` and `c`".
pub fn missing_types(params: &Vec<Ty>, missing: &Vec<usize>) -> (r: String)
    requires
        missing@.len() >= 2,
        forall|k: int| 0 <= k < missing@.len() ==> #[trigger] missing@[k] < params@.len(),
    ensures
        r@ == missing_types_text(params@, missing@),
{
    let ghost texts = missing@.map_values(|p: usize| res_kind_text(params@[p as int].kind));
    let mut out = String::new();
    let n = missing.len() - 1;
    let mut i: usize = 0;
    proof {
        reveal_strlit("`");
        reveal_strlit(", ");
        reveal_strlit(" and `");
        assert(texts.drop_last().take(0) =~= Seq::<Seq<char>>::empty());
    }
    while i < n
        invariant
            n == missing@.len() - 1,
            0 <= i <= n,
            texts == missing@.map_values(|p: usize| res_kind_text(params@[p as int].kind)),
            forall|k: int| 0 <= k < missing@.len() ==> #[trigger] missing@[k] < params@.len(),
            out@ == quoted_list(texts.drop_last().take(i as int)),
        decreases n - i,
    {
        let ghost prev = out@;
        proof {
            reveal_strlit("`");
            reveal_strlit(", ");
            assert(texts.drop_last().take(0) =~= Seq::<Seq<char>>::empty());
        }
        if i != 0 {
            out.append(", ");
        }
        out.append("`");
        let text = params[missing[i]].to_string();
        out.append(text.as_str());
        out.append("`");
        proof {
            let t = texts.drop_last().take(i + 1);
            assert(t.drop_last() =~= texts.drop_last().take(i as int));
            assert(t.last() == texts[i as int]);
            assert(texts[i as int] == text@);
            if i == 0 {
                assert(out@ =~= seq!['`'] + text@ + seq!['`']);
            } else {
                assert(out@ =~= prev + seq![',', ' '] + (seq!['`'] + text@ + seq!['`']));
            }
        }
        i = i + 1;
    }
    proof {
        assert(texts.drop_last().take(i as int) =~= texts.drop_last());
    }
    out.append(" and `");
    let last = params[missing[n]].to_string();
    out.append(last.as_str());
    out.append("`");
    proof {
        assert(texts.last() == texts[n as int]);
    }
    out
}

/// A tuple pattern whose number of elements is not that of the tuple expression it
/// matches: the pattern, the tuple expression, and the two numbers as the report gives
/// them ("expected a tuple with `existing` elements, found one with `matched`").
#[derive(Clone, Copy, Debug, PartialEq, Eq, Structural)]
pub struct TupleMismatch {
    pub pat_span: Span,
    pub tuple_span: Span,
    pub tuple_id: NodeId,
    pub matched: usize,
    pub existing: usize,
}

/// The size of an expression: one for itself, and the sizes of its elements.
pub open spec fn expr_size(e: Expr) -> nat
    decreases e,
{
    1 + match e.kind {
        ExprKind::Tuple(es) => exprs_size(es@),
        _ => 0,
    }
}

/// The sizes of `es`, added up.
pub open spec fn exprs_size(es: Seq<Expr>) -> nat
    decreases es,
{
    if es.len() == 0 {
        0
    } else {
        exprs_size(es.drop_last()) + expr_size(es.last())
    }
}

/// The sizes of the expressions of a queue, added up.
pub open spec fn queue_size<'a>(q: Seq<(&'a Expr, Option<&'a Pat>)>) -> nat
    decreases q.len(),
{
    if q.len() == 0 {
        0
    } else {
        queue_size(q.drop_last()) + expr_size(*q.last().0)
    }
}

/// The elements of a tuple expression, each with the pattern element at its place, if any.
pub open spec fn pairs<'a>(es: Seq<Expr>, ps: Seq<Pat>) -> Seq<(&'a Expr, Option<&'a Pat>)> {
    Seq::new(es.len(), |i: int| (&es[i], if i < ps.len() { Some(&ps[i]) } else { None }))
}

/// The sizes of two queues one after the other add up.
pub proof fn lemma_queue_size_add<'a>(a: Seq<(&'a Expr, Option<&'a Pat>)>, b: Seq<(&'a Expr, Option<&'a Pat>)>)
    ensures
        queue_size(a + b) == queue_size(a) + queue_size(b),
    decreases b.len(),
{
    if b.len() > 0 {
        lemma_queue_size_add(a, b.drop_last());
        assert((a + b).drop_last() =~= a + b.drop_last());
        assert((a + b).last() == b.last());
    } else {
        assert(a + b =~= a);
    }
}

/// The size of a queue is that of its first expression and of the rest.
pub proof fn lemma_queue_size_first<'a>(q: Seq<(&'a Expr, Option<&'a Pat>)>)
    requires
        q.len() > 0,
    ensures
        queue_size(q) == expr_size(*q[0].0) + queue_size(q.drop_first()),
{
    let head = seq![q[0]];
    lemma_queue_size_add(head, q.drop_first());
    assert(head + q.drop_first() =~= q);
    assert(head.drop_last() =~= Seq::<(&'a Expr, Option<&'a Pat>)>::empty());
    assert(head.last() == q[0]);
    assert(queue_size(head) == queue_size(head.drop_last()) + expr_size(*head.last().0));
}

/// The pairs of a tuple's elements are as large as the elements.
pub proof fn lemma_pairs_size(es: Seq<Expr>, ps: Seq<Pat>)
    ensures
        queue_size(pairs(es, ps)) == exprs_size(es),
    decreases es.len(),
{
    if es.len() > 0 {
        lemma_pairs_size(es.drop_last(), ps);
        assert(pairs(es, ps).drop_last() =~= pairs(es.drop_last(), ps));
    }
}

/// The tuple patterns of the pairs in `q`, and of the pairs of their elements after them,
/// whose number of elements is not that of the tuple they match: the pairs are taken
/// from the front, and a pair of a tuple expression with a tuple pattern puts the pairs
/// of their elements at the back.
pub open spec fn tuple_mismatches<'a>(q: Seq<(&'a Expr, Option<&'a Pat>)>) -> Seq<TupleMismatch>
    decreases queue_size(q),
{
    if q.len() == 0 {
        Seq::empty()
    } else {
        let e = q[0].0;
        let rest = q.drop_first();
        proof {
            lemma_queue_size_first(q);
        }
        match e.kind {
            ExprKind::Tuple(es) => match q[0].1 {
                Some(pat) => match pat.kind {
                    PatKind::Tuple(ps) => {
                        proof {
                            lemma_queue_size_add(rest, pairs(es@, ps@));
                            lemma_pairs_size(es@, ps@);
                        }
                        (if es@.len() != ps@.len() {
                            seq![TupleMismatch {
                                pat_span: pat.span,
                                tuple_span: e.span,
                                tuple_id: e.id,
                                matched: es@.len() as usize,
                                existing: ps@.len() as usize,
                            }]
                        } else {
                            Seq::empty()
                        }) + tuple_mismatches(rest + pairs(es@, ps@))
                    },
                    PatKind::Binding(_) => tuple_mismatches(rest),
                },
                None => tuple_mismatches(rest),
            },
            _ => tuple_mismatches(rest),
        }
    }
}

/// The tuple patterns of a `let` statement whose number of elements is not that of the
/// tuple expression they match: the outermost one (counted the other way round), then the
/// nested ones level by level, as [tuple_mismatches] takes them.
pub open spec fn let_tuple_mismatches(let_stmt: LetStmt) -> Seq<TupleMismatch> {
    match let_stmt.init.kind {
        ExprKind::Tuple(es) => match let_stmt.pat.kind {
            PatKind::Tuple(ps) => (if ps@.len() != es@.len() {
                seq![TupleMismatch {
                    pat_span: let_stmt.pat.span,
                    tuple_span: let_stmt.init.span,
                    tuple_id: let_stmt.init.id,
                    matched: ps@.len() as usize,
                    existing: es@.len() as usize,
                }]
            } else {
                Seq::empty()
            }) + tuple_mismatches(pairs(es@, ps@)),
            PatKind::Binding(_) => Seq::empty(),
        },
        _ => Seq::empty(),
    }
}

/// What the type checker reports on a `let` statement.
#[derive(Debug)]
pub enum LetDiagnostics {
    /// The expression's type is not the declared one ("expected type .., got type .."):
    /// the statement, the part that declares the type, and the expression.
    TypeMismatch { stmt_span: Span, declared_span: Span, init_span: Span },
    /// The tuple patterns that do not match their tuples in number of elements.
    Tuples(Vec<TupleMismatch>),
}

/// The pairs of the elements `es` with the pattern elements `ps`, as a queue.
fn pairs_queue<'a>(es: &'a Vec<Expr>, ps: &'a Vec<Pat>, queue: &mut VecDeque<(&'a Expr, Option<&'a Pat>)>)
    ensures
        final(queue)@ == old(queue)@ + pairs(es@, ps@),
{
    let mut i: usize = 0;
    while i < es.len()
        invariant
            0 <= i <= es@.len(),
            queue@ == old(queue)@ + pairs(es@, ps@).take(i as int),
        decreases es@.len() - i,
    {
        let p = if i < ps.len() {
            Some(&ps[i])
        } else {
            None
        };
        queue.push_back((&es[i], p));
        i = i + 1;
        assert(queue@ =~= old(queue)@ + pairs(es@, ps@).take(i as int));
    }
    assert(pairs(es@, ps@).take(i as int) =~= pairs(es@, ps@));
}

/// Checks a `let` statement whose declared type is `decl_ty` and whose expression has type
/// `expr_ty`: nothing where either is the error type; the mismatch where they differ;
/// and otherwise the tuple patterns that do not match their tuples in number of elements.
pub fn check_let(stmt_span: Span, let_stmt: &LetStmt, decl_ty: &Ty, expr_ty: &Ty) -> (r: LetDiagnostics)
    ensures
        decl_ty.kind is Error || expr_ty.kind is Error ==> (r matches LetDiagnostics::Tuples(v) && v@.len() == 0),
        !(decl_ty.kind is Error || expr_ty.kind is Error) && !same_ty_kind(expr_ty.kind, decl_ty.kind) ==> r == (LetDiagnostics::TypeMismatch {
            stmt_span,
            declared_span: Span {
                start: stmt_span.start,
                end: match let_stmt.ty {
                    Some(ty) => ty.span.end,
                    None => let_stmt.pat.span.end,
                },
            },
            init_span: let_stmt.init.span,
        }),
        !(decl_ty.kind is Error || expr_ty.kind is Error) && same_ty_kind(expr_ty.kind, decl_ty.kind) ==> (r matches LetDiagnostics::Tuples(v)
            && v@ == let_tuple_mismatches(*let_stmt)),
{
    if decl_ty.is_error() || expr_ty.is_error() {
        return LetDiagnostics::Tuples(Vec::new());
    }
    if !(*expr_ty == *decl_ty) {
        let end = match &let_stmt.ty {
            Some(ty) => ty.span.end,
            None => let_stmt.pat.span.end,
        };
        return LetDiagnostics::TypeMismatch {
            stmt_span,
            declared_span: Span::from((stmt_span.start, end)),
            init_span: let_stmt.init.span,
        };
    }
    let mut out: Vec<TupleMismatch> = Vec::new();
    match &let_stmt.init.kind {
        ExprKind::Tuple(expr_elements) => match &let_stmt.pat.kind {
            PatKind::Tuple(pat_elements) => {
                if pat_elements.len() != expr_elements.len() {
                    out.push(TupleMismatch {
                        pat_span: let_stmt.pat.span,
                        tuple_span: let_stmt.init.span,
                        tuple_id: let_stmt.init.id,
                        matched: pat_elements.len(),
                        existing: expr_elements.len(),
                    });
                }
                let ghost top = out@;
                let mut queue: VecDeque<(&Expr, Option<&Pat>)> = VecDeque::new();
                pairs_queue(expr_elements, pat_elements, &mut queue);
                let ghost initial = queue@;
                assert(initial =~= pairs(expr_elements@, pat_elements@));
                loop
                    invariant_except_break
                        out@ + tuple_mismatches(queue@) == top + tuple_mismatches(initial),
                    ensures
                        out@ == top + tuple_mismatches(initial),
                    decreases queue_size(queue@),
                {
                    let ghost q = queue@;
                    proof {
                        if q.len() > 0 {
                            lemma_queue_size_first(q);
                        }
                    }
                    match queue.pop_front() {
                        None => {
                            assert(out@ + tuple_mismatches(q) =~= out@);
                            break;
                        },
                        Some((expr, maybe_pat)) => {
                            match &expr.kind {
                                ExprKind::Tuple(nested_tys) => match maybe_pat {
                                    Some(pat) => match &pat.kind {
                                        PatKind::Tuple(nested_pats) => {
                                            let ghost rest = queue@;
                                            pairs_queue(nested_tys, nested_pats, &mut queue);
                                            proof {
                                                lemma_queue_size_add(rest, pairs(nested_tys@, nested_pats@));
                                                lemma_pairs_size(nested_tys@, nested_pats@);
                                            }
                                            let ghost before = out@;
                                            if nested_tys.len() != nested_pats.len() {
                                                out.push(TupleMismatch {
                                                    pat_span: pat.span,
                                                    tuple_span: expr.span,
                                                    tuple_id: expr.id,
                                                    matched: nested_tys.len(),
                                                    existing: nested_pats.len(),
                                                });
                                            }
                                            assert(before + tuple_mismatches(q) =~= out@ + tuple_mismatches(queue@));
                                        },
                                        PatKind::Binding(_) => {},
                                    },
                                    None => {},
                                },
                                _ => {},
                            }
                        },
                    }
                }
            },
            PatKind::Binding(_) => {},
        },
        _ => {},
    }
    LetDiagnostics::Tuples(out)
}

/// Checks the condition of an `if` or a `while` statement, of type `condition_ty`: where
/// it is not `bool` (the error type included), the condition's span is given back for the
/// report ("condition of .. must be of type bool").
pub fn check_condition(expr_span: Span, condition_ty: &Ty) -> (r: Option<Span>)
    ensures
        r == (if condition_ty.kind matches TyKind::Prim(PrimTy::Boolean) {
            None
        } else {
            Some(expr_span)
        }),
{
    match &condition_ty.kind {
        TyKind::Prim(PrimTy::Boolean) => None,
        _ => Some(expr_span),
    }
}

/// A `return` whose value is not of the function's return type ("incorrect return type"):
/// the statement, and where the label stands.
#[derive(Clone, Copy, Debug, PartialEq, Eq, Structural)]
pub struct ReturnMismatch {
    pub stmt_span: Span,
    pub label_span: Span,
}

/// Checks a `return` statement whose value has type `ty` in a function returning
/// `return_ty`: where the two differ, the mismatch, labelled at the statement where the
/// value was not written (`synthetic`) and at the value otherwise.
pub fn check_return(stmt_span: Span, expr_span: Span, synthetic: bool, return_ty: &Ty, ty: &Ty) -> (r: Option<ReturnMismatch>)
    ensures
        r == (if same_ty_kind(ty.kind, return_ty.kind) {
            None
        } else {
            Some(ReturnMismatch { stmt_span, label_span: if synthetic { stmt_span } else { expr_span } })
        }),
{
    if *ty == *return_ty {
        None
    } else {
        Some(ReturnMismatch { stmt_span, label_span: if synthetic { stmt_span } else { expr_span } })
    }
}

/// An assignment of a value whose type is not the variable's ("expected type .., got type
/// .."): the statement, where the variable is defined, and the value.
#[derive(Clone, Copy, Debug, PartialEq, Eq, Structural)]
pub struct AssignMismatch {
    pub stmt_span: Span,
    pub defined_where: Span,
    pub value_span: Span,
}

/// Checks the assignment to `local`, of type `ty`, of a value of type `expr_ty`: nothing
/// where either is the error type, and otherwise the mismatch where they differ.
pub fn check_assign(stmt_span: Span, local: &LocalInfo, value_span: Span, ty: &Ty, expr_ty: &Ty) -> (r: Option<AssignMismatch>)
    ensures
        r == (if ty.kind is Error || expr_ty.kind is Error || same_ty_kind(ty.kind, expr_ty.kind) {
            None
        } else {
            Some(AssignMismatch { stmt_span, defined_where: local.defined_where, value_span })
        }),
{
    if ty.is_error() || expr_ty.is_error() {
        return None;
    }
    if *ty != *expr_ty {
        Some(AssignMismatch { stmt_span, defined_where: local.defined_where, value_span })
    } else {
        None
    }
}

} // verus!
