//! Checks that need no types: names bound twice in one pattern, and functions with a body
//! inside an extern module.
use vstd::prelude::*;

use crate::ast::{ExternModItem, FnItem, LetStmt, Pat, PatKind};
use crate::span::Span;
use crate::symbol::{Symbol, SymbolTable};

verus! {

/// A name bound twice in one pattern ("`name` is defined more than once in pattern"):
/// the pattern, the first definition of the name, and a later one.
#[derive(Clone, Copy, Debug, PartialEq, Eq, Structural)]
pub struct DuplicateBinding {
    pub pat_span: Span,
    pub name: Symbol,
    pub first: Span,
    pub second: Span,
}

/// The names bound by the patterns `pats`, each with where its pattern stands: the last
/// pattern first, and the elements of a tuple pattern again from the last.
pub open spec fn bindings_rev(pats: Seq<Pat>) -> Seq<(Symbol, Span)>
    decreases pats,
{
    if pats.len() == 0 {
        Seq::empty()
    } else {
        pat_bindings_rev(pats.last()) + bindings_rev(pats.drop_last())
    }
}

/// The names bound by pattern `p`, as [bindings_rev] orders them.
pub open spec fn pat_bindings_rev(p: Pat) -> Seq<(Symbol, Span)>
    decreases p,
{
    match p.kind {
        PatKind::Binding(b) => seq![(b.sym, p.span)],
        PatKind::Tuple(ps) => bindings_rev(ps@),
    }
}

/// `sorted` with `x` put after every span that starts no later than `x` does.
pub open spec fn insert_by_start(sorted: Seq<Span>, x: Span) -> Seq<Span>
    decreases sorted.len(),
{
    if sorted.len() == 0 {
        seq![x]
    } else if sorted.last().start <= x.start {
        sorted.push(x)
    } else {
        insert_by_start(sorted.drop_last(), x).push(sorted.last())
    }
}

/// `spans` ordered by where they start; spans that start together keep their order.
pub open spec fn sort_by_start(spans: Seq<Span>) -> Seq<Span>
    decreases spans.len(),
{
    if spans.len() == 0 {
        Seq::empty()
    } else {
        insert_by_start(sort_by_start(spans.drop_last()), spans.last())
    }
}

/// The spans of the bindings of `sym` among `bs`, in order.
pub open spec fn spans_named(bs: Seq<(Symbol, Span)>, sym: Symbol) -> Seq<Span>
    decreases bs.len(),
{
    if bs.len() == 0 {
        Seq::empty()
    } else if bs.last().0 == sym {
        spans_named(bs.drop_last(), sym).push(bs.last().1)
    } else {
        spans_named(bs.drop_last(), sym)
    }
}

/// What is reported of name `sym` bound at `spans` in the pattern at `pat_span`: where it
/// is bound more than once, each definition after the first, in the order of
/// [sort_by_start], against the first.
pub open spec fn reports_for(pat_span: Span, sym: Symbol, spans: Seq<Span>) -> Seq<DuplicateBinding> {
    let sorted = sort_by_start(spans);
    if sorted.len() <= 1 {
        Seq::empty()
    } else {
        Seq::new(
            (sorted.len() - 1) as nat,
            |j: int| DuplicateBinding { pat_span, name: sym, first: sorted[0], second: sorted[j + 1] },
        )
    }
}

/// Whether binding `i` of `bs` is the first of its name.
pub open spec fn first_named(bs: Seq<(Symbol, Span)>, i: int) -> bool {
    forall|j: int| 0 <= j < i ==> (#[trigger] bs[j]).0 != bs[i].0
}

/// The reports of the names of the first `n` bindings of `bs`, each name once, where it
/// first occurs; the name `_` (by the strings `texts` of the symbol table) is never
/// reported.
pub open spec fn duplicate_reports(bs: Seq<(Symbol, Span)>, texts: Seq<Seq<char>>, pat_span: Span, n: int) -> Seq<DuplicateBinding>
    decreases n,
{
    if n <= 0 {
        Seq::empty()
    } else {
        let prev = duplicate_reports(bs, texts, pat_span, n - 1);
        let sym = bs[n - 1].0;
        if first_named(bs, n - 1) && texts[sym.index()] != seq!['_'] {
            prev + reports_for(pat_span, sym, spans_named(bs, sym))
        } else {
            prev
        }
    }
}

/// The names bound more than once in a tuple pattern (nothing for a binding): see
/// [duplicate_reports] over [bindings_rev] of its elements.
pub open spec fn pattern_duplicates(pat: Pat, texts: Seq<Seq<char>>) -> Seq<DuplicateBinding> {
    match pat.kind {
        PatKind::Tuple(inner) => {
            let bs = bindings_rev(inner@);
            duplicate_reports(bs, texts, pat.span, bs.len() as int)
        },
        PatKind::Binding(_) => Seq::empty(),
    }
}

/// Inserting into a sorted run at the place after the last span that starts no later.
pub proof fn lemma_insert_at(s: Seq<Span>, x: Span, k: int)
    requires
        0 <= k <= s.len(),
        k == 0 || s[k - 1].start <= x.start,
        forall|j: int| k <= j < s.len() ==> (#[trigger] s[j]).start > x.start,
    ensures
        insert_by_start(s, x) == s.insert(k, x),
    decreases s.len(),
{
    if s.len() == k {
        assert(s.insert(k, x) =~= s.push(x));
    } else {
        lemma_insert_at(s.drop_last(), x, k);
        assert(s.insert(k, x) =~= s.drop_last().insert(k, x).push(s.last()));
    }
}

/// `sorted` with `x` inserted after the last span that starts no later than `x` does.
fn insert_span(sorted: &mut Vec<Span>, x: Span)
    ensures
        final(sorted)@ == insert_by_start(old(sorted)@, x),
{
    let mut k: usize = sorted.len();
    while k > 0 && sorted[k - 1].start > x.start
        invariant
            0 <= k <= sorted@.len(),
            sorted@ == old(sorted)@,
            forall|j: int| k <= j < sorted@.len() ==> (#[trigger] sorted@[j]).start > x.start,
        decreases k,
    {
        k = k - 1;
    }
    proof {
        lemma_insert_at(sorted@, x, k as int);
    }
    sorted.insert(k, x);
}

/// `spans` ordered as [sort_by_start] orders them.
fn sort_spans(spans: &Vec<Span>) -> (r: Vec<Span>)
    ensures
        r@ == sort_by_start(spans@),
{
    let mut out: Vec<Span> = Vec::new();
    let mut i: usize = 0;
    while i < spans.len()
        invariant
            0 <= i <= spans@.len(),
            out@ == sort_by_start(spans@.take(i as int)),
        decreases spans@.len() - i,
    {
        proof {
            assert(spans@.take(i + 1).drop_last() =~= spans@.take(i as int));
        }
        insert_span(&mut out, spans[i]);
        i = i + 1;
    }
    assert(spans@.take(i as int) =~= spans@);
    out
}

/// Appends the names bound by `pats` to `out`, in the order of [bindings_rev].
fn collect_bindings(pats: &Vec<Pat>, out: &mut Vec<(Symbol, Span)>)
    ensures
        final(out)@ == old(out)@ + bindings_rev(pats@),
    decreases pats@,
{
    let mut i: usize = pats.len();
    assert(pats@.take(i as int) =~= pats@);
    while i > 0
        invariant
            0 <= i <= pats@.len(),
            out@ + bindings_rev(pats@.take(i as int)) == old(out)@ + bindings_rev(pats@),
        decreases i,
    {
        let ghost before = out@;
        let pat = &pats[i - 1];
        proof {
            assert(pats@.take(i as int).drop_last() =~= pats@.take(i - 1));
            assert(pats@.take(i as int).last() == *pat);
        }
        match &pat.kind {
            PatKind::Binding(b) => {
                out.push((b.sym, pat.span));
            },
            PatKind::Tuple(inner) => {
                assert(decreases_to!(pats@ => pats@[i - 1]));
                collect_bindings(inner, out);
            },
        }
        proof {
            assert(out@ =~= before + pat_bindings_rev(*pat));
            assert(out@ + bindings_rev(pats@.take(i - 1)) =~= before + bindings_rev(pats@.take(i as int)));
        }
        i = i - 1;
    }
}

/// Whether `s` is the string `_`.
fn is_underscore(s: &str) -> (r: bool)
    ensures
        r == (s@ == seq!['_']),
{
    if s.unicode_len() == 1 {
        let c = s.get_char(0);
        assert(c == '_' ==> s@ =~= seq!['_']);
        c == '_'
    } else {
        false
    }
}

/// The names bound more than once in the tuple pattern `pat` ([pattern_duplicates]).
/// A name bound several times is reported once for each binding after the first, in
/// the order the bindings start; the name `_` is never reported.
pub fn check_let_bindings(pat: &Pat, table: &SymbolTable) -> (r: Vec<DuplicateBinding>)
    requires
        table.wf(),
        forall|i: int| 0 <= i < pat_bindings_rev(*pat).len() ==> (#[trigger] pat_bindings_rev(*pat)[i]).0.index() < table@.len(),
    ensures
        r@ == pattern_duplicates(*pat, table@),
{
    let inner = match &pat.kind {
        PatKind::Tuple(inner) => inner,
        PatKind::Binding(_) => return Vec::new(),
    };
    let mut bs: Vec<(Symbol, Span)> = Vec::new();
    collect_bindings(inner, &mut bs);
    assert(bs@ =~= bindings_rev(inner@));
    let mut out: Vec<DuplicateBinding> = Vec::new();
    let mut i: usize = 0;
    while i < bs.len()
        invariant
            0 <= i <= bs@.len(),
            bs@ == pat_bindings_rev(*pat),
            table.wf(),
            forall|k: int| 0 <= k < bs@.len() ==> (#[trigger] bs@[k]).0.index() < table@.len(),
            out@ == duplicate_reports(bs@, table@, pat.span, i as int),
        decreases bs@.len() - i,
    {
        let sym = bs[i].0;
        let mut earlier = false;
        let mut j: usize = 0;
        while j < i
            invariant
                0 <= j <= i < bs@.len(),
                sym == bs@[i as int].0,
                earlier == exists|k: int| 0 <= k < j && (#[trigger] bs@[k]).0 == sym,
            decreases i - j,
        {
            if bs[j].0 == sym {
                earlier = true;
            }
            j = j + 1;
        }
        if !earlier && !is_underscore(sym.as_str(table)) {
            let mut spans: Vec<Span> = Vec::new();
            let mut k: usize = 0;
            while k < bs.len()
                invariant
                    0 <= k <= bs@.len(),
                    spans@ == spans_named(bs@.take(k as int), sym),
                decreases bs@.len() - k,
            {
                proof {
                    assert(bs@.take(k + 1).drop_last() =~= bs@.take(k as int));
                }
                if bs[k].0 == sym {
                    spans.push(bs[k].1);
                }
                k = k + 1;
            }
            assert(bs@.take(k as int) =~= bs@);
            let sorted = sort_spans(&spans);
            if sorted.len() > 1 {
                let ghost before = out@;
                let mut m: usize = 1;
                while m < sorted.len()
                    invariant
                        1 <= m <= sorted@.len(),
                        sorted@ == sort_by_start(spans@),
                        out@ == before + reports_for(pat.span, sym, spans@).take(m - 1),
                    decreases sorted@.len() - m,
                {
                    out.push(DuplicateBinding { pat_span: pat.span, name: sym, first: sorted[0], second: sorted[m] });
                    m = m + 1;
                    assert(out@ =~= before + reports_for(pat.span, sym, spans@).take(m - 1));
                }
                assert(reports_for(pat.span, sym, spans@).take(m - 1) =~= reports_for(pat.span, sym, spans@));
            } else {
                assert(out@ =~= out@ + reports_for(pat.span, sym, spans@));
            }
        }
        i = i + 1;
    }
    out
}

/// A function with a body inside an extern module ("non-extern item within extern
/// module"): its signature, its name, and the spans that mark where the module's block
/// starts and ends.
#[derive(Clone, Copy, Debug, PartialEq, Eq, Structural)]
pub struct NonExternItem {
    pub signature_span: Span,
    pub name: Symbol,
    pub block_start: Span,
    pub block_end: Span,
}

/// What the general phase reports.
#[derive(Clone, Copy, Debug, PartialEq, Eq, Structural)]
pub enum GeneralDiagnostic {
    DuplicateBinding(DuplicateBinding),
    NonExternItem(NonExternItem),
}

/// The general phase over a file, as it walks the items: the span of the item it is in,
/// and the marks of the extern module it is in, if any.
pub struct GeneralPhase {
    pub file_id: usize,
    pub extern_mod: Option<(Span, Span)>,
    pub item_span: Option<Span>,
    pub diagnostics: Vec<GeneralDiagnostic>,
}

impl GeneralPhase {
    /// The phase for file `file_id`, outside of any item.
    pub fn new(file_id: usize) -> (r: Self)
        ensures
            r.file_id == file_id,
            r.extern_mod is None,
            r.item_span is None,
            r.diagnostics@.len() == 0,
    {
        GeneralPhase { file_id, extern_mod: None, item_span: None, diagnostics: Vec::new() }
    }

    /// Enters the item at `span`, giving back the span of the item the walk was in.
    pub fn enter_item(&mut self, span: Span) -> (r: Option<Span>)
        ensures
            r == old(self).item_span,
            final(self).item_span == Some(span),
            final(self).extern_mod == old(self).extern_mod,
            final(self).file_id == old(self).file_id,
            final(self).diagnostics == old(self).diagnostics,
    {
        let previous = self.item_span;
        self.item_span = Some(span);
        previous
    }

    /// Leaves an item, back to `previous`, the item the walk was in before it.
    pub fn leave_item(&mut self, previous: Option<Span>)
        ensures
            final(self).item_span == previous,
            final(self).extern_mod == old(self).extern_mod,
            final(self).file_id == old(self).file_id,
            final(self).diagnostics == old(self).diagnostics,
    {
        self.item_span = previous;
    }

    /// Enters the extern module `extern_module` of the current item: its marks are the
    /// item's text up to the brace that opens the block, and the brace that closes the
    /// item. Gives back the marks of the extern module the walk was in.
    pub fn enter_extern_mod(&mut self, extern_module: &ExternModItem) -> (r: Option<(Span, Span)>)
        requires
            old(self).item_span matches Some(s) && s.end >= 1,
            extern_module.block_span.start < usize::MAX,
        ensures
            r == old(self).extern_mod,
            final(self).extern_mod == Some((
                Span { start: old(self).item_span->Some_0.start, end: (extern_module.block_span.start + 1) as usize },
                Span { start: (old(self).item_span->Some_0.end - 1) as usize, end: old(self).item_span->Some_0.end },
            )),
            final(self).item_span == old(self).item_span,
            final(self).file_id == old(self).file_id,
            final(self).diagnostics == old(self).diagnostics,
    {
        let item_span = match self.item_span {
            Some(s) => s,
            None => return self.extern_mod,
        };
        let previous = self.extern_mod;
        self.extern_mod = Some((
            Span::from((item_span.start, extern_module.block_span.start + 1)),
            Span::from((item_span.end - 1, item_span.end)),
        ));
        previous
    }

    /// Leaves an extern module, back to `previous`, the marks of the one the walk was in.
    pub fn leave_extern_mod(&mut self, previous: Option<(Span, Span)>)
        ensures
            final(self).extern_mod == previous,
            final(self).item_span == old(self).item_span,
            final(self).file_id == old(self).file_id,
            final(self).diagnostics == old(self).diagnostics,
    {
        self.extern_mod = previous;
    }

    /// A function with a body, `fun`, at the current item: inside an extern module it is
    /// reported, with its signature from the start of the item to the end of its return
    /// type.
    pub fn visit_fn_item(&mut self, fun: &FnItem)
        requires
            old(self).extern_mod is Some ==> old(self).item_span is Some,
        ensures
            final(self).extern_mod == old(self).extern_mod,
            final(self).item_span == old(self).item_span,
            final(self).file_id == old(self).file_id,
            old(self).extern_mod matches Some((start, end)) ==> final(self).diagnostics@ == old(self).diagnostics@.push(
                GeneralDiagnostic::NonExternItem(
                    NonExternItem {
                        signature_span: Span { start: old(self).item_span->Some_0.start, end: fun.return_ty.span.end },
                        name: fun.ident.sym,
                        block_start: start,
                        block_end: end,
                    },
                ),
            ),
            old(self).extern_mod is None ==> final(self).diagnostics == old(self).diagnostics,
    {
        if let Some((start, end)) = self.extern_mod {
            let item_span = match self.item_span {
                Some(s) => s,
                None => return,
            };
            let signature_span = Span::from((item_span.start, fun.return_ty.span.end));
            self.diagnostics.push(
                GeneralDiagnostic::NonExternItem(
                    NonExternItem { signature_span, name: fun.ident.sym, block_start: start, block_end: end },
                ),
            );
        }
    }

    /// A `let` statement: the names its pattern binds more than once are reported (see
    /// [check_let_bindings]).
    pub fn visit_let_stmt(&mut self, let_stmt: &LetStmt, table: &SymbolTable)
        requires
            table.wf(),
            forall|i: int|
                0 <= i < pat_bindings_rev(let_stmt.pat).len() ==> (#[trigger] pat_bindings_rev(let_stmt.pat)[i]).0.index()
                    < table@.len(),
        ensures
            final(self).extern_mod == old(self).extern_mod,
            final(self).item_span == old(self).item_span,
            final(self).file_id == old(self).file_id,
            final(self).diagnostics@ == old(self).diagnostics@ + pattern_duplicates(let_stmt.pat, table@).map_values(
                |d: DuplicateBinding| GeneralDiagnostic::DuplicateBinding(d),
            ),
    {
        let found = check_let_bindings(&let_stmt.pat, table);
        let ghost before = self.diagnostics@;
        let mut i: usize = 0;
        while i < found.len()
            invariant
                0 <= i <= found@.len(),
                self.extern_mod == old(self).extern_mod,
                self.item_span == old(self).item_span,
                self.file_id == old(self).file_id,
                self.diagnostics@ == before + found@.take(i as int).map_values(|d: DuplicateBinding| GeneralDiagnostic::DuplicateBinding(d)),
            decreases found@.len() - i,
        {
            self.diagnostics.push(GeneralDiagnostic::DuplicateBinding(found[i]));
            i = i + 1;
            assert(self.diagnostics@ =~= before + found@.take(i as int).map_values(
                |d: DuplicateBinding| GeneralDiagnostic::DuplicateBinding(d),
            ));
        }
        assert(found@.take(i as int) =~= found@);
    }
}

} // verus!
