//! The resolution of paths `a::b::c`: the first segment is looked up in the scopes, and
//! each further segment among the members of the module the one before it names.
use vstd::prelude::*;

use crate::ast::{Ident, Path, PathSegment};
use crate::hir::NodeId;
use crate::resolve::def::{Def, DefId};
use crate::resolve::name_res::FirstPass;
use crate::resolve::resolver::ResolutionContext;
use crate::resolve::scope::{lookup_in, path_defs, ScopeStack};
use crate::session::item::{ItemInfo, ItemKind, Visibility};
use crate::session::Session;
use crate::span::Span;
use crate::symbol::Symbol;

verus! {

broadcast use vstd::std_specs::hash::group_hash_axioms;

/// An error found while resolving a path.
#[derive(Clone, Copy, Debug, PartialEq, Eq, Structural)]
pub enum PathError {
    /// The first segment names nothing in scope ("unresolved symbol in current scope").
    Unresolved { file_id: usize, span: Span, sym: Symbol },
    /// A module has no member of that name ("member `member` does not exist in module
    /// `module`").
    UnknownMember { file_id: usize, span: Span, member: Symbol, module: Symbol },
    /// The member is private and cannot be named from the current scope ("member `member`
    /// of `module` is private and therefore inaccessible in current scope"), with the span
    /// of the member's signature.
    PrivateMember { file_id: usize, span: Span, member: Symbol, module: Symbol, definition: Span },
}

/// Whether every member of every module of `items` is itself an item of `items`.
pub open spec fn members_closed(items: Map<u64, ItemInfo>) -> bool {
    forall|k: u64, s: usize|
        items.contains_key(k) && #[trigger] items[k].kind.members().contains_key(s) ==> items.contains_key(
            items[k].kind.members()[s].0,
        )
}

/// Whether every definition that a scope binds a name to is an item of `items`.
pub open spec fn defs_registered(scopes: Seq<Map<usize, Def>>, items: Map<u64, ItemInfo>) -> bool {
    forall|k: int, s: usize|
        0 <= k < scopes.len() && #[trigger] scopes[k].contains_key(s) && scopes[k][s] is Def ==> items.contains_key(
            scopes[k][s]->Def_0.0,
        )
}

/// Whether some scope binds a name to `def`.
pub open spec fn in_scope(scopes: Seq<Map<usize, Def>>, def: Def) -> bool {
    exists|k: int| 0 <= k < scopes.len() && #[trigger] scopes[k].values().contains(def)
}

/// What segment `seg` names among the members of item `id`, and the error reported: none
/// where the item is no module; [PathError::UnknownMember] where it has no such member;
/// [PathError::PrivateMember] where the member is private and not in scope.
pub open spec fn segment_res(
    items: Map<u64, ItemInfo>,
    scopes: Seq<Map<usize, Def>>,
    file_id: usize,
    id: DefId,
    seg: PathSegment,
) -> (Def, Seq<PathError>) {
    let item = items[id.0];
    let key = seg.ident.sym.key();
    if !(item.kind is InlineMod || item.kind is ExternMod) {
        (Def::Error, Seq::empty())
    } else if !item.kind.members().contains_key(key) {
        (
            Def::Error,
            seq![PathError::UnknownMember { file_id, span: seg.ident.span, member: seg.ident.sym, module: item.name }],
        )
    } else {
        let m = item.kind.members()[key];
        let member = items[m.0];
        if member.vis == Visibility::Private && !in_scope(scopes, Def::Def(m)) {
            (
                Def::Error,
                seq![
                    PathError::PrivateMember {
                        file_id,
                        span: seg.ident.span,
                        member: member.name,
                        module: item.name,
                        definition: member.kind.signature_span_spec(),
                    },
                ],
            )
        } else {
            (Def::Def(m), Seq::empty())
        }
    }
}

/// Resolving the segments `segs` one after the other, from `start`: what each resolves
/// to, the errors found, and what the last resolved to (`start` where there is none). A
/// segment after one that resolved to [Def::Error] is left alone.
pub open spec fn segment_walk(
    items: Map<u64, ItemInfo>,
    scopes: Seq<Map<usize, Def>>,
    file_id: usize,
    start: Def,
    segs: Seq<PathSegment>,
) -> (Seq<Def>, Seq<PathError>, Def)
    decreases segs.len(),
{
    if segs.len() == 0 {
        (Seq::empty(), Seq::empty(), start)
    } else {
        let prev = segment_walk(items, scopes, file_id, start, segs.drop_last());
        match prev.2 {
            Def::Def(id) => {
                let step = segment_res(items, scopes, file_id, id, segs.last());
                (prev.0.push(step.0), prev.1 + step.1, step.0)
            },
            Def::Local(_) => (prev.0.push(prev.2), prev.1, prev.2),
            Def::Error => prev,
        }
    }
}

/// `m` with each of the first `defs.len()` segments of `segs` mapped, in order, to the
/// definition at its place in `defs`.
pub open spec fn resolve_segments(m: Map<usize, Def>, segs: Seq<PathSegment>, defs: Seq<Def>) -> Map<usize, Def>
    decreases defs.len(),
{
    if defs.len() == 0 {
        m
    } else {
        resolve_segments(m, segs, defs.drop_last()).insert(segs[defs.len() - 1].id.0, defs.last())
    }
}

/// The errors that resolving `path` reports.
pub open spec fn path_errors(items: Map<u64, ItemInfo>, scopes: Seq<Map<usize, Def>>, file_id: usize, path: Path) -> Seq<PathError> {
    let first = path.segments@[0];
    match lookup_in(scopes, first.ident.sym.key()) {
        None => seq![PathError::Unresolved { file_id, span: first.ident.span, sym: first.ident.sym }],
        Some((_, Def::Def(id))) => segment_walk(items, scopes, file_id, Def::Def(id), path.segments@.drop_first()).1,
        Some(_) => Seq::empty(),
    }
}

/// The name resolutions `m` after resolving `path`: the first segment, each segment
/// resolved after it, and the path itself, to what each resolves to.
pub open spec fn path_resolutions(
    items: Map<u64, ItemInfo>,
    scopes: Seq<Map<usize, Def>>,
    file_id: usize,
    path: Path,
    m: Map<usize, Def>,
) -> Map<usize, Def> {
    let first = path.segments@[0];
    match lookup_in(scopes, first.ident.sym.key()) {
        Some((_, Def::Local(l))) => m.insert(first.id.0, Def::Local(l)).insert(path.id.0, Def::Local(l)),
        Some((_, Def::Def(id))) => {
            let walk = segment_walk(items, scopes, file_id, Def::Def(id), path.segments@.drop_first());
            resolve_segments(m.insert(first.id.0, Def::Def(id)), path.segments@.drop_first(), walk.0).insert(
                path.id.0,
                walk.2,
            )
        },
        _ => m,
    }
}

/// The qualified path recorded for `path`, where it names an item: the definitions of the
/// path of the scope that binds its first segment, that binding, and what each further
/// segment resolved to.
pub open spec fn path_qualified(
    items: Map<u64, ItemInfo>,
    scopes: Seq<Map<usize, Def>>,
    paths: Seq<Seq<Option<DefId>>>,
    file_id: usize,
    path: Path,
) -> Option<Seq<Def>> {
    let first = path.segments@[0];
    match lookup_in(scopes, first.ident.sym.key()) {
        Some((k, Def::Def(id))) => {
            let walk = segment_walk(items, scopes, file_id, Def::Def(id), path.segments@.drop_first());
            if walk.2 is Def {
                Some(path_defs(paths[k]).push(Def::Def(id)) + walk.0)
            } else {
                None
            }
        },
        _ => None,
    }
}

/// A binding that the lookup finds is one of the bindings of the scopes.
pub proof fn lemma_lookup_in_found(scopes: Seq<Map<usize, Def>>, sym: usize)
    ensures
        lookup_in(scopes, sym) matches Some((k, d)) ==> 0 <= k < scopes.len() && scopes[k].contains_key(sym)
            && scopes[k][sym] == d,
    decreases scopes.len(),
{
    if scopes.len() > 0 && !scopes.last().contains_key(sym) {
        lemma_lookup_in_found(scopes.drop_last(), sym);
    }
}

/// Once a segment resolved to [Def::Error], resolving further segments changes nothing.
pub proof fn lemma_walk_stops(
    items: Map<u64, ItemInfo>,
    scopes: Seq<Map<usize, Def>>,
    file_id: usize,
    start: Def,
    segs: Seq<PathSegment>,
    n: int,
)
    requires
        0 <= n <= segs.len(),
        segment_walk(items, scopes, file_id, start, segs.take(n)).2 is Error,
    ensures
        segment_walk(items, scopes, file_id, start, segs) == segment_walk(items, scopes, file_id, start, segs.take(n)),
    decreases segs.len() - n,
{
    if n < segs.len() {
        assert(segs.take(n + 1).drop_last() =~= segs.take(n));
        lemma_walk_stops(items, scopes, file_id, start, segs, n + 1);
    } else {
        assert(segs.take(n) =~= segs);
    }
}

/// Walking resolves only items of `items` where the members of its modules are items too.
pub proof fn lemma_walk_registered(
    items: Map<u64, ItemInfo>,
    scopes: Seq<Map<usize, Def>>,
    file_id: usize,
    start: Def,
    segs: Seq<PathSegment>,
)
    requires
        members_closed(items),
        start is Def ==> items.contains_key(start->Def_0.0),
    ensures
        segment_walk(items, scopes, file_id, start, segs).2 is Def ==> items.contains_key(
            segment_walk(items, scopes, file_id, start, segs).2->Def_0.0,
        ),
    decreases segs.len(),
{
    if segs.len() > 0 {
        lemma_walk_registered(items, scopes, file_id, start, segs.drop_last());
        let prev = segment_walk(items, scopes, file_id, start, segs.drop_last());
        if prev.2 is Def {
            let item = items[prev.2->Def_0.0];
            let key = segs.last().ident.sym.key();
            if item.kind.members().contains_key(key) {
                assert(items.contains_key(item.kind.members()[key].0));
            }
        }
    }
}

/// The second pass of name resolution, as far as paths go: it resolves each path in the
/// scopes that the first pass filled, against the items of the session.
pub struct SecondPass {
    pub stack: ScopeStack,
    pub sess: Session,
    pub rcx: ResolutionContext,
    pub file_id: usize,
    pub diagnostics: Vec<PathError>,
}

impl SecondPass {
    /// The scope stack is well formed, every definition it binds is an item of the
    /// session, and so is every member of every module of the session.
    pub open spec fn inv(&self) -> bool {
        &&& self.stack.wf()
        &&& defs_registered(self.stack.scopes(), self.sess.items())
        &&& members_closed(self.sess.items())
    }

    /// The second pass after `first`: its scopes, items and resolutions, with no error
    /// reported yet. What the first pass keeps ([FirstPass::inv], and every member of a
    /// module registered, which [FirstPass::visit_ast] keeps) is what this pass needs.
    pub fn new(first: FirstPass) -> (r: Self)
        requires
            first.inv(),
            members_closed(first.sess.items()),
        ensures
            r.inv(),
            r.stack == first.stack,
            r.sess == first.sess,
            r.rcx == first.rcx,
            r.file_id == first.file_id,
            r.diagnostics@.len() == 0,
    {
        SecondPass { stack: first.stack, sess: first.sess, rcx: first.rcx, file_id: first.file_id, diagnostics: Vec::new() }
    }

    /// Resolves segment `seg` among the members of item `def_id` (see [segment_res]),
    /// reporting what [segment_res] finds.
    pub fn resolve_segment_in_def(&mut self, seg: &PathSegment, def_id: DefId) -> (r: Def)
        requires
            old(self).inv(),
            old(self).sess.items().contains_key(def_id.0),
        ensures
            final(self).stack == old(self).stack,
            final(self).sess == old(self).sess,
            final(self).rcx == old(self).rcx,
            final(self).file_id == old(self).file_id,
            r == segment_res(old(self).sess.items(), old(self).stack.scopes(), old(self).file_id, def_id, *seg).0,
            final(self).diagnostics@ == old(self).diagnostics@ + segment_res(
                old(self).sess.items(),
                old(self).stack.scopes(),
                old(self).file_id,
                def_id,
                *seg,
            ).1,
    {
        let item = self.sess.item(def_id);
        let items = match &item.kind {
            ItemKind::InlineMod { items, .. } | ItemKind::ExternMod { items, .. } => items,
            _ => {
                assert(self.diagnostics@ =~= old(self).diagnostics@ + Seq::<PathError>::empty());
                return Def::Error;
            },
        };
        let result = match items.get(&seg.ident.sym.as_index()) {
            Some(id) => Def::Def(*id),
            None => Def::Error,
        };
        match result {
            Def::Error => {
                self.diagnostics.push(
                    PathError::UnknownMember { file_id: self.file_id, span: seg.ident.span, member: seg.ident.sym, module: item.name },
                );
            },
            Def::Def(id) => {
                let member = self.sess.item(id);
                if member.vis == Visibility::Private && !self.stack.is_in_scope(&result) {
                    self.diagnostics.push(
                        PathError::PrivateMember {
                            file_id: self.file_id,
                            span: seg.ident.span,
                            member: member.name,
                            module: item.name,
                            definition: member.signature_span(),
                        },
                    );
                    return Def::Error;
                }
                assert(self.diagnostics@ =~= old(self).diagnostics@ + Seq::<PathError>::empty());
            },
            Def::Local(_) => {},
        }
        result
    }

    /// Resolves the identifier `ident` at node `id` in the scopes: it is recorded with what
    /// the innermost scope that binds its name binds it to, and where none does, it is
    /// reported ([PathError::Unresolved]) and recorded as [Def::Error].
    pub fn visit_identifier(&mut self, id: NodeId, ident: &Ident)
        requires
            old(self).inv(),
        ensures
            final(self).stack == old(self).stack,
            final(self).sess == old(self).sess,
            final(self).file_id == old(self).file_id,
            final(self).rcx.error_id == old(self).rcx.error_id,
            final(self).rcx.tys_by_node == old(self).rcx.tys_by_node,
            final(self).rcx.def_ids == old(self).rcx.def_ids,
            final(self).rcx.defs_by_node == old(self).rcx.defs_by_node,
            final(self).rcx.locals_by_node == old(self).rcx.locals_by_node,
            final(self).rcx.qualified_paths == old(self).rcx.qualified_paths,
            lookup_in(old(self).stack.scopes(), ident.sym.key()) matches Some((_, d)) ==> {
                &&& final(self).rcx.name_resolutions@ == old(self).rcx.name_resolutions@.insert(id.0, d)
                &&& final(self).diagnostics == old(self).diagnostics
            },
            lookup_in(old(self).stack.scopes(), ident.sym.key()) is None ==> {
                &&& final(self).rcx.name_resolutions@ == old(self).rcx.name_resolutions@.insert(id.0, Def::Error)
                &&& final(self).diagnostics@ == old(self).diagnostics@.push(
                    PathError::Unresolved { file_id: old(self).file_id, span: ident.span, sym: ident.sym },
                )
            },
    {
        match self.stack.lookup(ident.sym) {
            Some(def) => {
                self.rcx.name_resolutions.insert(id.0, def);
            },
            None => {
                self.diagnostics.push(PathError::Unresolved { file_id: self.file_id, span: ident.span, sym: ident.sym });
                self.rcx.name_resolutions.insert(id.0, Def::Error);
            },
        }
    }

    /// Resolves `path`: its first segment in the scopes, each further one among the members
    /// of the module the one before it names, stopping at the first that names nothing.
    /// The path, and each segment resolved, is recorded with what it resolves to (see
    /// [path_resolutions]); a path that names an item gets its qualified path (see
    /// [path_qualified]); the errors of [path_errors] are reported. A first segment that
    /// names nothing records nothing; one bound to [Def::Error] is left alone.
    pub fn visit_path(&mut self, path: &Path)
        requires
            old(self).inv(),
            path.segments@.len() > 0,
        ensures
            final(self).stack == old(self).stack,
            final(self).sess == old(self).sess,
            final(self).file_id == old(self).file_id,
            final(self).rcx.error_id == old(self).rcx.error_id,
            final(self).rcx.tys_by_node == old(self).rcx.tys_by_node,
            final(self).rcx.def_ids == old(self).rcx.def_ids,
            final(self).rcx.defs_by_node == old(self).rcx.defs_by_node,
            final(self).rcx.locals_by_node == old(self).rcx.locals_by_node,
            final(self).diagnostics@ == old(self).diagnostics@ + path_errors(
                old(self).sess.items(),
                old(self).stack.scopes(),
                old(self).file_id,
                *path,
            ),
            final(self).rcx.name_resolutions@ == path_resolutions(
                old(self).sess.items(),
                old(self).stack.scopes(),
                old(self).file_id,
                *path,
                old(self).rcx.name_resolutions@,
            ),
            path_qualified(old(self).sess.items(), old(self).stack.scopes(), old(self).stack.scope_paths(), old(self).file_id, *path)
                matches Some(q) ==> {
                &&& final(self).rcx.qualified_paths@.dom() == old(self).rcx.qualified_paths@.dom().insert(path.id.0)
                &&& final(self).rcx.qualified_paths@[path.id.0]@ == q
                &&& forall|k: usize| k != path.id.0 && #[trigger] old(self).rcx.qualified_paths@.contains_key(k)
                    ==> final(self).rcx.qualified_paths@[k] == old(self).rcx.qualified_paths@[k]
            },
            path_qualified(old(self).sess.items(), old(self).stack.scopes(), old(self).stack.scope_paths(), old(self).file_id, *path)
                is None ==> final(self).rcx.qualified_paths == old(self).rcx.qualified_paths,
    {
        let first = &path.segments[0];
        let ident = first.ident;
        let ghost items = self.sess.items();
        let ghost scopes = self.stack.scopes();
        let ghost file_id = self.file_id;
        let ghost segs = path.segments@;
        let ghost rest = segs.drop_first();
        proof {
            lemma_lookup_in_found(scopes, ident.sym.key());
        }
        let (mut def, mut qualified_path) = match self.stack.lookup_path(ident.sym) {
            Some((Def::Error, _)) => {
                assert(self.diagnostics@ =~= old(self).diagnostics@ + Seq::<PathError>::empty());
                return;
            },
            Some(result) => result,
            None => {
                self.diagnostics.push(PathError::Unresolved { file_id: self.file_id, span: ident.span, sym: ident.sym });
                return;
            },
        };
        let ghost start = def;
        let ghost prefix = qualified_path@;
        let ghost old_diags = self.diagnostics@;
        let ghost resolved = self.rcx.name_resolutions@.insert(first.id.0, def);
        self.rcx.name_resolutions.insert(first.id.0, def);
        if let Def::Def(_) = def {
            let mut i: usize = 1;
            proof {
                assert(rest.take(0) =~= Seq::<PathSegment>::empty());
                let k = lookup_in(scopes, ident.sym.key())->Some_0.0;
                assert(scopes[k].contains_key(ident.sym.key()));
            }
            while i < path.segments.len() && def != Def::Error
                invariant
                    self.inv(),
                    items == self.sess.items(),
                    scopes == self.stack.scopes(),
                    file_id == self.file_id,
                    segs == path.segments@,
                    rest == segs.drop_first(),
                    1 <= i <= segs.len(),
                    start is Def,
                    items.contains_key(start->Def_0.0),
                    self.stack == old(self).stack,
                    self.sess == old(self).sess,
                    segment_walk(items, scopes, file_id, start, rest.take(i - 1)).2 == def,
                    segment_walk(items, scopes, file_id, start, rest.take(i - 1)).0.len() == i - 1,
                    qualified_path@ == prefix + segment_walk(items, scopes, file_id, start, rest.take(i - 1)).0,
                    self.diagnostics@ == old_diags + segment_walk(items, scopes, file_id, start, rest.take(i - 1)).1,
                    self.rcx.name_resolutions@ == resolve_segments(
                        resolved,
                        rest,
                        segment_walk(items, scopes, file_id, start, rest.take(i - 1)).0,
                    ),
                    def is Def ==> items.contains_key(def->Def_0.0),
                    self.rcx.error_id == old(self).rcx.error_id,
                    self.rcx.tys_by_node == old(self).rcx.tys_by_node,
                    self.rcx.def_ids == old(self).rcx.def_ids,
                    self.rcx.defs_by_node == old(self).rcx.defs_by_node,
                    self.rcx.locals_by_node == old(self).rcx.locals_by_node,
                    self.rcx.qualified_paths == old(self).rcx.qualified_paths,
                decreases segs.len() - i,
            {
                let current = &path.segments[i];
                let ghost before = segment_walk(items, scopes, file_id, start, rest.take(i - 1));
                proof {
                    assert(rest.take(i as int).drop_last() =~= rest.take(i - 1));
                    assert(rest.take(i as int).last() == *current);
                }
                def = match def {
                    Def::Local(_) => def,
                    Def::Def(id) => self.resolve_segment_in_def(current, id),
                    Def::Error => def,
                };
                self.rcx.name_resolutions.insert(current.id.0, def);
                qualified_path.push(def);
                i = i + 1;
                proof {
                    let after = segment_walk(items, scopes, file_id, start, rest.take(i - 1));
                    assert(after.0 == before.0.push(def));
                    assert(after.0.drop_last() =~= before.0);
                    assert(qualified_path@ =~= prefix + after.0);
                    assert(rest[after.0.len() - 1] == *current);
                    lemma_walk_registered(items, scopes, file_id, start, rest.take(i - 1));
                }
            }
            proof {
                if i < segs.len() {
                    lemma_walk_stops(items, scopes, file_id, start, rest, i - 1);
                } else {
                    assert(rest.take(i - 1) =~= rest);
                }
            }
        } else {
            assert(self.diagnostics@ =~= old(self).diagnostics@ + Seq::<PathError>::empty());
        }
        if let Def::Def(_) = def {
            self.rcx.qualified_paths.insert(path.id.0, qualified_path);
        }
        self.rcx.name_resolutions.insert(path.id.0, def);
    }
}

} // verus!
