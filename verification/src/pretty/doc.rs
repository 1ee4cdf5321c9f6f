use vstd::prelude::*;

verus! {

/// A document to be rendered as source text.
#[derive(Debug)]
pub enum Doc {
    /// A text.
    Text(String),
    /// Concatenates a list of docs together.
    Concat(Vec<Doc>),
    /// An optional newline for beauty purposes.
    Blankline,
    /// Newline in pretty mode, whitespace in one-line mode.
    Hardline,
    /// Used for explicitly separating statements. The mode decides what character it is.
    StmtSep,
    /// Indents the following [Doc].
    Indent(Box<Doc>),
    /// A list of docs with a separator between each two of them.
    Separated(Vec<Doc>, Box<Doc>),
    /// Not printed.
    Skip,
}

/// Whether a document renders as nothing by its own content: skipped, empty text, or made
/// only of such documents.
pub open spec fn doc_is_empty(d: Doc) -> bool
    decreases d,
{
    match d {
        Doc::Skip => true,
        Doc::Text(s) => s@.len() == 0,
        Doc::Concat(children) => docs_all_empty(children@),
        Doc::Indent(inner) => doc_is_empty(*inner),
        _ => false,
    }
}

/// Whether every document of `ds` is empty.
pub open spec fn docs_all_empty(ds: Seq<Doc>) -> bool
    decreases ds,
{
    if ds.len() == 0 {
        true
    } else {
        doc_is_empty(ds[0]) && docs_all_empty(ds.drop_first())
    }
}

/// Whether `a` and `b` are the same document: the same structure, with texts of the same
/// characters.
pub open spec fn same_doc(a: Doc, b: Doc) -> bool
    decreases a,
{
    match a {
        Doc::Text(x) => b matches Doc::Text(y) && x@ == y@,
        Doc::Concat(xs) => b matches Doc::Concat(ys) && same_docs(xs@, ys@),
        Doc::Indent(x) => b matches Doc::Indent(y) && same_doc(*x, *y),
        Doc::Separated(xs, x) => b matches Doc::Separated(ys, y) && same_docs(xs@, ys@) && same_doc(*x, *y),
        Doc::Blankline => b is Blankline,
        Doc::Hardline => b is Hardline,
        Doc::StmtSep => b is StmtSep,
        Doc::Skip => b is Skip,
    }
}

/// Whether `xs` and `ys` are the same documents, one by one.
pub open spec fn same_docs(xs: Seq<Doc>, ys: Seq<Doc>) -> bool
    decreases xs,
{
    &&& xs.len() == ys.len()
    &&& xs.len() > 0 ==> same_doc(xs[0], ys[0]) && same_docs(xs.drop_first(), ys.drop_first())
}

/// Two lists are the same documents exactly when they have the same length and are the
/// same document at each place.
pub proof fn lemma_same_docs_index(xs: Seq<Doc>, ys: Seq<Doc>)
    ensures
        same_docs(xs, ys) <==> (xs.len() == ys.len() && forall|i: int| 0 <= i < xs.len() ==> #[trigger] same_doc(xs[i], ys[i])),
    decreases xs.len(),
{
    if xs.len() > 0 && xs.len() == ys.len() {
        lemma_same_docs_index(xs.drop_first(), ys.drop_first());
        if forall|i: int| 0 <= i < xs.len() ==> #[trigger] same_doc(xs[i], ys[i]) {
            assert forall|i: int| 0 <= i < xs.drop_first().len() implies #[trigger] same_doc(xs.drop_first()[i], ys.drop_first()[i]) by {
                assert(same_doc(xs[i + 1], ys[i + 1]));
            }
            assert(same_doc(xs[0], ys[0]));
            assert(same_docs(xs, ys));
        }
        if same_docs(xs, ys) {
            assert forall|i: int| 0 <= i < xs.len() implies #[trigger] same_doc(xs[i], ys[i]) by {
                if i > 0 {
                    assert(same_doc(xs.drop_first()[i - 1], ys.drop_first()[i - 1]));
                }
            }
        }
    }
}

/// The same documents are empty alike.
pub proof fn lemma_same_doc_empty(a: Doc, b: Doc)
    requires
        same_doc(a, b),
    ensures
        doc_is_empty(a) == doc_is_empty(b),
    decreases a,
{
    match a {
        Doc::Concat(xs) => {
            let ys = b->Concat_0;
            lemma_same_docs_empty(xs@, ys@);
        },
        Doc::Indent(x) => {
            lemma_same_doc_empty(*x, *b->Indent_0);
        },
        _ => {},
    }
}

proof fn lemma_same_docs_empty(xs: Seq<Doc>, ys: Seq<Doc>)
    requires
        same_docs(xs, ys),
    ensures
        docs_all_empty(xs) == docs_all_empty(ys),
    decreases xs,
{
    if xs.len() > 0 {
        lemma_same_doc_empty(xs[0], ys[0]);
        lemma_same_docs_empty(xs.drop_first(), ys.drop_first());
    }
}

/// A copy of `d`.
fn copy_doc(d: &Doc) -> (r: Doc)
    ensures
        same_doc(*d, r),
    decreases *d,
{
    match d {
        Doc::Text(t) => Doc::Text(t.clone()),
        Doc::Concat(xs) => {
            proof {
                assert(decreases_to!(*d => d->Concat_0));
            }
            Doc::Concat(copy_docs(xs))
        },
        Doc::Indent(x) => {
            proof {
                assert(decreases_to!(*d => *d->Indent_0));
            }
            Doc::Indent(Box::new(copy_doc(x)))
        },
        Doc::Separated(xs, x) => {
            proof {
                assert(decreases_to!(*d => d->Separated_0));
                assert(decreases_to!(*d => *d->Separated_1));
            }
            let ys = copy_docs(xs);
            Doc::Separated(ys, Box::new(copy_doc(x)))
        },
        Doc::Blankline => Doc::Blankline,
        Doc::Hardline => Doc::Hardline,
        Doc::StmtSep => Doc::StmtSep,
        Doc::Skip => Doc::Skip,
    }
}

/// Copies of `xs`, one by one.
fn copy_docs(xs: &Vec<Doc>) -> (r: Vec<Doc>)
    ensures
        same_docs(xs@, r@),
    decreases xs@,
{
    let mut out: Vec<Doc> = Vec::new();
    let mut i: usize = 0;
    while i < xs.len()
        invariant
            0 <= i <= xs@.len(),
            out@.len() == i,
            forall|k: int| 0 <= k < i ==> #[trigger] same_doc(xs@[k], out@[k]),
        decreases xs@.len() - i,
    {
        proof {
            assert(decreases_to!(xs@ => xs@[i as int]));
        }
        let c = copy_doc(&xs[i]);
        out.push(c);
        i = i + 1;
    }
    proof {
        lemma_same_docs_index(xs@, out@);
    }
    out
}

impl Clone for Doc {
    /// A copy: the same structure, with texts of the same characters.
    fn clone(&self) -> (r: Self)
        ensures
            same_doc(*self, r),
    {
        copy_doc(self)
    }
}

impl Doc {
    /// A text document.
    pub fn text(text: &str) -> (r: Self)
        ensures
            r matches Doc::Text(s) && s@ == text@,
    {
        proof {
            broadcast use vstd::string::group_string_axioms;
        }
        Doc::Text(text.to_string())
    }

    /// The concatenation of `docs`.
    pub fn concat(docs: Vec<Doc>) -> (r: Self)
        ensures
            r matches Doc::Concat(ds) && ds@ == docs@,
    {
        Doc::Concat(docs)
    }

    /// `doc`, indented by one level.
    pub fn indent(doc: Doc) -> (r: Self)
        ensures
            r matches Doc::Indent(inner) && *inner == doc,
    {
        Doc::Indent(Box::new(doc))
    }

    /// Whether this document is empty (see [doc_is_empty]).
    pub fn is_empty(&self) -> (r: bool)
        ensures
            r == doc_is_empty(*self),
        decreases *self,
    {
        match self {
            Doc::Skip => true,
            Doc::Text(s) => s.as_str().is_empty(),
            Doc::Concat(children) => {
                let mut all = true;
                let mut i: usize = 0;
                assert(children@.skip(0) =~= children@);
                while i < children.len()
                    invariant
                        *self is Concat,
                        self->Concat_0 == *children,
                        0 <= i <= children@.len(),
                        docs_all_empty(children@) == (all && docs_all_empty(children@.skip(i as int))),
                    decreases children@.len() - i,
                {
                    proof {
                        assert(children@.skip(i as int)[0] == children@[i as int]);
                        assert(children@.skip(i as int).drop_first() =~= children@.skip(i + 1));
                    }
                    proof {
                        assert(decreases_to!(*self => self->Concat_0));
                        assert(self->Concat_0 == *children);
                        assert(decreases_to!(*children => children@));
                        assert(decreases_to!(children@ => children@[i as int]));
                        assert(decreases_to!(*self => children@[i as int]));
                    }
                    let e = children[i].is_empty();
                    all = all && e;
                    i = i + 1;
                }
                proof {
                    assert(children@.skip(i as int) =~= Seq::<Doc>::empty());
                    assert(children@.skip(0) =~= children@);
                }
                children.len() == 0 || all
            },
            Doc::Indent(doc) => doc.is_empty(),
            _ => false,
        }
    }
}

} // verus!
