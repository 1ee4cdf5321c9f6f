use vstd::prelude::*;
use vstd::string::StringExecFns;

use crate::pretty::config::{Config, Mode};
use crate::pretty::doc::Doc;

verus! {

/// `n` spaces.
pub open spec fn spaces(n: nat) -> Seq<char> {
    Seq::new(n, |i: int| ' ')
}

/// `unit` repeated `n` times.
pub open spec fn repeat(unit: Seq<char>, n: nat) -> Seq<char>
    decreases n,
{
    if n == 0 {
        Seq::empty()
    } else {
        repeat(unit, (n - 1) as nat) + unit
    }
}

/// The nesting depth of `Indent`s in a document.
pub open spec fn indent_depth(d: Doc) -> nat
    decreases d,
{
    match d {
        Doc::Indent(inner) => 1 + indent_depth(*inner),
        Doc::Concat(ds) => indent_depth_list(ds@),
        Doc::Separated(ds, sep) => {
            let a = indent_depth_list(ds@);
            let b = indent_depth(*sep);
            if a > b { a } else { b }
        },
        _ => 0,
    }
}

pub open spec fn indent_depth_list(ds: Seq<Doc>) -> nat
    decreases ds,
{
    if ds.len() == 0 {
        0
    } else {
        let a = indent_depth(ds[0]);
        let b = indent_depth_list(ds.drop_first());
        if a > b { a } else { b }
    }
}

/// The text a document renders to, in `mode`, with `unit` as one level of indentation and
/// `depth` levels of indentation current.
pub open spec fn rendered(mode: Mode, unit: Seq<char>, depth: nat, d: Doc) -> Seq<char>
    decreases d,
{
    match d {
        Doc::Blankline => match mode {
            Mode::OneLine => Seq::empty(),
            Mode::Pretty => seq!['\n'],
        },
        Doc::Hardline => match mode {
            Mode::OneLine => seq![' '],
            Mode::Pretty => seq!['\n'] + repeat(unit, depth),
        },
        Doc::Indent(inner) => match mode {
            Mode::Pretty => {
                let text = rendered(mode, unit, depth + 1, *inner);
                if text.len() == 0 {
                    Seq::empty()
                } else {
                    unit + text
                }
            },
            Mode::OneLine => rendered(mode, unit, depth, *inner),
        },
        Doc::Text(t) => t@,
        Doc::Concat(ds) => rendered_list(mode, unit, depth, ds@),
        Doc::StmtSep => match mode {
            Mode::Pretty => seq!['\n'] + repeat(unit, depth),
            Mode::OneLine => seq![';'] + repeat(unit, depth),
        },
        Doc::Separated(ds, sep) => rendered_separated(mode, unit, depth, ds@, rendered(mode, unit, depth, *sep)),
        Doc::Skip => Seq::empty(),
    }
}

/// The concatenated renderings of `ds`.
pub open spec fn rendered_list(mode: Mode, unit: Seq<char>, depth: nat, ds: Seq<Doc>) -> Seq<char>
    decreases ds,
{
    if ds.len() == 0 {
        Seq::empty()
    } else {
        rendered(mode, unit, depth, ds[0]) + rendered_list(mode, unit, depth, ds.drop_first())
    }
}

/// The renderings of `ds` with `sep` between each two of them.
pub open spec fn rendered_separated(mode: Mode, unit: Seq<char>, depth: nat, ds: Seq<Doc>, sep: Seq<char>) -> Seq<char>
    decreases ds,
{
    if ds.len() == 0 {
        Seq::empty()
    } else if ds.len() == 1 {
        rendered(mode, unit, depth, ds[0])
    } else {
        rendered_separated(mode, unit, depth, ds.drop_last(), sep) + sep + rendered(mode, unit, depth, ds.last())
    }
}


pub proof fn lemma_indent_depth_list(ds: Seq<Doc>, k: int)
    requires
        0 <= k < ds.len(),
    ensures
        indent_depth(ds[k]) <= indent_depth_list(ds),
    decreases ds.len(),
{
    if k > 0 {
        lemma_indent_depth_list(ds.drop_first(), k - 1);
    }
}


/// Whether no text inside `d` holds a line break.
pub open spec fn texts_without_newline(d: Doc) -> bool
    decreases d,
{
    match d {
        Doc::Text(t) => !t@.contains('\n'),
        Doc::Concat(ds) => texts_without_newline_list(ds@),
        Doc::Indent(inner) => texts_without_newline(*inner),
        Doc::Separated(ds, sep) => texts_without_newline_list(ds@) && texts_without_newline(*sep),
        _ => true,
    }
}

pub open spec fn texts_without_newline_list(ds: Seq<Doc>) -> bool
    decreases ds,
{
    if ds.len() == 0 {
        true
    } else {
        texts_without_newline(ds[0]) && texts_without_newline_list(ds.drop_first())
    }
}

proof fn lemma_repeat_without_newline(unit: Seq<char>, n: nat)
    requires
        !unit.contains('\n'),
    ensures
        !repeat(unit, n).contains('\n'),
    decreases n,
{
    if n > 0 {
        lemma_repeat_without_newline(unit, (n - 1) as nat);
        assert forall|k: int| 0 <= k < repeat(unit, n).len() implies repeat(unit, n)[k] != '\n' by {
            let prev = repeat(unit, (n - 1) as nat);
            if k < prev.len() {
                assert(repeat(unit, n)[k] == prev[k]);
            } else {
                assert(repeat(unit, n)[k] == unit[k - prev.len()]);
            }
        }
    }
}

proof fn lemma_concat_without_newline(a: Seq<char>, b: Seq<char>)
    requires
        !a.contains('\n'),
        !b.contains('\n'),
    ensures
        !(a + b).contains('\n'),
{
    assert forall|k: int| 0 <= k < (a + b).len() implies (a + b)[k] != '\n' by {
        if k < a.len() {
            assert((a + b)[k] == a[k]);
        } else {
            assert((a + b)[k] == b[k - a.len()]);
        }
    }
}

proof fn lemma_one_line_separated(unit: Seq<char>, depth: nat, ds: Seq<Doc>, sep: Seq<char>)
    requires
        !unit.contains('\n'),
        !sep.contains('\n'),
        texts_without_newline_list(ds),
    ensures
        !rendered_separated(Mode::OneLine, unit, depth, ds, sep).contains('\n'),
    decreases ds,
{
    if ds.len() == 1 {
        lemma_texts_without_newline_list_elem(ds, 0);
        law_one_line_has_no_line_breaks(unit, depth, ds[0]);
    } else if ds.len() > 1 {
        lemma_texts_without_newline_list_elem(ds, ds.len() - 1);
        lemma_texts_without_newline_list_prefix(ds, ds.len() - 1);
        assert(ds.take(ds.len() - 1) == ds.drop_last());
        lemma_one_line_separated(unit, depth, ds.drop_last(), sep);
        law_one_line_has_no_line_breaks(unit, depth, ds.last());
        let a = rendered_separated(Mode::OneLine, unit, depth, ds.drop_last(), sep);
        lemma_concat_without_newline(a, sep);
        lemma_concat_without_newline(a + sep, rendered(Mode::OneLine, unit, depth, ds.last()));
    }
}

proof fn lemma_texts_without_newline_list_elem(ds: Seq<Doc>, k: int)
    requires
        texts_without_newline_list(ds),
        0 <= k < ds.len(),
    ensures
        texts_without_newline(ds[k]),
    decreases ds.len(),
{
    if k > 0 {
        lemma_texts_without_newline_list_elem(ds.drop_first(), k - 1);
    }
}

proof fn lemma_texts_without_newline_list_prefix(ds: Seq<Doc>, n: int)
    requires
        texts_without_newline_list(ds),
        0 <= n <= ds.len(),
    ensures
        texts_without_newline_list(ds.take(n)),
    decreases ds.len(),
{
    if n > 0 {
        lemma_texts_without_newline_list_prefix(ds.drop_first(), n - 1);
        assert(ds.take(n).drop_first() =~= ds.drop_first().take(n - 1));
    }
}

proof fn lemma_one_line_list(unit: Seq<char>, depth: nat, ds: Seq<Doc>)
    requires
        !unit.contains('\n'),
        texts_without_newline_list(ds),
    ensures
        !rendered_list(Mode::OneLine, unit, depth, ds).contains('\n'),
    decreases ds,
{
    if ds.len() > 0 {
        law_one_line_has_no_line_breaks(unit, depth, ds[0]);
        lemma_one_line_list(unit, depth, ds.drop_first());
        lemma_concat_without_newline(rendered(Mode::OneLine, unit, depth, ds[0]), rendered_list(Mode::OneLine, unit, depth, ds.drop_first()));
    }
}

/// Rendering in one-line mode introduces no line breaks: the output holds a newline only
/// where a text of the document does.
pub proof fn law_one_line_has_no_line_breaks(unit: Seq<char>, depth: nat, d: Doc)
    requires
        !unit.contains('\n'),
        texts_without_newline(d),
    ensures
        !rendered(Mode::OneLine, unit, depth, d).contains('\n'),
    decreases d,
{
    match d {
        Doc::Concat(ds) => {
            lemma_one_line_list(unit, depth, ds@);
        },
        Doc::Indent(inner) => {
            law_one_line_has_no_line_breaks(unit, depth, *inner);
        },
        Doc::Separated(ds, sep) => {
            law_one_line_has_no_line_breaks(unit, depth, *sep);
            lemma_one_line_separated(unit, depth, ds@, rendered(Mode::OneLine, unit, depth, *sep));
        },
        Doc::StmtSep => {
            lemma_repeat_without_newline(unit, depth);
            lemma_concat_without_newline(seq![';'], repeat(unit, depth));
        },
        _ => {},
    }
}

proof fn lemma_empty_list(mode: Mode, unit: Seq<char>, depth: nat, ds: Seq<Doc>)
    requires
        crate::pretty::doc::docs_all_empty(ds),
    ensures
        rendered_list(mode, unit, depth, ds) == Seq::<char>::empty(),
    decreases ds,
{
    if ds.len() > 0 {
        law_empty_doc_renders_nothing(mode, unit, depth, ds[0]);
        lemma_empty_list(mode, unit, depth, ds.drop_first());
        assert(rendered_list(mode, unit, depth, ds) =~= Seq::<char>::empty());
    }
}

/// A document that [Doc::is_empty] reports empty renders to the empty string, in either
/// mode and at any depth.
pub proof fn law_empty_doc_renders_nothing(mode: Mode, unit: Seq<char>, depth: nat, d: Doc)
    requires
        crate::pretty::doc::doc_is_empty(d),
    ensures
        rendered(mode, unit, depth, d) == Seq::<char>::empty(),
    decreases d,
{
    match d {
        Doc::Concat(ds) => {
            lemma_empty_list(mode, unit, depth, ds@);
        },
        Doc::Indent(inner) => {
            law_empty_doc_renders_nothing(mode, unit, depth + 1, *inner);
            law_empty_doc_renders_nothing(mode, unit, depth, *inner);
        },
        Doc::Text(t) => {
            assert(t@ =~= Seq::<char>::empty());
        },
        _ => {},
    }
}

/// The renderings of two lists of documents one after the other.
pub proof fn lemma_rendered_list_add(mode: Mode, unit: Seq<char>, depth: nat, a: Seq<Doc>, b: Seq<Doc>)
    ensures
        rendered_list(mode, unit, depth, a + b) == rendered_list(mode, unit, depth, a) + rendered_list(mode, unit, depth, b),
    decreases a.len(),
{
    if a.len() == 0 {
        assert(a + b =~= b);
        assert(rendered_list(mode, unit, depth, a) =~= Seq::<char>::empty());
        assert(rendered_list(mode, unit, depth, a) + rendered_list(mode, unit, depth, b) =~= rendered_list(mode, unit, depth, b));
    } else {
        assert((a + b)[0] == a[0]);
        assert((a + b).drop_first() =~= a.drop_first() + b);
        lemma_rendered_list_add(mode, unit, depth, a.drop_first(), b);
        assert(rendered_list(mode, unit, depth, a + b) =~= rendered_list(mode, unit, depth, a) + rendered_list(mode, unit, depth, b));
    }
}

/// A concatenation of the documents `a` followed by `b` renders to the rendering of `a`
/// followed by that of `b`, in either mode and at any depth.
pub proof fn law_concat_renders_in_order(mode: Mode, unit: Seq<char>, depth: nat, d: Doc, a: Seq<Doc>, b: Seq<Doc>)
    requires
        d matches Doc::Concat(v) && v@ == a + b,
    ensures
        rendered(mode, unit, depth, d) == rendered_list(mode, unit, depth, a) + rendered_list(mode, unit, depth, b),
{
    lemma_rendered_list_add(mode, unit, depth, a, b);
}

/// Whether a document holds no [Doc::Separated] anywhere.
pub open spec fn without_separated(d: Doc) -> bool
    decreases d,
{
    match d {
        Doc::Separated(_, _) => false,
        Doc::Concat(ds) => without_separated_list(ds@),
        Doc::Indent(inner) => without_separated(*inner),
        _ => true,
    }
}

/// Whether no document of `ds` holds a [Doc::Separated].
pub open spec fn without_separated_list(ds: Seq<Doc>) -> bool
    decreases ds,
{
    if ds.len() == 0 {
        true
    } else {
        without_separated(ds[0]) && without_separated_list(ds.drop_first())
    }
}

proof fn lemma_pretty_empty_list(unit: Seq<char>, depth: nat, ds: Seq<Doc>)
    requires
        without_separated_list(ds),
    ensures
        crate::pretty::doc::docs_all_empty(ds) <==> rendered_list(Mode::Pretty, unit, depth, ds).len() == 0,
    decreases ds,
{
    if ds.len() > 0 {
        law_empty_is_rendering_nothing(unit, depth, ds[0]);
        lemma_pretty_empty_list(unit, depth, ds.drop_first());
    }
}

/// In pretty mode, a document without [Doc::Separated] is empty ([Doc::is_empty]) exactly
/// when it renders to the empty string.
pub proof fn law_empty_is_rendering_nothing(unit: Seq<char>, depth: nat, d: Doc)
    requires
        without_separated(d),
    ensures
        crate::pretty::doc::doc_is_empty(d) <==> rendered(Mode::Pretty, unit, depth, d).len() == 0,
    decreases d,
{
    match d {
        Doc::Concat(ds) => {
            lemma_pretty_empty_list(unit, depth, ds@);
        },
        Doc::Indent(inner) => {
            law_empty_is_rendering_nothing(unit, depth + 1, *inner);
        },
        _ => {},
    }
}

/// The same documents render alike, in either mode and at any depth; a clone of a
/// document ([Doc::clone]) renders as the document does.
pub proof fn law_same_doc_renders_alike(mode: Mode, unit: Seq<char>, depth: nat, a: Doc, b: Doc)
    requires
        crate::pretty::doc::same_doc(a, b),
    ensures
        rendered(mode, unit, depth, a) == rendered(mode, unit, depth, b),
    decreases a,
{
    match a {
        Doc::Concat(xs) => {
            lemma_same_docs_render(mode, unit, depth, xs@, b->Concat_0@);
        },
        Doc::Indent(x) => {
            law_same_doc_renders_alike(mode, unit, depth + 1, *x, *b->Indent_0);
            law_same_doc_renders_alike(mode, unit, depth, *x, *b->Indent_0);
        },
        Doc::Separated(xs, x) => {
            law_same_doc_renders_alike(mode, unit, depth, *x, *b->Separated_1);
            lemma_same_docs_separated(mode, unit, depth, xs@, b->Separated_0@, rendered(mode, unit, depth, *x));
        },
        Doc::Text(t) => {},
        _ => {},
    }
}

proof fn lemma_same_docs_render(mode: Mode, unit: Seq<char>, depth: nat, xs: Seq<Doc>, ys: Seq<Doc>)
    requires
        crate::pretty::doc::same_docs(xs, ys),
    ensures
        rendered_list(mode, unit, depth, xs) == rendered_list(mode, unit, depth, ys),
    decreases xs,
{
    if xs.len() > 0 {
        law_same_doc_renders_alike(mode, unit, depth, xs[0], ys[0]);
        lemma_same_docs_render(mode, unit, depth, xs.drop_first(), ys.drop_first());
    }
}

proof fn lemma_same_docs_separated(mode: Mode, unit: Seq<char>, depth: nat, xs: Seq<Doc>, ys: Seq<Doc>, sep: Seq<char>)
    requires
        crate::pretty::doc::same_docs(xs, ys),
    ensures
        rendered_separated(mode, unit, depth, xs, sep) == rendered_separated(mode, unit, depth, ys, sep),
    decreases xs,
{
    crate::pretty::doc::lemma_same_docs_index(xs, ys);
    if xs.len() == 1 {
        law_same_doc_renders_alike(mode, unit, depth, xs[0], ys[0]);
    } else if xs.len() > 1 {
        let n = xs.len() - 1;
        assert(crate::pretty::doc::same_doc(xs[n], ys[n]));
        law_same_doc_renders_alike(mode, unit, depth, xs.last(), ys.last());
        crate::pretty::doc::lemma_same_docs_index(xs.drop_last(), ys.drop_last());
        assert forall|i: int| 0 <= i < xs.drop_last().len() implies #[trigger] crate::pretty::doc::same_doc(xs.drop_last()[i], ys.drop_last()[i]) by {
            assert(crate::pretty::doc::same_doc(xs[i], ys[i]));
        }
        lemma_same_docs_separated(mode, unit, depth, xs.drop_last(), ys.drop_last(), sep);
    }
}

/// `n` spaces, as a string.
fn spaces_string(n: usize) -> (r: String)
    ensures
        r@ == spaces(n as nat),
{
    let mut s = String::new();
    let mut k: usize = 0;
    while k < n
        invariant
            k <= n,
            s@ == spaces(k as nat),
        decreases n - k,
    {
        proof {
            reveal_strlit(" ");
        }
        s.append(" ");
        k = k + 1;
        assert(s@ =~= spaces(k as nat));
    }
    s
}

/// Renders [Doc]s as text according to a [Config].
pub struct Renderer {
    config: Config,
    current_indentation: usize,
    full_indent_str: String,
    single_indent_str: String,
}

impl Renderer {
    /// The layout mode.
    pub closed spec fn mode(&self) -> Mode {
        self.config.mode
    }

    /// The configured number of spaces per indentation level.
    pub closed spec fn indent_level(&self) -> usize {
        self.config.indent_level
    }

    /// One level of indentation.
    pub closed spec fn unit(&self) -> Seq<char> {
        self.single_indent_str@
    }

    /// The current number of indentation levels.
    pub closed spec fn depth(&self) -> nat {
        self.current_indentation as nat
    }

    /// The indentation strings agree with the configuration and the current depth.
    pub closed spec fn wf(&self) -> bool {
        &&& self.single_indent_str@ == spaces(self.config.indent_level as nat)
        &&& self.full_indent_str@ == repeat(self.single_indent_str@, self.current_indentation as nat)
    }

    /// `next` has the configuration and depth of `prev`.
    pub open spec fn same_state(prev: Renderer, next: Renderer) -> bool {
        &&& next.wf()
        &&& next.mode() == prev.mode()
        &&& next.indent_level() == prev.indent_level()
        &&& next.unit() == prev.unit()
        &&& next.depth() == prev.depth()
    }

    /// A renderer with the default configuration at depth 0.
    pub fn new() -> (r: Self)
        ensures
            r.wf(),
            r.mode() is Pretty,
            r.indent_level() == 4,
            r.unit() == spaces(4),
            r.depth() == 0,
    {
        let config = Config::default();
        let single_indent_str = spaces_string(config.indent_level);
        let r = Renderer { config, current_indentation: 0, single_indent_str, full_indent_str: String::new() };
        assert(r.full_indent_str@ =~= repeat(r.single_indent_str@, 0));
        r
    }

    /// This renderer with the given configuration.
    #[inline]
    pub fn with_config(self, config: Config) -> (r: Self)
        requires
            self.wf(),
        ensures
            r.wf(),
            r.mode() == config.mode,
            r.indent_level() == config.indent_level,
            r.unit() == spaces(config.indent_level as nat),
            r.depth() == self.depth(),
    {
        let mut this = self;
        this.single_indent_str = spaces_string(config.indent_level);
        this.config = config;
        this.compute_indentation();
        this
    }

    /// Renders `doc` to a new string. The renderer's state is the same afterwards.
    pub fn render(&mut self, doc: &Doc) -> (r: String)
        requires
            old(self).wf(),
            old(self).depth() + indent_depth(*doc) <= usize::MAX,
        ensures
            Self::same_state(*old(self), *final(self)),
            r@ == rendered(old(self).mode(), old(self).unit(), old(self).depth(), *doc),
        decreases *doc, 1nat,
    {
        let mut buf = String::new();
        self.render_to(&mut buf, doc);
        assert(buf@ =~= rendered(old(self).mode(), old(self).unit(), old(self).depth(), *doc));
        buf
    }

    fn render_to(&mut self, buf: &mut String, doc: &Doc)
        requires
            old(self).wf(),
            old(self).depth() + indent_depth(*doc) <= usize::MAX,
        ensures
            Self::same_state(*old(self), *final(self)),
            final(buf)@ == old(buf)@ + rendered(old(self).mode(), old(self).unit(), old(self).depth(), *doc),
        decreases *doc, 0nat,
    {
        let ghost mode = self.mode();
        let ghost unit = self.unit();
        let ghost depth = self.depth();
        proof {
            reveal_strlit("\n");
            reveal_strlit(" ");
            reveal_strlit(";");
        }
        match doc {
            Doc::Blankline => match self.config.mode {
                Mode::OneLine => {
                    assert(buf@ =~= old(buf)@ + Seq::<char>::empty());
                },
                Mode::Pretty => buf.append("\n"),
            },
            Doc::Hardline => match self.config.mode {
                Mode::OneLine => {
                    buf.append(" ");
                },
                Mode::Pretty => {
                    buf.append("\n");
                    buf.append(self.full_indent_str.as_str());
                    assert(buf@ =~= old(buf)@ + (seq!['\n'] + repeat(unit, depth)));
                },
            },
            Doc::Indent(inner) => match self.config.mode {
                Mode::Pretty => {
                    self.bump_indentation();
                    let text = self.render(inner);
                    if !text.as_str().is_empty() {
                        buf.append(self.single_indent_str.as_str());
                        buf.append(text.as_str());
                        assert(buf@ =~= old(buf)@ + (unit + text@));
                    } else {
                        assert(buf@ =~= old(buf)@ + Seq::<char>::empty());
                    }
                    self.pop_indentation();
                },
                Mode::OneLine => self.render_to(buf, inner),
            },
            Doc::Text(t) => buf.append(t.as_str()),
            Doc::Concat(docs) => {
                let ghost ds = docs@;
                let mut i: usize = 0;
                assert(ds.skip(0) =~= ds);
                while i < docs.len()
                    invariant
                        *doc is Concat,
                        doc->Concat_0 == *docs,
                        ds == docs@,
                        0 <= i <= ds.len(),
                        Self::same_state(*old(self), *self),
                        mode == self.mode(),
                        unit == self.unit(),
                        depth == self.depth(),
                        depth + indent_depth(*doc) <= usize::MAX,
                        indent_depth(*doc) == indent_depth_list(ds),
                        old(buf)@ + rendered_list(mode, unit, depth, ds) == buf@ + rendered_list(mode, unit, depth, ds.skip(i as int)),
                    decreases ds.len() - i,
                {
                    proof {
                        assert(decreases_to!(*doc => doc->Concat_0));
                        assert(decreases_to!(*docs => docs@));
                        assert(decreases_to!(docs@ => docs@[i as int]));
                        lemma_indent_depth_list(ds, i as int);
                        assert(ds.skip(i as int)[0] == ds[i as int]);
                        assert(ds.skip(i as int).drop_first() =~= ds.skip(i + 1));
                    }
                    let ghost before = buf@;
                    self.render_to(buf, &docs[i]);
                    i = i + 1;
                    assert(old(buf)@ + rendered_list(mode, unit, depth, ds) =~= buf@ + rendered_list(mode, unit, depth, ds.skip(i as int)));
                }
                assert(ds.skip(i as int) =~= Seq::<Doc>::empty());
                assert(buf@ =~= old(buf)@ + rendered_list(mode, unit, depth, ds));
            },
            Doc::StmtSep => {
                match self.config.mode {
                    Mode::Pretty => buf.append("\n"),
                    Mode::OneLine => buf.append(";"),
                }
                buf.append(self.full_indent_str.as_str());
                assert(buf@ =~= old(buf)@ + rendered(mode, unit, depth, *doc));
            },
            Doc::Separated(docs, sep) => {
                let ghost ds = docs@;
                let ghost sep_text = rendered(mode, unit, depth, **sep);
                let mut i: usize = 0;
                proof {
                    assert(decreases_to!(*doc => *doc->Separated_1));
                    assert(ds.take(0) =~= Seq::<Doc>::empty());
                }
                while i < docs.len()
                    invariant
                        *doc is Separated,
                        doc->Separated_0 == *docs,
                        *doc->Separated_1 == **sep,
                        ds == docs@,
                        0 <= i <= ds.len(),
                        Self::same_state(*old(self), *self),
                        mode == self.mode(),
                        unit == self.unit(),
                        depth == self.depth(),
                        depth + indent_depth(*doc) <= usize::MAX,
                        indent_depth(*doc) >= indent_depth_list(ds),
                        indent_depth(*doc) >= indent_depth(**sep),
                        sep_text == rendered(mode, unit, depth, **sep),
                        buf@ == old(buf)@ + rendered_separated(mode, unit, depth, ds.take(i as int), sep_text),
                    decreases ds.len() - i,
                {
                    proof {
                        assert(decreases_to!(*doc => doc->Separated_0));
                        assert(decreases_to!(*docs => docs@));
                        assert(decreases_to!(docs@ => docs@[i as int]));
                        assert(decreases_to!(*doc => *doc->Separated_1));
                        lemma_indent_depth_list(ds, i as int);
                        assert(ds.take(i + 1).drop_last() =~= ds.take(i as int));
                        assert(ds.take(i + 1).last() == ds[i as int]);
                    }
                    if i != 0 {
                        self.render_to(buf, sep);
                    }
                    self.render_to(buf, &docs[i]);
                    i = i + 1;
                    proof {
                        if i == 1 {
                            assert(ds.take(1) =~= seq![ds[0]]);
                        }
                        assert(buf@ =~= old(buf)@ + rendered_separated(mode, unit, depth, ds.take(i as int), sep_text));
                    }
                }
                assert(ds.take(i as int) =~= ds);
            },
            Doc::Skip => {
                assert(buf@ =~= old(buf)@ + Seq::<char>::empty());
            },
        }
    }

    fn bump_indentation(&mut self)
        requires
            old(self).wf(),
            old(self).depth() < usize::MAX,
        ensures
            final(self).wf(),
            final(self).mode() == old(self).mode(),
            final(self).indent_level() == old(self).indent_level(),
            final(self).unit() == old(self).unit(),
            final(self).depth() == old(self).depth() + 1,
    {
        self.current_indentation = self.current_indentation + 1;
        self.compute_indentation();
    }

    fn pop_indentation(&mut self)
        requires
            old(self).wf(),
            old(self).depth() > 0,
        ensures
            final(self).wf(),
            final(self).mode() == old(self).mode(),
            final(self).indent_level() == old(self).indent_level(),
            final(self).unit() == old(self).unit(),
            final(self).depth() == old(self).depth() - 1,
    {
        self.current_indentation = self.current_indentation - 1;
        self.compute_indentation();
    }

    fn compute_indentation(&mut self)
        requires
            old(self).single_indent_str@ == spaces(old(self).config.indent_level as nat),
        ensures
            final(self).wf(),
            final(self).config == old(self).config,
            final(self).single_indent_str == old(self).single_indent_str,
            final(self).current_indentation == old(self).current_indentation,
    {
        let mut full = String::new();
        let mut k: usize = 0;
        while k < self.current_indentation
            invariant
                k <= self.current_indentation,
                full@ == repeat(self.single_indent_str@, k as nat),
            decreases self.current_indentation - k,
        {
            full.append(self.single_indent_str.as_str());
            k = k + 1;
        }
        self.full_indent_str = full;
    }
}

impl Default for Renderer {
    /// A renderer with the default configuration (see [Renderer::new]).
    fn default() -> (r: Self)
        ensures
            r.wf(),
            r.mode() is Pretty,
            r.indent_level() == 4,
            r.unit() == spaces(4),
            r.depth() == 0,
    {
        Self::new()
    }
}

/// Rendering leaves the renderer's configuration and depth as they were
/// ([Renderer::render]), so rendering a document again gives the same text.
pub proof fn law_render_again_gives_the_same(prev: Renderer, next: Renderer, d: Doc)
    requires
        Renderer::same_state(prev, next),
    ensures
        rendered(next.mode(), next.unit(), next.depth(), d) == rendered(prev.mode(), prev.unit(), prev.depth(), d),
{
}

/// A renderer in pretty mode renders a document without [Doc::Separated] to the empty
/// string exactly when the document is empty ([Doc::is_empty]).
pub proof fn law_pretty_render_empty_iff_is_empty(r: Renderer, d: Doc)
    requires
        r.mode() == Mode::Pretty,
        without_separated(d),
    ensures
        crate::pretty::doc::doc_is_empty(d) <==> rendered(r.mode(), r.unit(), r.depth(), d).len() == 0,
{
    law_empty_is_rendering_nothing(r.unit(), r.depth(), d);
}

} // verus!
