use std::rc::Rc;
use vstd::prelude::*;

use vstd::string::StringSliceAdditionalSpecFns;

use crate::span::{index_str, Span};

verus! {

/// The index of a file in a [SourceCache].
pub type FileId = usize;

/// A named source text.
pub struct SourceFile<'a> {
    pub name: &'a str,
    pub data: &'a str,
}

impl<'a> SourceFile<'a> {
    /// A source file with the given name and text.
    pub fn new(name: &'a str, data: &'a str) -> (r: Self)
        ensures
            r.name == name,
            r.data == data,
    {
        SourceFile { name, data }
    }

    /// A source text that does not come from a file; it is named `<memory>`.
    pub fn from_memory(data: &'a str) -> (r: Self)
        ensures
            r.name@ == "<memory>"@,
            r.data == data,
    {
        Self::new("<memory>", data)
    }

    /// This source file under another name.
    #[inline]
    pub fn with_name(self, name: &'a str) -> (r: Self)
        ensures
            r.name == name,
            r.data == self.data,
    {
        let mut this = self;
        this.name = name;
        this
    }
}

impl<'a> From<&'a str> for SourceFile<'a> {
    /// A source text of unknown origin; it is named `<unknown>`.
    fn from(value: &'a str) -> (r: Self) {
        SourceFile { name: "<unknown>", data: value }
    }
}

impl<'a> vstd::std_specs::convert::FromSpecImpl<&'a str> for SourceFile<'a> {
    open spec fn obeys_from_spec() -> bool {
        true
    }

    open spec fn from_spec(value: &'a str) -> Self {
        SourceFile { name: "<unknown>", data: value }
    }
}

/// A span in a particular file.
#[derive(Debug, Clone, Copy, PartialEq, Eq, Structural)]
pub struct SourceSpan {
    pub file_id: FileId,
    span: Span,
}

impl SourceSpan {
    /// The span `span` in file `file_id`.
    pub fn new(file_id: usize, span: Span) -> (r: Self)
        ensures
            r.file_id_spec() == file_id,
            r.as_span_spec() == span,
    {
        SourceSpan { file_id, span }
    }

    /// The file the span is in.
    pub closed spec fn file_id_spec(&self) -> FileId {
        self.file_id
    }

    /// The span within the file.
    pub closed spec fn as_span_spec(&self) -> Span {
        self.span
    }

    /// Replaces the span within the file, keeping the file.
    pub fn set_span(&mut self, span: Span)
        ensures
            final(self).as_span_spec() == span,
            final(self).file_id_spec() == old(self).file_id_spec(),
    {
        self.span = span;
    }

    /// The span within the file.
    pub fn as_span(&self) -> (r: Span)
        ensures
            r == self.as_span_spec(),
    {
        self.span
    }

    /// The file this span is in.
    pub fn source(&self) -> (r: &FileId)
        ensures
            *r == self.file_id_spec(),
    {
        &self.file_id
    }

    /// The start offset of the span.
    pub fn start(&self) -> (r: usize)
        ensures
            r == self.as_span_spec().start,
    {
        self.span.start
    }

    /// The exclusive end offset of the span.
    pub fn end(&self) -> (r: usize)
        ensures
            r == self.as_span_spec().end,
    {
        self.span.end
    }
}

impl core::ops::Deref for SourceSpan {
    type Target = Span;

    /// The span within the file.
    fn deref(&self) -> (r: &Span)
        ensures
            *r == self.as_span_spec(),
    {
        &self.span
    }
}

/// The files of a compilation, each with its name and text, indexed by [FileId].
pub struct SourceCache {
    files: Vec<(Rc<String>, Rc<String>)>,
}

impl SourceCache {
    /// The names and texts of the files, in the order they were added.
    pub closed spec fn files(&self) -> Seq<(Seq<char>, Seq<char>)> {
        self.files@.map_values(|f: (Rc<String>, Rc<String>)| (f.0@, f.1@))
    }

    /// An empty cache.
    pub fn new() -> (r: Self)
        ensures
            r.files() == Seq::<(Seq<char>, Seq<char>)>::empty(),
    {
        let r = SourceCache { files: Vec::new() };
        assert(r.files() =~= Seq::<(Seq<char>, Seq<char>)>::empty());
        r
    }

    /// Adds a file and returns its id, which is the number of files added before it.
    pub fn add(&mut self, name: String, source: String) -> (r: FileId)
        requires
            old(self).files().len() < usize::MAX,
        ensures
            r == old(self).files().len(),
            final(self).files() == old(self).files().push((name@, source@)),
    {
        let ghost n = name@;
        let ghost t = source@;
        self.files.push((Rc::new(name), Rc::new(source)));
        assert(self.files() =~= old(self).files().push((n, t)));
        self.files.len() - 1
    }

    /// The text of file `file_id`, if there is such a file.
    pub fn source_of(&self, file_id: FileId) -> (r: Option<Rc<String>>)
        ensures
            file_id < self.files().len() ==> r is Some && r->0@ == self.files()[file_id as int].1,
            file_id >= self.files().len() ==> r is None,
    {
        if file_id < self.files.len() {
            Some(Rc::clone(&self.files[file_id].1))
        } else {
            None
        }
    }

    /// The name of file `file_id`, if there is such a file.
    pub fn name_of(&self, file_id: FileId) -> (r: Option<Rc<String>>)
        ensures
            file_id < self.files().len() ==> r is Some && r->0@ == self.files()[file_id as int].0,
            file_id >= self.files().len() ==> r is None,
    {
        if file_id < self.files.len() {
            Some(Rc::clone(&self.files[file_id].0))
        } else {
            None
        }
    }
}

/// The part of `source` that `span` covers, like indexing a `str` with the span.
/// The span must lie on character boundaries of `source`.
pub fn index_source_str(source: &str, span: SourceSpan) -> (r: &str)
    requires
        span.as_span_spec().start <= span.as_span_spec().end <= source.spec_bytes().len(),
        vstd::utf8::is_char_boundary(source.spec_bytes(), span.as_span_spec().start as int),
        vstd::utf8::is_char_boundary(source.spec_bytes(), span.as_span_spec().end as int),
    ensures
        r.spec_bytes() == source.spec_bytes().subrange(span.as_span_spec().start as int, span.as_span_spec().end as int),
{
    index_str(source, span.as_span())
}

/// Adding a file keeps the files added before, and the id it hands out gives back the
/// name and text that were added: [SourceCache::add] followed by [SourceCache::name_of]
/// or [SourceCache::source_of] on the new id.
pub proof fn law_cache_gives_back_what_was_added(files: Seq<(Seq<char>, Seq<char>)>, name: Seq<char>, text: Seq<char>)
    ensures
        files.push((name, text)).len() == files.len() + 1,
        files.push((name, text))[files.len() as int] == (name, text),
        forall|i: int| 0 <= i < files.len() ==> #[trigger] files.push((name, text))[i] == files[i],
{
}

} // verus!
