//! The two inputs of a run: the bundle of source files, and the catalog of
//! the definitions to look for in them.

use vstd::prelude::*;

verus! {

/// One versioned snapshot of all source files: the path of each file, and at
/// the same index its content.
#[derive(Debug, Clone, PartialEq, Eq)]
pub struct JavascriptMap {
    pub sources: Vec<String>,
    pub sources_content: Vec<String>,
}

impl JavascriptMap {
    /// Every path has its content.
    pub open spec fn well_formed(&self) -> bool {
        self.sources@.len() == self.sources_content@.len()
    }
}

/// The kind of a definition.
#[derive(Debug, Clone, Copy, PartialEq, Eq)]
pub enum JavascriptContentType {
    Class,
    MapEnumToStatic,
    Function,
}

/// One entry of the catalog: the anchor at which a definition starts, and its
/// kind.
#[derive(Debug, Clone, PartialEq, Eq)]
pub struct JavascriptDefinition {
    pub start: String,
    pub type_: JavascriptContentType,
}

/// The model of a `JavascriptDefinition`.
pub struct JavascriptDefinitionView {
    pub start: Seq<char>,
    pub type_: JavascriptContentType,
}

impl View for JavascriptDefinition {
    type V = JavascriptDefinitionView;

    open spec fn view(&self) -> JavascriptDefinitionView {
        JavascriptDefinitionView { start: self.start@, type_: self.type_ }
    }
}

impl DeepView for JavascriptDefinition {
    type V = JavascriptDefinitionView;

    open spec fn deep_view(&self) -> JavascriptDefinitionView {
        self@
    }
}

/// The definitions that the catalog lists for one source file, in order.
#[derive(Debug, Clone, PartialEq, Eq)]
pub struct JavascriptFile {
    pub source: String,
    pub definitions: Vec<JavascriptDefinition>,
}

/// The model of a `JavascriptFile`.
pub struct JavascriptFileView {
    pub source: Seq<char>,
    pub definitions: Seq<JavascriptDefinitionView>,
}

impl View for JavascriptFile {
    type V = JavascriptFileView;

    open spec fn view(&self) -> JavascriptFileView {
        JavascriptFileView { source: self.source@, definitions: self.definitions.deep_view() }
    }
}

impl DeepView for JavascriptFile {
    type V = JavascriptFileView;

    open spec fn deep_view(&self) -> JavascriptFileView {
        self@
    }
}

/// The index of the entry for `source` among `files`, searched from `from` on;
/// the length of `files` where there is none.
pub open spec fn file_index(files: Seq<JavascriptFileView>, source: Seq<char>, from: int) -> int
    decreases files.len() - from,
{
    if from < 0 || from >= files.len() {
        files.len() as int
    } else if files[from].source == source {
        from
    } else {
        file_index(files, source, from + 1)
    }
}

/// The definitions listed for `source`, `None` where the catalog does not
/// know the file.
pub open spec fn definitions_for(files: Seq<JavascriptFileView>, source: Seq<char>) -> Option<
    Seq<JavascriptDefinitionView>,
> {
    let i = file_index(files, source, 0);
    if 0 <= i < files.len() {
        Some(files[i].definitions)
    } else {
        None
    }
}

/// No source file is listed twice.
pub open spec fn distinct_sources(files: Seq<JavascriptFileView>) -> bool {
    forall|i: int, j: int|
        0 <= i < j < files.len() ==> (#[trigger] files[i]).source != (#[trigger] files[j]).source
}

/// The catalog: for each source file it knows, the definitions to look for in
/// it. It is curated by hand and does not depend on the bundle.
pub struct JavascriptFileContents {
    files: Vec<JavascriptFile>,
}

impl View for JavascriptFileContents {
    type V = Seq<JavascriptFileView>;

    closed spec fn view(&self) -> Seq<JavascriptFileView> {
        self.files.deep_view()
    }
}

impl JavascriptFileContents {
    /// The catalog's invariant: no source file is listed twice.
    #[verifier::type_invariant]
    closed spec fn well_formed(self) -> bool {
        distinct_sources(self@)
    }

    /// The empty catalog.
    pub fn new() -> (r: JavascriptFileContents)
        ensures
            r@ == Seq::<JavascriptFileView>::empty(),
    {
        let r = JavascriptFileContents { files: Vec::new() };
        assert(r@ =~= Seq::<JavascriptFileView>::empty());
        r
    }

    /// The number of source files listed.
    pub fn len(&self) -> (n: usize)
        ensures
            n == self@.len(),
            distinct_sources(self@),
    {
        proof {
            use_type_invariant(self);
        }
        self.files.len()
    }

    /// Where the entry for `source` stands, or the number of entries.
    fn index_of(&self, source: &str) -> (i: usize)
        ensures
            i == file_index(self@, source@, 0),
            i <= self@.len(),
            i < self@.len() ==> self@[i as int].source == source@,
    {
        let wanted = source.to_owned();
        let mut i: usize = 0;
        while i < self.files.len()
            invariant
                i <= self.files.len(),
                wanted@ == source@,
                file_index(self@, source@, 0) == file_index(self@, source@, i as int),
            decreases self.files.len() - i,
        {
            if self.files[i].source.eq(&wanted) {
                return i;
            }
            i += 1;
        }
        i
    }

    /// The definitions listed for `source`.
    pub fn get(&self, source: &str) -> (r: Option<&Vec<JavascriptDefinition>>)
        ensures
            match r {
                Some(d) => definitions_for(self@, source@) == Some(d.deep_view()),
                None => definitions_for(self@, source@) is None,
            },
    {
        let i = self.index_of(source);
        if i < self.files.len() {
            Some(&self.files[i].definitions)
        } else {
            None
        }
    }

    /// Lists `definitions` for `source`, in place of what was listed for it
    /// before. Returns whether the file was listed before.
    pub fn insert(&mut self, source: String, definitions: Vec<JavascriptDefinition>) -> (known:
        bool)
        ensures
            definitions_for(final(self)@, source@) == Some(definitions.deep_view()),
            forall|other: Seq<char>|
                other != source@ ==> definitions_for(final(self)@, other) == definitions_for(
                    old(self)@,
                    other,
                ),
            known == (definitions_for(old(self)@, source@) is Some),
            final(self)@.len() == old(self)@.len() + if known {
                0int
            } else {
                1int
            },
    {
        proof {
            use_type_invariant(&*self);
        }
        let i = self.index_of(source.as_str());
        let entry = JavascriptFile { source, definitions };
        let ghost before = self@;
        let ghost added = entry@;
        let mut files: Vec<JavascriptFile> = Vec::new();
        std::mem::swap(&mut self.files, &mut files);
        let known = i < files.len();
        if known {
            files.set(i, entry);
            proof {
                assert(files.deep_view() =~= before.update(i as int, added));
                lemma_file_index_update(before, i as int, added);
            }
        } else {
            files.push(entry);
            proof {
                assert(files.deep_view() =~= before.push(added));
                lemma_file_index_push(before, added);
            }
        }
        self.files = files;
        known
    }
}

/// What `file_index` returns is the first entry for `source` from `from` on.
pub proof fn lemma_file_index(files: Seq<JavascriptFileView>, source: Seq<char>, from: int)
    requires
        0 <= from <= files.len(),
    ensures
        from <= file_index(files, source, from) <= files.len(),
        file_index(files, source, from) < files.len() ==> files[file_index(
            files,
            source,
            from,
        )].source == source,
        forall|k: int| from <= k < file_index(files, source, from) ==> files[k].source != source,
    decreases files.len() - from,
{
    if from < files.len() && files[from].source != source {
        lemma_file_index(files, source, from + 1);
    }
}

proof fn lemma_file_index_update(files: Seq<JavascriptFileView>, i: int, entry: JavascriptFileView)
    requires
        0 <= i < files.len(),
        distinct_sources(files),
        files[i].source == entry.source,
    ensures
        distinct_sources(files.update(i, entry)),
        definitions_for(files.update(i, entry), entry.source) == Some(entry.definitions),
        forall|other: Seq<char>|
            other != entry.source ==> definitions_for(files.update(i, entry), other)
                == definitions_for(files, other),
{
    let after = files.update(i, entry);
    lemma_file_index(after, entry.source, 0);
    lemma_file_index(files, entry.source, 0);
    assert(after[i].source == entry.source);
    assert forall|other: Seq<char>| other != entry.source implies definitions_for(after, other)
        == definitions_for(files, other) by {
        lemma_file_index(after, other, 0);
        lemma_file_index(files, other, 0);
        let a = file_index(after, other, 0);
        let b = file_index(files, other, 0);
        if a < after.len() {
            assert(files[a].source == other);
        }
        if b < files.len() {
            assert(after[b].source == other);
        }
    }
}

proof fn lemma_file_index_push(files: Seq<JavascriptFileView>, entry: JavascriptFileView)
    requires
        distinct_sources(files),
        file_index(files, entry.source, 0) == files.len(),
    ensures
        distinct_sources(files.push(entry)),
        definitions_for(files.push(entry), entry.source) == Some(entry.definitions),
        forall|other: Seq<char>|
            other != entry.source ==> definitions_for(files.push(entry), other) == definitions_for(
                files,
                other,
            ),
{
    let after = files.push(entry);
    lemma_file_index(files, entry.source, 0);
    lemma_file_index(after, entry.source, 0);
    assert(after[files.len() as int].source == entry.source);
    assert forall|k: int| 0 <= k < files.len() implies after[k] == files[k] by {}
    assert forall|other: Seq<char>| other != entry.source implies definitions_for(after, other)
        == definitions_for(files, other) by {
        lemma_file_index(after, other, 0);
        lemma_file_index(files, other, 0);
        let a = file_index(after, other, 0);
        let b = file_index(files, other, 0);
        if a < files.len() {
            assert(files[a].source == other);
        }
        if b < files.len() {
            assert(after[b].source == other);
        }
    }
}

} // verus!
