//! A whole run: deals with every definition that the catalog lists for the
//! sources of a bundle.

use vstd::prelude::*;
use crate::deserialize::{
    definitions_for,
    JavascriptDefinition,
    JavascriptDefinitionView,
    JavascriptFileContents,
    JavascriptFileView,
    JavascriptMap,
};
use crate::extract::Drift;
use crate::gen_class::RustClassView;
use crate::generate::{step, wanted_path_of, Artifact, ArtifactView, RustCodeGenerator};
use crate::text::text_of;
use crate::utility::{definition_of, get_definition};

verus! {

/// A drift, and the definition at which the run met it: the index of the
/// source file in the bundle, and the index of the definition among those
/// that the catalog lists for that file.
#[derive(Debug, Clone, Copy, PartialEq, Eq)]
pub struct DriftAt {
    pub source: usize,
    pub definition: usize,
    pub drift: Drift,
}

/// The model of a `DriftAt`.
pub struct DriftAtView {
    pub source: int,
    pub definition: int,
    pub drift: Drift,
}

impl View for DriftAt {
    type V = DriftAtView;

    open spec fn view(&self) -> DriftAtView {
        DriftAtView {
            source: self.source as int,
            definition: self.definition as int,
            drift: self.drift,
        }
    }
}

/// Why a run was given up.
#[derive(Debug, Clone, Copy, PartialEq, Eq)]
pub enum UnpackError {
    /// The bundle does not hold one content for each source path.
    MalformedInput,
    /// The catalog and the source have drifted apart.
    CatalogDrift(DriftAt),
}

/// The model of an `UnpackError`.
pub enum UnpackErrorView {
    MalformedInput,
    CatalogDrift(DriftAtView),
}

impl View for UnpackError {
    type V = UnpackErrorView;

    open spec fn view(&self) -> UnpackErrorView {
        match self {
            UnpackError::MalformedInput => UnpackErrorView::MalformedInput,
            UnpackError::CatalogDrift(at) => UnpackErrorView::CatalogDrift(at@),
        }
    }
}

/// What a run has done so far: the classes met, and the artifacts to write.
pub struct RunView {
    pub classes: Seq<RustClassView>,
    pub artifacts: Seq<ArtifactView>,
}

/// What a finished run hands back: the generator, which knows the classes met
/// and writes the index, and the artifacts to write, in order.
pub struct Unpacked {
    pub generator: RustCodeGenerator,
    pub artifacts: Vec<Artifact>,
}

impl View for Unpacked {
    type V = RunView;

    open spec fn view(&self) -> RunView {
        RunView { classes: self.generator@.classes, artifacts: self.artifacts.deep_view() }
    }
}

/// Where the first file at `path` stands among `on_disk`, searched from
/// `from` on; the length of `on_disk` where there is none.
pub open spec fn disk_index(on_disk: Seq<ArtifactView>, path: Seq<char>, from: int) -> int
    decreases on_disk.len() - from,
{
    if from < 0 || from >= on_disk.len() {
        on_disk.len() as int
    } else if on_disk[from].path == path {
        from
    } else {
        disk_index(on_disk, path, from + 1)
    }
}

/// What stood at `path` before the run.
pub open spec fn existing_at(on_disk: Seq<ArtifactView>, path: Option<Seq<char>>) -> Option<
    Seq<char>,
> {
    match path {
        Some(p) => {
            let i = disk_index(on_disk, p, 0);
            if 0 <= i < on_disk.len() {
                Some(on_disk[i].text)
            } else {
                None
            }
        },
        None => None,
    }
}

/// What dealing with one definition of a source file makes of the run: the
/// definition is located in the file's content, then handed to the generator
/// with what stood at the path of its artifact before the run.
pub open spec fn definition_step(
    run: RunView,
    version: Seq<char>,
    definition: JavascriptDefinitionView,
    content: Seq<char>,
    on_disk: Seq<ArtifactView>,
) -> Result<RunView, Drift> {
    match definition_of(definition.start, content) {
        None => Err(Drift::AnchorNotFound),
        Some(block) => match step(
            run.classes,
            version,
            definition,
            block,
            existing_at(on_disk, wanted_path_of(definition)),
        ) {
            Err(e) => Err(e),
            Ok((classes, artifact)) => Ok(
                RunView {
                    classes,
                    artifacts: match artifact {
                        Some(a) => run.artifacts.push(a),
                        None => run.artifacts,
                    },
                },
            ),
        },
    }
}

/// The run after the definitions `definitions[from..]` of one source file,
/// dealt with in order; the first drift ends it, and comes back with the index
/// of its definition.
pub open spec fn definitions_run(
    run: RunView,
    version: Seq<char>,
    definitions: Seq<JavascriptDefinitionView>,
    from: int,
    content: Seq<char>,
    on_disk: Seq<ArtifactView>,
) -> Result<RunView, (int, Drift)>
    decreases definitions.len() - from,
{
    if from < 0 || from >= definitions.len() {
        Ok(run)
    } else {
        match definition_step(run, version, definitions[from], content, on_disk) {
            Err(e) => Err((from, e)),
            Ok(next) => definitions_run(next, version, definitions, from + 1, content, on_disk),
        }
    }
}

/// The run after the source files `sources[from..]`, dealt with in order. A
/// file that the catalog does not know is passed over.
pub open spec fn sources_run(
    run: RunView,
    version: Seq<char>,
    sources: Seq<Seq<char>>,
    contents: Seq<Seq<char>>,
    from: int,
    catalog: Seq<JavascriptFileView>,
    on_disk: Seq<ArtifactView>,
) -> Result<RunView, DriftAtView>
    decreases sources.len() - from,
{
    if from < 0 || from >= sources.len() || from >= contents.len() {
        Ok(run)
    } else {
        let after = match definitions_for(catalog, sources[from]) {
            Some(definitions) => definitions_run(
                run,
                version,
                definitions,
                0,
                contents[from],
                on_disk,
            ),
            None => Ok(run),
        };
        match after {
            Err((definition, drift)) => Err(DriftAtView { source: from, definition, drift }),
            Ok(next) => sources_run(next, version, sources, contents, from + 1, catalog, on_disk),
        }
    }
}

/// A whole run over a bundle.
pub open spec fn unpacked(
    sources: Seq<Seq<char>>,
    contents: Seq<Seq<char>>,
    catalog: Seq<JavascriptFileView>,
    version: Seq<char>,
    on_disk: Seq<ArtifactView>,
) -> Result<RunView, UnpackErrorView> {
    if sources.len() != contents.len() {
        Err(UnpackErrorView::MalformedInput)
    } else {
        match sources_run(
            RunView { classes: Seq::empty(), artifacts: Seq::empty() },
            version,
            sources,
            contents,
            0,
            catalog,
            on_disk,
        ) {
            Ok(run) => Ok(run),
            Err(at) => Err(UnpackErrorView::CatalogDrift(at)),
        }
    }
}

/// What stood at `path` before the run.
fn existing<'a>(on_disk: &'a Vec<Artifact>, path: &String) -> (r: Option<&'a str>)
    ensures
        text_of(r) == existing_at(on_disk.deep_view(), Some(path@)),
{
    let mut i: usize = 0;
    while i < on_disk.len()
        invariant
            i <= on_disk.len(),
            disk_index(on_disk.deep_view(), path@, 0) == disk_index(
                on_disk.deep_view(),
                path@,
                i as int,
            ),
        decreases on_disk.len() - i,
    {
        assert(on_disk.deep_view()[i as int] == on_disk@[i as int]@);
        if on_disk[i].path.eq(path) {
            return Some(on_disk[i].text.as_str());
        }
        i += 1;
    }
    None
}

/// Deals with one definition of a source file.
fn unpack_definition(
    generator: &mut RustCodeGenerator,
    artifacts: &mut Vec<Artifact>,
    definition: &JavascriptDefinition,
    content: &str,
    on_disk: &Vec<Artifact>,
) -> (r: Result<(), Drift>)
    ensures
        final(generator)@.version == old(generator)@.version,
        match r {
            Ok(_) => definition_step(
                RunView { classes: old(generator)@.classes, artifacts: old(artifacts).deep_view() },
                old(generator)@.version,
                definition@,
                content@,
                on_disk.deep_view(),
            ) == Ok::<RunView, Drift>(
                RunView {
                    classes: final(generator)@.classes,
                    artifacts: final(artifacts).deep_view(),
                },
            ),
            Err(e) => definition_step(
                RunView { classes: old(generator)@.classes, artifacts: old(artifacts).deep_view() },
                old(generator)@.version,
                definition@,
                content@,
                on_disk.deep_view(),
            ) == Err::<RunView, Drift>(e),
        },
{
    let block = match get_definition(definition.start.as_str(), content) {
        Some(block) => block,
        None => {
            return Err(Drift::AnchorNotFound);
        },
    };
    let before = match RustCodeGenerator::wanted_path(definition) {
        Some(path) => existing(on_disk, &path),
        None => None,
    };
    match generator.generate(definition, block, before) {
        Err(e) => Err(e),
        Ok(Some(artifact)) => {
            let ghost written = artifacts.deep_view();
            let ghost added = artifact@;
            artifacts.push(artifact);
            assert(artifacts.deep_view() =~= written.push(added));
            Ok(())
        },
        Ok(None) => Ok(()),
    }
}

/// Runs over a bundle: for each source file that the catalog knows, in the
/// bundle's order, and for each definition listed for it, in the catalog's
/// order, locates the definition and drafts its artifact. `on_disk` holds the
/// artifacts that stood at the wanted paths before the run.
///
/// Nothing is written here: the artifacts to write come back, in order, with
/// the generator that writes the index. The first drift gives the whole run
/// up: it comes back with the place of the definition at which it was met,
/// and nothing comes back to write. A bundle that does not hold one content
/// for each path is refused before anything is looked at.
pub fn unpack_map_js(
    javascript_map: &JavascriptMap,
    javascript_contents: &JavascriptFileContents,
    version: &str,
    on_disk: &Vec<Artifact>,
) -> (r: Result<Unpacked, UnpackError>)
    ensures
        match r {
            Ok(done) => unpacked(
                javascript_map.sources.deep_view(),
                javascript_map.sources_content.deep_view(),
                javascript_contents@,
                version@,
                on_disk.deep_view(),
            ) == Ok::<RunView, UnpackErrorView>(done@) && done.generator@.version == version@,
            Err(e) => unpacked(
                javascript_map.sources.deep_view(),
                javascript_map.sources_content.deep_view(),
                javascript_contents@,
                version@,
                on_disk.deep_view(),
            ) == Err::<RunView, UnpackErrorView>(e@),
        },
        r matches Err(UnpackError::MalformedInput) <==> !javascript_map.well_formed(),
{
    if javascript_map.sources.len() != javascript_map.sources_content.len() {
        return Err(UnpackError::MalformedInput);
    }
    let mut generator = RustCodeGenerator::new(version.to_owned());
    let mut artifacts: Vec<Artifact> = Vec::new();
    let ghost sources = javascript_map.sources.deep_view();
    let ghost contents = javascript_map.sources_content.deep_view();
    let ghost catalog = javascript_contents@;
    let ghost disk = on_disk.deep_view();
    let ghost start = RunView { classes: Seq::empty(), artifacts: Seq::empty() };
    assert(artifacts.deep_view() =~= Seq::empty());
    let mut index: usize = 0;
    while index < javascript_map.sources.len()
        invariant
            index <= javascript_map.sources.len(),
            javascript_map.sources.len() == javascript_map.sources_content.len(),
            sources == javascript_map.sources.deep_view(),
            contents == javascript_map.sources_content.deep_view(),
            catalog == javascript_contents@,
            disk == on_disk.deep_view(),
            generator@.version == version@,
            start == (RunView { classes: Seq::empty(), artifacts: Seq::empty() }),
            sources_run(start, version@, sources, contents, 0, catalog, disk) == sources_run(
                RunView { classes: generator@.classes, artifacts: artifacts.deep_view() },
                version@,
                sources,
                contents,
                index as int,
                catalog,
                disk,
            ),
        decreases javascript_map.sources.len() - index,
    {
        let source = javascript_map.sources[index].as_str();
        let content = javascript_map.sources_content[index].as_str();
        assert(sources[index as int] == source@);
        assert(contents[index as int] == content@);
        if let Some(data) = javascript_contents.get(source) {
            let ghost definitions = data.deep_view();
            let ghost entered = RunView {
                classes: generator@.classes,
                artifacts: artifacts.deep_view(),
            };
            let mut i: usize = 0;
            while i < data.len()
                invariant
                    i <= data.len(),
                    definitions == data.deep_view(),
                    disk == on_disk.deep_view(),
                    generator@.version == version@,
                    index < sources.len() == contents.len(),
                    start == (RunView { classes: Seq::empty(), artifacts: Seq::empty() }),
                    sources == javascript_map.sources.deep_view(),
                    contents == javascript_map.sources_content.deep_view(),
                    catalog == javascript_contents@,
                    content@ == contents[index as int],
                    definitions_for(catalog, sources[index as int]) == Some(definitions),
                    sources_run(start, version@, sources, contents, 0, catalog, disk)
                        == sources_run(
                        entered,
                        version@,
                        sources,
                        contents,
                        index as int,
                        catalog,
                        disk,
                    ),
                    definitions_run(entered, version@, definitions, 0, content@, disk)
                        == definitions_run(
                        RunView { classes: generator@.classes, artifacts: artifacts.deep_view() },
                        version@,
                        definitions,
                        i as int,
                        content@,
                        disk,
                    ),
                decreases data.len() - i,
            {
                assert(definitions[i as int] == data@[i as int]@);
                match unpack_definition(&mut generator, &mut artifacts, &data[i], content, on_disk) {
                    Ok(_) => {},
                    Err(drift) => {
                        let at = DriftAt { source: index, definition: i, drift };
                        assert(definitions_run(entered, version@, definitions, 0, content@, disk)
                            == Err::<RunView, (int, Drift)>((i as int, drift)));
                        assert(sources_run(start, version@, sources, contents, 0, catalog, disk)
                            == Err::<RunView, DriftAtView>(at@));
                        return Err(UnpackError::CatalogDrift(at));
                    },
                }
                i += 1;
            }
        }
        index += 1;
    }
    Ok(Unpacked { generator, artifacts })
}

} // verus!
