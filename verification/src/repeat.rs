//! What holds of every run: finished work is spared, and a run can be
//! repeated.

use vstd::prelude::*;
use crate::deserialize::{definitions_for, JavascriptDefinitionView, JavascriptFileView};
use crate::emit::lemma_rendered_is_unfinished;
use crate::extract::extracted;
use crate::gate::{decision, Decision};
use crate::generate::{class_name_of, wanted_path_of, ArtifactView};
use crate::unpack::{
    definition_step, definitions_run, existing_at, sources_run, unpacked, RunView,
};
use crate::utility::definition_of;

verus! {

/// None of `artifacts` goes to a path at which a complete artifact stood
/// before the run.
pub open spec fn spares_finished_work(
    artifacts: Seq<ArtifactView>,
    on_disk: Seq<ArtifactView>,
    version: Seq<char>,
) -> bool {
    forall|k: int|
        0 <= k < artifacts.len() ==> decision(
            existing_at(on_disk, Some((#[trigger] artifacts[k]).path)),
            version,
        ) == Decision::Regenerate
}

proof fn lemma_definitions_spare(
    run: RunView,
    version: Seq<char>,
    definitions: Seq<JavascriptDefinitionView>,
    from: int,
    content: Seq<char>,
    on_disk: Seq<ArtifactView>,
)
    requires
        0 <= from,
        spares_finished_work(run.artifacts, on_disk, version),
    ensures
        match definitions_run(run, version, definitions, from, content, on_disk) {
            Ok(done) => spares_finished_work(done.artifacts, on_disk, version),
            Err(_) => true,
        },
    decreases definitions.len() - from,
{
    if from < definitions.len() {
        match definition_step(run, version, definitions[from], content, on_disk) {
            Err(_) => {},
            Ok(next) => {
                lemma_definitions_spare(next, version, definitions, from + 1, content, on_disk);
            },
        }
    }
}

proof fn lemma_sources_spare(
    run: RunView,
    version: Seq<char>,
    sources: Seq<Seq<char>>,
    contents: Seq<Seq<char>>,
    from: int,
    catalog: Seq<JavascriptFileView>,
    on_disk: Seq<ArtifactView>,
)
    requires
        0 <= from,
        spares_finished_work(run.artifacts, on_disk, version),
    ensures
        match sources_run(run, version, sources, contents, from, catalog, on_disk) {
            Ok(done) => spares_finished_work(done.artifacts, on_disk, version),
            Err(_) => true,
        },
    decreases sources.len() - from,
{
    if from < sources.len() && from < contents.len() {
        let after = match definitions_for(catalog, sources[from]) {
            Some(definitions) => {
                lemma_definitions_spare(run, version, definitions, 0, contents[from], on_disk);
                definitions_run(run, version, definitions, 0, contents[from], on_disk)
            },
            None => Ok(run),
        };
        match after {
            Err(_) => {},
            Ok(next) => {
                lemma_sources_spare(next, version, sources, contents, from + 1, catalog, on_disk);
            },
        }
    }
}

/// Finished work is never overwritten: whatever a run gives back to write
/// goes to a path at which nothing stood before, or an artifact of another
/// version, or one that still held the marker.
pub proof fn lemma_run_spares_finished_work(
    sources: Seq<Seq<char>>,
    contents: Seq<Seq<char>>,
    catalog: Seq<JavascriptFileView>,
    version: Seq<char>,
    on_disk: Seq<ArtifactView>,
)
    ensures
        match unpacked(sources, contents, catalog, version, on_disk) {
            Ok(done) => spares_finished_work(done.artifacts, on_disk, version),
            Err(_) => true,
        },
{
    let start = RunView { classes: Seq::empty(), artifacts: Seq::empty() };
    lemma_sources_spare(start, version, sources, contents, 0, catalog, on_disk);
}

/// None of `artifacts` is complete: each holds the marker behind its first
/// line.
pub open spec fn writes_unfinished_work(artifacts: Seq<ArtifactView>, version: Seq<char>) -> bool {
    forall|k: int|
        0 <= k < artifacts.len() ==> decision(Some((#[trigger] artifacts[k]).text), version)
            == Decision::Regenerate
}

/// What stands at `path` once `written` has been written, in order, over
/// what stood on `on_disk`.
pub open spec fn standing_at(
    on_disk: Seq<ArtifactView>,
    written: Seq<ArtifactView>,
    path: Seq<char>,
) -> Option<Seq<char>>
    decreases written.len(),
{
    if written.len() == 0 {
        existing_at(on_disk, Some(path))
    } else if written.last().path == path {
        Some(written.last().text)
    } else {
        standing_at(on_disk, written.drop_last(), path)
    }
}

/// `later` is what a run that found `on_disk` and gave back `written` leaves
/// behind, where nothing else has touched the files.
pub open spec fn left_behind(
    on_disk: Seq<ArtifactView>,
    written: Seq<ArtifactView>,
    later: Seq<ArtifactView>,
) -> bool {
    forall|path: Seq<char>| #[trigger]
        existing_at(later, Some(path)) == standing_at(on_disk, written, path)
}

/// The same is decided on every path, whether `a` or `b` is found there.
pub open spec fn same_decisions(
    a: Seq<ArtifactView>,
    b: Seq<ArtifactView>,
    version: Seq<char>,
) -> bool {
    forall|path: Seq<char>|
        decision(#[trigger] existing_at(a, Some(path)), version) == decision(
            #[trigger] existing_at(b, Some(path)),
            version,
        )
}

proof fn lemma_definitions_write_drafts(
    run: RunView,
    version: Seq<char>,
    definitions: Seq<JavascriptDefinitionView>,
    from: int,
    content: Seq<char>,
    on_disk: Seq<ArtifactView>,
)
    requires
        0 <= from,
        writes_unfinished_work(run.artifacts, version),
    ensures
        match definitions_run(run, version, definitions, from, content, on_disk) {
            Ok(done) => writes_unfinished_work(done.artifacts, version),
            Err(_) => true,
        },
    decreases definitions.len() - from,
{
    if from < definitions.len() {
        match definition_step(run, version, definitions[from], content, on_disk) {
            Err(_) => {},
            Ok(next) => {
                assert(writes_unfinished_work(next.artifacts, version)) by {
                    if next.artifacts != run.artifacts {
                        let block = definition_of(definitions[from].start, content)->0;
                        let name = class_name_of(definitions[from].start)->0;
                        let class = extracted(block, name)->Ok_0;
                        lemma_rendered_is_unfinished(class, version, version);
                    }
                }
                lemma_definitions_write_drafts(
                    next,
                    version,
                    definitions,
                    from + 1,
                    content,
                    on_disk,
                );
            },
        }
    }
}

proof fn lemma_sources_write_drafts(
    run: RunView,
    version: Seq<char>,
    sources: Seq<Seq<char>>,
    contents: Seq<Seq<char>>,
    from: int,
    catalog: Seq<JavascriptFileView>,
    on_disk: Seq<ArtifactView>,
)
    requires
        0 <= from,
        writes_unfinished_work(run.artifacts, version),
    ensures
        match sources_run(run, version, sources, contents, from, catalog, on_disk) {
            Ok(done) => writes_unfinished_work(done.artifacts, version),
            Err(_) => true,
        },
    decreases sources.len() - from,
{
    if from < sources.len() && from < contents.len() {
        let after = match definitions_for(catalog, sources[from]) {
            Some(definitions) => {
                lemma_definitions_write_drafts(
                    run,
                    version,
                    definitions,
                    0,
                    contents[from],
                    on_disk,
                );
                definitions_run(run, version, definitions, 0, contents[from], on_disk)
            },
            None => Ok(run),
        };
        match after {
            Err(_) => {},
            Ok(next) => {
                lemma_sources_write_drafts(
                    next,
                    version,
                    sources,
                    contents,
                    from + 1,
                    catalog,
                    on_disk,
                );
            },
        }
    }
}

proof fn lemma_definitions_decided_alike(
    run: RunView,
    version: Seq<char>,
    definitions: Seq<JavascriptDefinitionView>,
    from: int,
    content: Seq<char>,
    a: Seq<ArtifactView>,
    b: Seq<ArtifactView>,
)
    requires
        0 <= from,
        same_decisions(a, b, version),
    ensures
        definitions_run(run, version, definitions, from, content, a) == definitions_run(
            run,
            version,
            definitions,
            from,
            content,
            b,
        ),
    decreases definitions.len() - from,
{
    if from < definitions.len() {
        let definition = definitions[from];
        match wanted_path_of(definition) {
            Some(path) => {
                assert(decision(existing_at(a, Some(path)), version) == decision(
                    existing_at(b, Some(path)),
                    version,
                ));
            },
            None => {},
        }
        assert(definition_step(run, version, definition, content, a) == definition_step(
            run,
            version,
            definition,
            content,
            b,
        ));
        match definition_step(run, version, definition, content, a) {
            Err(_) => {},
            Ok(next) => {
                lemma_definitions_decided_alike(
                    next,
                    version,
                    definitions,
                    from + 1,
                    content,
                    a,
                    b,
                );
            },
        }
    }
}

proof fn lemma_sources_decided_alike(
    run: RunView,
    version: Seq<char>,
    sources: Seq<Seq<char>>,
    contents: Seq<Seq<char>>,
    from: int,
    catalog: Seq<JavascriptFileView>,
    a: Seq<ArtifactView>,
    b: Seq<ArtifactView>,
)
    requires
        0 <= from,
        same_decisions(a, b, version),
    ensures
        sources_run(run, version, sources, contents, from, catalog, a) == sources_run(
            run,
            version,
            sources,
            contents,
            from,
            catalog,
            b,
        ),
    decreases sources.len() - from,
{
    if from < sources.len() && from < contents.len() {
        let after = match definitions_for(catalog, sources[from]) {
            Some(definitions) => {
                lemma_definitions_decided_alike(
                    run,
                    version,
                    definitions,
                    0,
                    contents[from],
                    a,
                    b,
                );
                definitions_run(run, version, definitions, 0, contents[from], a)
            },
            None => Ok(run),
        };
        match after {
            Err(_) => {},
            Ok(next) => {
                lemma_sources_decided_alike(
                    next,
                    version,
                    sources,
                    contents,
                    from + 1,
                    catalog,
                    a,
                    b,
                );
            },
        }
    }
}

proof fn lemma_standing_at(
    on_disk: Seq<ArtifactView>,
    written: Seq<ArtifactView>,
    path: Seq<char>,
    version: Seq<char>,
)
    requires
        spares_finished_work(written, on_disk, version),
        writes_unfinished_work(written, version),
    ensures
        decision(standing_at(on_disk, written, path), version) == decision(
            existing_at(on_disk, Some(path)),
            version,
        ),
    decreases written.len(),
{
    if written.len() > 0 {
        let last = written.last();
        if last.path == path {
            assert(written[written.len() - 1] == last);
        } else {
            let front = written.drop_last();
            assert forall|k: int| 0 <= k < front.len() implies decision(
                existing_at(on_disk, Some((#[trigger] front[k]).path)),
                version,
            ) == Decision::Regenerate && decision(Some(front[k].text), version)
                == Decision::Regenerate by {
                assert(front[k] == written[k]);
            }
            lemma_standing_at(on_disk, front, path, version);
        }
    }
}

/// Runs are repeatable: a second run over the same bundle, catalog and
/// version, on the files as the first run left them, gives back just what the
/// first gave back. So whatever the first run kept is kept again, and
/// whatever it wrote is written again with the same text.
pub proof fn lemma_second_run_is_the_same(
    sources: Seq<Seq<char>>,
    contents: Seq<Seq<char>>,
    catalog: Seq<JavascriptFileView>,
    version: Seq<char>,
    on_disk: Seq<ArtifactView>,
    later: Seq<ArtifactView>,
)
    requires
        unpacked(sources, contents, catalog, version, on_disk) is Ok,
        left_behind(
            on_disk,
            unpacked(sources, contents, catalog, version, on_disk)->Ok_0.artifacts,
            later,
        ),
    ensures
        unpacked(sources, contents, catalog, version, later) == unpacked(
            sources,
            contents,
            catalog,
            version,
            on_disk,
        ),
{
    let start = RunView { classes: Seq::empty(), artifacts: Seq::empty() };
    let written = unpacked(sources, contents, catalog, version, on_disk)->Ok_0.artifacts;
    lemma_sources_spare(start, version, sources, contents, 0, catalog, on_disk);
    lemma_sources_write_drafts(start, version, sources, contents, 0, catalog, on_disk);
    assert forall|path: Seq<char>|
        decision(#[trigger] existing_at(later, Some(path)), version) == decision(
            #[trigger] existing_at(on_disk, Some(path)),
            version,
        ) by {
        lemma_standing_at(on_disk, written, path, version);
    }
    lemma_sources_decided_alike(start, version, sources, contents, 0, catalog, later, on_disk);
}

} // verus!
