//! One class artifact: where it stands, and what a run makes of it.

use vstd::prelude::*;
use crate::casing::{lowercase, to_lowercase};
use crate::emit::{render, rendered};
use crate::extract::{extract, extracted, Drift};
use crate::gate::{decide, decision, Decision};
use crate::text::{append_str, chars_of, string_of, text_of};

verus! {

/// The directory that holds the artifacts.
pub const GENERATED_DIRECTORY: &'static str = "rustominion/src/rustominion/generated/";

/// The ending of an artifact's file name.
pub const SOURCE_SUFFIX: &'static str = ".rs";

/// The path of the artifact for the class `name`: derived from the name in
/// lower case.
pub open spec fn artifact_path(name: Seq<char>) -> Seq<char> {
    GENERATED_DIRECTORY@ + lowercase(name) + SOURCE_SUFFIX@
}

/// What a run makes of one class: `Ok(None)` where the artifact that exists
/// is kept, the new text where it is not, and the drift found where the class
/// cannot be extracted. The decision to keep comes first, so a complete
/// artifact is kept whatever the source has become.
pub open spec fn generated(
    existing: Option<Seq<char>>,
    content: Seq<char>,
    name: Seq<char>,
    version: Seq<char>,
) -> Result<Option<Seq<char>>, Drift> {
    match decision(existing, version) {
        Decision::Skip => Ok(None),
        Decision::Regenerate => match extracted(content, name) {
            Ok(class) => Ok(Some(rendered(class, version))),
            Err(e) => Err(e),
        },
    }
}

/// What stands at the artifact's path once the run has dealt with the class.
pub open spec fn artifact_after(
    existing: Option<Seq<char>>,
    content: Seq<char>,
    name: Seq<char>,
    version: Seq<char>,
) -> Option<Seq<char>> {
    match generated(existing, content, name, version) {
        Ok(Some(text)) => Some(text),
        _ => existing,
    }
}

/// The model of what `generate` returns.
pub open spec fn outcome_view(r: Result<Option<String>, Drift>) -> Result<Option<Seq<char>>, Drift> {
    match r {
        Ok(Some(text)) => Ok(Some(text@)),
        Ok(None) => Ok(None),
        Err(e) => Err(e),
    }
}

/// A class artifact, named after the class it is drafted for.
pub struct RustClass {
    path: String,
    name: String,
}

/// The model of a `RustClass`.
pub struct RustClassView {
    pub path: Seq<char>,
    pub name: Seq<char>,
}

impl View for RustClass {
    type V = RustClassView;

    closed spec fn view(&self) -> RustClassView {
        RustClassView { path: self.path@, name: self.name@ }
    }
}

impl DeepView for RustClass {
    type V = RustClassView;

    open spec fn deep_view(&self) -> RustClassView {
        self@
    }
}

impl RustClass {
    /// The artifact for the class `name`.
    pub fn new(name: &str) -> (r: RustClass)
        ensures
            r@ == (RustClassView { path: artifact_path(name@), name: name@ }),
    {
        let mut path = chars_of(GENERATED_DIRECTORY);
        append_str(&mut path, to_lowercase(name).as_str());
        append_str(&mut path, SOURCE_SUFFIX);
        RustClass { path: string_of(&path), name: name.to_owned() }
    }

    /// The name of the class.
    pub fn name(&self) -> (r: &str)
        ensures
            r@ == self@.name,
    {
        self.name.as_str()
    }

    /// The path of the artifact.
    pub fn path(&self) -> (r: &str)
        ensures
            r@ == self@.path,
    {
        self.path.as_str()
    }

    /// The name of the artifact's module: the class name in lower case.
    pub fn filename(&self) -> (r: String)
        ensures
            r@ == lowercase(self@.name),
    {
        to_lowercase(self.name.as_str())
    }

    /// Whether the artifact that exists is complete for `version` and is to be
    /// left untouched. `existing` is what stands at the artifact's path,
    /// `None` where nothing readable does.
    pub fn is_existing_file_ok(&self, existing: Option<&str>, version: &str) -> (r: bool)
        ensures
            r == (decision(text_of(existing), version@) == Decision::Skip),
    {
        match decide(existing, version) {
            Decision::Skip => true,
            Decision::Regenerate => false,
        }
    }

    /// Deals with the class in one run: `content` is the text of its
    /// definition, `existing` what stands at the artifact's path. Returns the
    /// text to write there, or `None` where the artifact is to be kept.
    pub fn generate(&mut self, content: &str, version: &str, existing: Option<&str>) -> (r: Result<
        Option<String>,
        Drift,
    >)
        ensures
            *final(self) == *old(self),
            outcome_view(r) == generated(text_of(existing), content@, old(self)@.name, version@),
    {
        if self.is_existing_file_ok(existing, version) {
            return Ok(None);
        }
        match extract(content, self.name.as_str()) {
            Ok(class) => Ok(Some(render(&class, version))),
            Err(e) => Err(e),
        }
    }
}

/// Two runs in a row on the same source, catalog and version leave the
/// artifact as the first run left it: a complete artifact is kept by both, and
/// any other is written with the same text twice.
pub proof fn lemma_second_run_changes_nothing(
    existing: Option<Seq<char>>,
    content: Seq<char>,
    name: Seq<char>,
    version: Seq<char>,
)
    ensures
        artifact_after(artifact_after(existing, content, name, version), content, name, version)
            == artifact_after(existing, content, name, version),
{
}

/// A complete artifact that nobody edits is the same text after any run at
/// its version.
pub proof fn lemma_complete_artifact_is_untouched(
    text: Seq<char>,
    content: Seq<char>,
    name: Seq<char>,
    version: Seq<char>,
)
    requires
        crate::gate::is_complete(text, version),
    ensures
        generated(Some(text), content, name, version) == Ok::<Option<Seq<char>>, Drift>(None),
        artifact_after(Some(text), content, name, version) == Some(text),
{
}

} // verus!
