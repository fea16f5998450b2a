//! The generator of one run: deals with the catalog's definitions one by one
//! and remembers the classes met, for the index.

use vstd::prelude::*;
use crate::casing::lowercase;
use crate::deserialize::{JavascriptContentType, JavascriptDefinition, JavascriptDefinitionView};
use crate::extract::{Drift, FUNCTION_OPEN, PARAMETERS_OPEN, VARIABLE_OPEN};
use crate::gen_class::{artifact_path, generated, RustClass, RustClassView};
use crate::pattern::{leftmost_captures, leftmost_match, Captured, CapturedView};
use crate::text::{
    append_str, chars_of, contains, equal, lemma_contains_middle, lemma_contains_part, string_of,
    text_of,
};

verus! {

/// How an anchor names its class where the class is assigned to a variable.
/// Group 1 is the name.
pub const CLASS_NAME_PATTERN: &'static str = r"var (\w+) = function";

/// How an anchor names its class where the class is a function declaration.
/// Group 1 is the name.
pub const SHORT_CLASS_NAME_PATTERN: &'static str = r"function (\w+)\(";

/// What follows the name where the class is assigned to a variable.
pub const VARIABLE_CLOSE: &'static str = " = function";

/// The path of the index of all class artifacts.
pub const INDEX_PATH: &'static str = "rustominion/src/rustominion/generated/mod.rs";

/// What opens a line of the index, up to the name of the module.
pub const MODULE_OPEN: &'static str = "pub mod ";

/// What closes a line of the index.
pub const MODULE_CLOSE: &'static str = ";\n";

/// A file to write: its path and its whole text.
#[derive(Debug, Clone, PartialEq, Eq)]
pub struct Artifact {
    pub path: String,
    pub text: String,
}

/// The model of an `Artifact`.
pub struct ArtifactView {
    pub path: Seq<char>,
    pub text: Seq<char>,
}

impl View for Artifact {
    type V = ArtifactView;

    open spec fn view(&self) -> ArtifactView {
        ArtifactView { path: self.path@, text: self.text@ }
    }
}

impl DeepView for Artifact {
    type V = ArtifactView;

    open spec fn deep_view(&self) -> ArtifactView {
        self@
    }
}

/// The name in a match whose group 1 is a name: none where the match is not
/// `open`, the name and `close` in a row.
pub open spec fn named_in(c: CapturedView, open: Seq<char>, close: Seq<char>) -> Option<Seq<char>> {
    match (c.group(0), c.group(1)) {
        (Some(whole), Some(name)) => if whole == open + name + close {
            Some(name)
        } else {
            None
        },
        _ => None,
    }
}

/// The class that an anchor names: the variable that the class is assigned
/// to, or else the function that declares it.
pub open spec fn class_name_of(anchor: Seq<char>) -> Option<Seq<char>> {
    match leftmost_match(CLASS_NAME_PATTERN@, anchor) {
        Some(c) => named_in(c, VARIABLE_OPEN@, VARIABLE_CLOSE@),
        None => match leftmost_match(SHORT_CLASS_NAME_PATTERN@, anchor) {
            Some(c) => named_in(c, FUNCTION_OPEN@, PARAMETERS_OPEN@),
            None => None,
        },
    }
}

/// Reads the name out of a match whose group 1 is a name.
pub fn name_from(c: &Captured, open: &str, close: &str) -> (r: Option<String>)
    ensures
        match r {
            Some(name) => named_in(c@, open@, close@) == Some(name@),
            None => named_in(c@, open@, close@) is None,
        },
{
    match (c.group(0), c.group(1)) {
        (Some(whole), Some(name)) => {
            let mut wanted = chars_of(open);
            append_str(&mut wanted, name.as_str());
            append_str(&mut wanted, close);
            if equal(&chars_of(whole.as_str()), &wanted) {
                Some(name.clone())
            } else {
                None
            }
        },
        _ => None,
    }
}

/// The class that an anchor names. The name stands in the anchor.
pub fn class_name(anchor: &str) -> (r: Option<String>)
    ensures
        match r {
            Some(name) => class_name_of(anchor@) == Some(name@) && contains(anchor@, name@),
            None => class_name_of(anchor@) is None,
        },
{
    let (found, open, close) = match leftmost_captures(CLASS_NAME_PATTERN, anchor) {
        Some(c) => (c, VARIABLE_OPEN, VARIABLE_CLOSE),
        None => match leftmost_captures(SHORT_CLASS_NAME_PATTERN, anchor) {
            Some(c) => (c, FUNCTION_OPEN, PARAMETERS_OPEN),
            None => {
                return None;
            },
        },
    };
    let name = name_from(&found, open, close);
    proof {
        if name is Some {
            let n = name->0@;
            lemma_contains_middle(open@, n, close@);
            lemma_contains_part(found@.before, found@.whole(), found@.after, n);
        }
    }
    name
}

/// The path of the artifact that a definition is drafted at: that of its
/// class, for a class definition that names one.
pub open spec fn wanted_path_of(definition: JavascriptDefinitionView) -> Option<Seq<char>> {
    match definition.type_ {
        JavascriptContentType::Class => match class_name_of(definition.start) {
            Some(name) => Some(artifact_path(name)),
            None => None,
        },
        _ => None,
    }
}

/// What dealing with a class definition makes of the classes met so far,
/// and the artifact to write, if any. The class is met, and listed in the
/// index, whether its artifact is written or kept.
pub open spec fn class_step(
    classes: Seq<RustClassView>,
    version: Seq<char>,
    anchor: Seq<char>,
    content: Seq<char>,
    existing: Option<Seq<char>>,
) -> Result<(Seq<RustClassView>, Option<ArtifactView>), Drift> {
    match class_name_of(anchor) {
        None => Err(Drift::NoClassName),
        Some(name) => match generated(existing, content, name, version) {
            Err(e) => Err(e),
            Ok(text) => Ok(
                (
                    classes.push(RustClassView { path: artifact_path(name), name }),
                    match text {
                        Some(t) => Some(ArtifactView { path: artifact_path(name), text: t }),
                        None => None,
                    },
                ),
            ),
        },
    }
}

/// What dealing with one definition makes of the classes met so far, and the
/// artifact to write, if any. Only class definitions are drafted: the other
/// kinds pass without effect.
pub open spec fn step(
    classes: Seq<RustClassView>,
    version: Seq<char>,
    definition: JavascriptDefinitionView,
    content: Seq<char>,
    existing: Option<Seq<char>>,
) -> Result<(Seq<RustClassView>, Option<ArtifactView>), Drift> {
    match definition.type_ {
        JavascriptContentType::Class => class_step(
            classes,
            version,
            definition.start,
            content,
            existing,
        ),
        _ => Ok((classes, None)),
    }
}

/// One line of the index for each class, in the order in which they were met.
pub open spec fn index_text(classes: Seq<RustClassView>) -> Seq<char>
    decreases classes.len(),
{
    if classes.len() == 0 {
        Seq::empty()
    } else {
        index_text(classes.drop_last()) + (MODULE_OPEN@ + lowercase(classes.last().name)
            + MODULE_CLOSE@)
    }
}

/// The generator of one run.
pub struct RustCodeGenerator {
    classes: Vec<RustClass>,
    version: String,
}

/// The model of a `RustCodeGenerator`.
pub struct RustCodeGeneratorView {
    pub classes: Seq<RustClassView>,
    pub version: Seq<char>,
}

impl View for RustCodeGenerator {
    type V = RustCodeGeneratorView;

    closed spec fn view(&self) -> RustCodeGeneratorView {
        RustCodeGeneratorView { classes: self.classes.deep_view(), version: self.version@ }
    }
}

/// The model of what `RustCodeGenerator::generate` returns.
pub open spec fn artifact_view(a: Option<Artifact>) -> Option<ArtifactView> {
    match a {
        Some(a) => Some(a@),
        None => None,
    }
}

impl RustCodeGenerator {
    /// A generator for the bundle of `version` that has met no class yet.
    pub fn new(version: String) -> (r: RustCodeGenerator)
        ensures
            r@ == (RustCodeGeneratorView { classes: Seq::empty(), version: version@ }),
    {
        let r = RustCodeGenerator { classes: Vec::new(), version };
        assert(r@.classes =~= Seq::empty());
        r
    }

    /// The version of the bundle.
    pub fn version(&self) -> (r: &str)
        ensures
            r@ == self@.version,
    {
        self.version.as_str()
    }

    /// The classes met so far, in order.
    pub fn classes(&self) -> (r: &Vec<RustClass>)
        ensures
            r.deep_view() == self@.classes,
    {
        &self.classes
    }

    /// The path of the artifact that `generate` decides on for `definition`,
    /// so that the caller can read what stands there.
    pub fn wanted_path(definition: &JavascriptDefinition) -> (r: Option<String>)
        ensures
            match r {
                Some(p) => wanted_path_of(definition@) == Some(p@),
                None => wanted_path_of(definition@) is None,
            },
    {
        match definition.type_ {
            JavascriptContentType::Class => match class_name(definition.start.as_str()) {
                Some(name) => {
                    let class = RustClass::new(name.as_str());
                    Some(class.path().to_owned())
                },
                None => None,
            },
            _ => None,
        }
    }

    /// Deals with one definition: `content` is the text of the definition,
    /// `existing` what stands at the path of its artifact. Returns the
    /// artifact to write, or `None` where nothing is to be written. On drift
    /// the generator is left as it was.
    pub fn generate(
        &mut self,
        definition: &JavascriptDefinition,
        content: &str,
        existing: Option<&str>,
    ) -> (r: Result<Option<Artifact>, Drift>)
        ensures
            final(self)@.version == old(self)@.version,
            match r {
                Ok(a) => step(
                    old(self)@.classes,
                    old(self)@.version,
                    definition@,
                    content@,
                    text_of(existing),
                ) == Ok::<(Seq<RustClassView>, Option<ArtifactView>), Drift>(
                    (final(self)@.classes, artifact_view(a)),
                ),
                Err(e) => final(self)@ == old(self)@ && step(
                    old(self)@.classes,
                    old(self)@.version,
                    definition@,
                    content@,
                    text_of(existing),
                ) == Err::<(Seq<RustClassView>, Option<ArtifactView>), Drift>(e),
            },
    {
        match definition.type_ {
            JavascriptContentType::Class => self.generate_class(
                definition.start.as_str(),
                content,
                existing,
            ),
            _ => Ok(None),
        }
    }

    /// Deals with the class definition that `class_start` opens.
    fn generate_class(&mut self, class_start: &str, content: &str, existing: Option<&str>) -> (r:
        Result<Option<Artifact>, Drift>)
        ensures
            final(self)@.version == old(self)@.version,
            match r {
                Ok(a) => class_step(
                    old(self)@.classes,
                    old(self)@.version,
                    class_start@,
                    content@,
                    text_of(existing),
                ) == Ok::<(Seq<RustClassView>, Option<ArtifactView>), Drift>(
                    (final(self)@.classes, artifact_view(a)),
                ),
                Err(e) => final(self)@ == old(self)@ && class_step(
                    old(self)@.classes,
                    old(self)@.version,
                    class_start@,
                    content@,
                    text_of(existing),
                ) == Err::<(Seq<RustClassView>, Option<ArtifactView>), Drift>(e),
            },
    {
        let name = match class_name(class_start) {
            Some(name) => name,
            None => {
                return Err(Drift::NoClassName);
            },
        };
        let mut class = RustClass::new(name.as_str());
        let outcome = class.generate(content, self.version.as_str(), existing);
        match outcome {
            Err(e) => Err(e),
            Ok(text) => {
                let artifact = match text {
                    Some(t) => Some(Artifact { path: class.path().to_owned(), text: t }),
                    None => None,
                };
                let ghost before = self.classes.deep_view();
                let ghost added = class@;
                self.classes.push(class);
                assert(self.classes.deep_view() =~= before.push(added));
                Ok(artifact)
            },
        }
    }

    /// The text of the index: one module for each class met, in order. It is
    /// written anew at every run.
    pub fn index(&self) -> (r: String)
        ensures
            r@ == index_text(self@.classes),
    {
        let mut out: Vec<char> = Vec::new();
        let ghost all = self.classes.deep_view();
        let mut i: usize = 0;
        while i < self.classes.len()
            invariant
                i <= self.classes.len(),
                all == self.classes.deep_view(),
                out@ == index_text(all.take(i as int)),
            decreases self.classes.len() - i,
        {
            let ghost so_far = out@;
            append_str(&mut out, MODULE_OPEN);
            append_str(&mut out, self.classes[i].filename().as_str());
            append_str(&mut out, MODULE_CLOSE);
            proof {
                assert(all.take(i + 1).drop_last() =~= all.take(i as int));
                assert(out@ =~= so_far + (MODULE_OPEN@ + lowercase(all[i as int].name)
                    + MODULE_CLOSE@));
            }
            i += 1;
        }
        assert(all.take(self.classes.len() as int) =~= all);
        string_of(&out)
    }
}

} // verus!
