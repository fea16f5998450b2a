//! The emitter: writes an extracted class out as the draft of a declaration.
//!
//! The draft holds a stamp line, a data declaration with one field for each
//! extracted field, a constructor with the discovered parameters, one method
//! for each extracted method, and whatever was not recognised as comments.
//! Every place that still needs a human hand carries the marker of
//! outstanding work.

use vstd::prelude::*;
use crate::extract::{JAttribute, JAttributeView, JClass, JClassView, JMethod, JMethodView};
use crate::gate::{decision, first_line, has_marker, rest_of, stamp, Decision, MARKER, STAMP_PREFIX};
use crate::text::{
    append_chars, append_str, chars_of, contains, lemma_contains_middle,
    lemma_contains_part, lemma_occurs_behind, lemma_position, position, segments, split,
    string_of, views,
};

verus! {

/// The end of a line.
pub const LINE_BREAK: &'static str = "\n";

/// What opens the data declaration, up to the name of the class.
pub const STRUCT_OPEN: &'static str = "#[readonly::make]\n#[allow(dead_code)]\nstruct ";

/// The brace that opens a block, and the end of its line.
pub const BLOCK_OPEN: &'static str = " {\n";

/// What stands in front of a field.
pub const FIELD_INDENT: &'static str = "    ";

/// The type that every field is drafted with, and the note in front of the
/// expression that the field was assigned from.
pub const FIELD_NOTE: &'static str = ": u8, // TODO: initialized in constructor from ";

/// What closes the data declaration and opens the functions, up to the name of
/// the class.
pub const IMPL_OPEN: &'static str = "}\n\n#[allow(dead_code)]\nimpl ";

/// What opens the constructor, up to its parameters.
pub const NEW_OPEN: &'static str = "    pub fn new(";

/// The type that every parameter is drafted with.
pub const PARAMETER_TYPE: &'static str = ": u8";

/// What separates two parameters.
pub const PARAMETER_BREAK: &'static str = ", ";

/// What follows the parameters of the constructor, up to the first field.
pub const NEW_CLOSE: &'static str = ") -> Self {\n        Self {\n";

/// What stands in front of a field that the constructor sets.
pub const INITIALIZER_INDENT: &'static str = "            ";

/// What follows a field that is set from the parameter of its name.
pub const INITIALIZER_MATCHED: &'static str = ",\n";

/// What follows a field that no parameter is named like: it is set to zero.
pub const INITIALIZER_DEFAULT: &'static str = ": 0,\n";

/// What follows the fields that the constructor sets, up to the source of its
/// body.
pub const NEW_NOTE: &'static str = "        }\n        // TODO: \n";

/// What stands in front of each line of source inside a function.
pub const BODY_COMMENT: &'static str = "        //";

/// What closes a function.
pub const FUNCTION_CLOSE: &'static str = "    }\n";

/// What opens a method, up to its name.
pub const METHOD_OPEN: &'static str = "    pub fn ";

/// What follows the name of a method: a body that is not written yet, up to the
/// source of the method.
pub const METHOD_NOTE: &'static str = "(&self) {\n        todo!();\n        // TODO:\n";

/// What closes the functions.
pub const IMPL_CLOSE: &'static str = "}\n\n";

/// What stands in front of each line of the text that was not recognised.
pub const TRAILING_COMMENT: &'static str = "// ";

/// Each of `lines` behind `prefix`, with a line break behind it.
pub open spec fn prefixed_lines(prefix: Seq<char>, lines: Seq<Seq<char>>) -> Seq<char>
    decreases lines.len(),
{
    if lines.len() == 0 {
        Seq::empty()
    } else {
        prefixed_lines(prefix, lines.drop_last()) + (prefix + lines.last() + LINE_BREAK@)
    }
}

/// `text` as comments: each of its lines behind `prefix`. The empty text is
/// one empty line.
pub open spec fn commented(prefix: Seq<char>, text: Seq<char>) -> Seq<char> {
    prefixed_lines(prefix, segments(text, '\n'))
}

/// The declaration of one field, with the expression it was assigned from.
pub open spec fn field_line(a: JAttributeView) -> Seq<char> {
    FIELD_INDENT@ + a.attribute + FIELD_NOTE@ + a.value + LINE_BREAK@
}

/// The declarations of the fields, in order.
pub open spec fn field_lines(attributes: Seq<JAttributeView>) -> Seq<char>
    decreases attributes.len(),
{
    if attributes.len() == 0 {
        Seq::empty()
    } else {
        field_lines(attributes.drop_last()) + field_line(attributes.last())
    }
}

/// The constructor's parameters with their types, separated by commas.
pub open spec fn parameter_list(params: Seq<Seq<char>>) -> Seq<char>
    decreases params.len(),
{
    if params.len() == 0 {
        Seq::empty()
    } else if params.len() == 1 {
        params[0] + PARAMETER_TYPE@
    } else {
        parameter_list(params.drop_last()) + (PARAMETER_BREAK@ + params.last() + PARAMETER_TYPE@)
    }
}

/// How the constructor sets one field: from the parameter of the same name
/// where there is one, else to zero.
pub open spec fn initializer(a: JAttributeView, params: Seq<Seq<char>>) -> Seq<char> {
    if params.contains(a.attribute) {
        INITIALIZER_INDENT@ + a.attribute + INITIALIZER_MATCHED@
    } else {
        INITIALIZER_INDENT@ + a.attribute + INITIALIZER_DEFAULT@
    }
}

/// How the constructor sets the fields, in order.
pub open spec fn initializers(attributes: Seq<JAttributeView>, params: Seq<Seq<char>>) -> Seq<char>
    decreases attributes.len(),
{
    if attributes.len() == 0 {
        Seq::empty()
    } else {
        initializers(attributes.drop_last(), params) + initializer(attributes.last(), params)
    }
}

/// The draft of one method: a body that is not written yet, and the method's
/// source as comments.
pub open spec fn method_text(m: JMethodView) -> Seq<char> {
    METHOD_OPEN@ + m.name + METHOD_NOTE@ + commented(BODY_COMMENT@, m.body) + FUNCTION_CLOSE@
}

/// The drafts of the methods, in order.
pub open spec fn methods_text(methods: Seq<JMethodView>) -> Seq<char>
    decreases methods.len(),
{
    if methods.len() == 0 {
        Seq::empty()
    } else {
        methods_text(methods.drop_last()) + method_text(methods.last())
    }
}

/// The draft of the data declaration.
pub open spec fn declaration_text(class: JClassView) -> Seq<char> {
    STRUCT_OPEN@ + class.name + BLOCK_OPEN@ + field_lines(class.attributes)
}

/// The draft of the constructor.
pub open spec fn constructor_text(class: JClassView) -> Seq<char> {
    NEW_OPEN@ + parameter_list(class.constructor.args) + NEW_CLOSE@ + initializers(
        class.attributes,
        class.constructor.args,
    ) + NEW_NOTE@ + commented(BODY_COMMENT@, class.constructor.body) + FUNCTION_CLOSE@
}

/// The artifact for `class` at `version`.
pub open spec fn rendered(class: JClassView, version: Seq<char>) -> Seq<char> {
    stamp(version) + LINE_BREAK@ + declaration_text(class) + IMPL_OPEN@ + class.name + BLOCK_OPEN@
        + constructor_text(class) + methods_text(class.methods) + IMPL_CLOSE@ + commented(
        TRAILING_COMMENT@,
        class.trailing,
    )
}

/// Puts `text` as comments behind `out`.
fn append_commented(out: &mut Vec<char>, prefix: &str, text: &str)
    ensures
        final(out)@ == old(out)@ + commented(prefix@, text@),
{
    let ghost before = out@;
    let lines = split(&chars_of(text), '\n');
    let ghost wanted = segments(text@, '\n');
    let mut i: usize = 0;
    while i < lines.len()
        invariant
            i <= lines.len(),
            views(lines@) == wanted,
            out@ == before + prefixed_lines(prefix@, wanted.take(i as int)),
        decreases lines.len() - i,
    {
        let ghost so_far = prefixed_lines(prefix@, wanted.take(i as int));
        append_str(out, prefix);
        append_chars(out, &lines[i]);
        append_str(out, LINE_BREAK);
        proof {
            assert(views(lines@)[i as int] == lines@[i as int]@);
            assert(wanted.take(i + 1).drop_last() =~= wanted.take(i as int));
            assert(out@ =~= before + (so_far + (prefix@ + wanted[i as int] + LINE_BREAK@)));
        }
        i += 1;
    }
    assert(wanted.take(lines.len() as int) =~= wanted);
}

/// Puts the declaration of one field behind `out`.
fn append_field_line(out: &mut Vec<char>, a: &JAttribute)
    ensures
        final(out)@ == old(out)@ + field_line(a@),
{
    let ghost before = out@;
    append_str(out, FIELD_INDENT);
    append_str(out, a.attribute.as_str());
    append_str(out, FIELD_NOTE);
    append_str(out, a.value.as_str());
    append_str(out, LINE_BREAK);
    assert(out@ =~= before + field_line(a@));
}

/// Puts the declarations of the fields behind `out`.
fn append_field_lines(out: &mut Vec<char>, attributes: &Vec<JAttribute>)
    ensures
        final(out)@ == old(out)@ + field_lines(attributes.deep_view()),
{
    let ghost before = out@;
    let ghost all = attributes.deep_view();
    let mut i: usize = 0;
    while i < attributes.len()
        invariant
            i <= attributes.len(),
            all == attributes.deep_view(),
            out@ == before + field_lines(all.take(i as int)),
        decreases attributes.len() - i,
    {
        let ghost so_far = field_lines(all.take(i as int));
        append_field_line(out, &attributes[i]);
        proof {
            assert(all.take(i + 1).drop_last() =~= all.take(i as int));
            assert(out@ =~= before + (so_far + field_line(all[i as int])));
        }
        i += 1;
    }
    assert(all.take(attributes.len() as int) =~= all);
}

/// Puts the parameter list behind `out`.
fn append_parameter_list(out: &mut Vec<char>, params: &Vec<String>)
    ensures
        final(out)@ == old(out)@ + parameter_list(params.deep_view()),
{
    let ghost before = out@;
    let ghost all = params.deep_view();
    let mut i: usize = 0;
    while i < params.len()
        invariant
            i <= params.len(),
            all == params.deep_view(),
            out@ == before + parameter_list(all.take(i as int)),
        decreases params.len() - i,
    {
        let ghost so_far = parameter_list(all.take(i as int));
        if i > 0 {
            append_str(out, PARAMETER_BREAK);
        }
        append_str(out, params[i].as_str());
        append_str(out, PARAMETER_TYPE);
        proof {
            assert(all.take(i + 1).drop_last() =~= all.take(i as int));
            if i == 0 {
                assert(so_far =~= Seq::<char>::empty());
                assert(out@ =~= before + (all[0] + PARAMETER_TYPE@));
            } else {
                assert(out@ =~= before + (so_far + (PARAMETER_BREAK@ + all[i as int]
                    + PARAMETER_TYPE@)));
            }
        }
        i += 1;
    }
    assert(all.take(params.len() as int) =~= all);
}

/// Whether `name` is one of `params`.
fn is_parameter(params: &Vec<String>, name: &String) -> (r: bool)
    ensures
        r == params.deep_view().contains(name@),
{
    let mut i: usize = 0;
    while i < params.len()
        invariant
            i <= params.len(),
            forall|k: int| 0 <= k < i ==> params.deep_view()[k] != name@,
        decreases params.len() - i,
    {
        if params[i].eq(name) {
            assert(params.deep_view()[i as int] == name@);
            return true;
        }
        i += 1;
    }
    false
}

/// Puts the initializers of the fields behind `out`.
fn append_initializers(out: &mut Vec<char>, attributes: &Vec<JAttribute>, params: &Vec<String>)
    ensures
        final(out)@ == old(out)@ + initializers(attributes.deep_view(), params.deep_view()),
{
    let ghost before = out@;
    let ghost all = attributes.deep_view();
    let ghost names = params.deep_view();
    let mut i: usize = 0;
    while i < attributes.len()
        invariant
            i <= attributes.len(),
            all == attributes.deep_view(),
            names == params.deep_view(),
            out@ == before + initializers(all.take(i as int), names),
        decreases attributes.len() - i,
    {
        let ghost so_far = initializers(all.take(i as int), names);
        append_str(out, INITIALIZER_INDENT);
        append_str(out, attributes[i].attribute.as_str());
        if is_parameter(params, &attributes[i].attribute) {
            append_str(out, INITIALIZER_MATCHED);
        } else {
            append_str(out, INITIALIZER_DEFAULT);
        }
        proof {
            assert(all.take(i + 1).drop_last() =~= all.take(i as int));
            assert(out@ =~= before + (so_far + initializer(all[i as int], names)));
        }
        i += 1;
    }
    assert(all.take(attributes.len() as int) =~= all);
}

/// Puts the draft of one method behind `out`.
fn append_method(out: &mut Vec<char>, m: &JMethod)
    ensures
        final(out)@ == old(out)@ + method_text(m@),
{
    let ghost before = out@;
    append_str(out, METHOD_OPEN);
    append_str(out, m.name.as_str());
    append_str(out, METHOD_NOTE);
    append_commented(out, BODY_COMMENT, m.body.as_str());
    append_str(out, FUNCTION_CLOSE);
    assert(out@ =~= before + method_text(m@));
}

/// Puts the drafts of the methods behind `out`.
fn append_methods(out: &mut Vec<char>, methods: &Vec<JMethod>)
    ensures
        final(out)@ == old(out)@ + methods_text(methods.deep_view()),
{
    let ghost before = out@;
    let ghost all = methods.deep_view();
    let mut i: usize = 0;
    while i < methods.len()
        invariant
            i <= methods.len(),
            all == methods.deep_view(),
            out@ == before + methods_text(all.take(i as int)),
        decreases methods.len() - i,
    {
        let ghost so_far = methods_text(all.take(i as int));
        append_method(out, &methods[i]);
        proof {
            assert(all.take(i + 1).drop_last() =~= all.take(i as int));
            assert(out@ =~= before + (so_far + method_text(all[i as int])));
        }
        i += 1;
    }
    assert(all.take(methods.len() as int) =~= all);
}

/// Puts the draft of the data declaration behind `out`.
fn append_declaration(out: &mut Vec<char>, class: &JClass)
    ensures
        final(out)@ == old(out)@ + declaration_text(class@),
{
    let ghost before = out@;
    append_str(out, STRUCT_OPEN);
    append_str(out, class.name.as_str());
    append_str(out, BLOCK_OPEN);
    append_field_lines(out, &class.attributes);
    assert(out@ =~= before + declaration_text(class@));
}

/// Puts the draft of the constructor behind `out`.
fn append_constructor(out: &mut Vec<char>, class: &JClass)
    ensures
        final(out)@ == old(out)@ + constructor_text(class@),
{
    let ghost before = out@;
    append_str(out, NEW_OPEN);
    append_parameter_list(out, &class.constructor.args);
    append_str(out, NEW_CLOSE);
    append_initializers(out, &class.attributes, &class.constructor.args);
    append_str(out, NEW_NOTE);
    append_commented(out, BODY_COMMENT, class.constructor.body.as_str());
    append_str(out, FUNCTION_CLOSE);
    assert(out@ =~= before + constructor_text(class@));
}

/// Writes the artifact for `class` at `version`.
pub fn render(class: &JClass, version: &str) -> (out: String)
    ensures
        out@ == rendered(class@, version@),
{
    let mut out: Vec<char> = Vec::new();
    append_str(&mut out, STAMP_PREFIX);
    append_str(&mut out, version);
    append_str(&mut out, LINE_BREAK);
    append_declaration(&mut out, class);
    append_str(&mut out, IMPL_OPEN);
    append_str(&mut out, class.name.as_str());
    append_str(&mut out, BLOCK_OPEN);
    append_constructor(&mut out, class);
    append_methods(&mut out, &class.methods);
    append_str(&mut out, IMPL_CLOSE);
    append_commented(&mut out, TRAILING_COMMENT, class.trailing.as_str());
    assert(out@ =~= rendered(class@, version@));
    string_of(&out)
}

proof fn lemma_field_lines_keep(attributes: Seq<JAttributeView>, i: int)
    requires
        0 <= i < attributes.len(),
    ensures
        contains(field_lines(attributes), attributes[i].value),
    decreases attributes.len(),
{
    let front = field_lines(attributes.drop_last());
    let last = attributes.last();
    if i == attributes.len() - 1 {
        lemma_contains_middle(
            front + FIELD_INDENT@ + last.attribute + FIELD_NOTE@,
            last.value,
            LINE_BREAK@,
        );
        assert(field_lines(attributes) =~= front + FIELD_INDENT@ + last.attribute + FIELD_NOTE@
            + last.value + LINE_BREAK@);
    } else {
        lemma_field_lines_keep(attributes.drop_last(), i);
        lemma_contains_part(Seq::empty(), front, field_line(last), attributes[i].value);
        assert(field_lines(attributes) =~= Seq::<char>::empty() + front + field_line(last));
    }
}

/// Every field's source expression stands word for word in the artifact.
pub proof fn lemma_field_expressions_are_kept(class: JClassView, version: Seq<char>, i: int)
    requires
        0 <= i < class.attributes.len(),
    ensures
        contains(rendered(class, version), class.attributes[i].value),
{
    let before = stamp(version) + LINE_BREAK@ + STRUCT_OPEN@ + class.name + BLOCK_OPEN@;
    let after = IMPL_OPEN@ + class.name + BLOCK_OPEN@ + constructor_text(class) + methods_text(
        class.methods,
    ) + IMPL_CLOSE@ + commented(TRAILING_COMMENT@, class.trailing);
    lemma_field_lines_keep(class.attributes, i);
    lemma_contains_part(before, field_lines(class.attributes), after, class.attributes[i].value);
    assert(rendered(class, version) =~= before + field_lines(class.attributes) + after);
}

proof fn lemma_initializers_hold(
    attributes: Seq<JAttributeView>,
    params: Seq<Seq<char>>,
    i: int,
)
    requires
        0 <= i < attributes.len(),
    ensures
        contains(initializers(attributes, params), initializer(attributes[i], params)),
    decreases attributes.len(),
{
    let front = initializers(attributes.drop_last(), params);
    let last = initializer(attributes.last(), params);
    if i == attributes.len() - 1 {
        lemma_contains_middle(front, last, Seq::empty());
        assert(initializers(attributes, params) =~= front + last + Seq::<char>::empty());
    } else {
        lemma_initializers_hold(attributes.drop_last(), params, i);
        lemma_contains_part(Seq::empty(), front, last, initializer(attributes[i], params));
        assert(initializers(attributes, params) =~= Seq::<char>::empty() + front + last);
    }
}

/// Every field is set by the constructor: from the parameter of its name
/// where there is one, and else to zero.
pub proof fn lemma_every_field_is_set(class: JClassView, version: Seq<char>, i: int)
    requires
        0 <= i < class.attributes.len(),
    ensures
        contains(
            rendered(class, version),
            initializer(class.attributes[i], class.constructor.args),
        ),
        !class.constructor.args.contains(class.attributes[i].attribute) ==> initializer(
            class.attributes[i],
            class.constructor.args,
        ) == INITIALIZER_INDENT@ + class.attributes[i].attribute + INITIALIZER_DEFAULT@,
{
    let params = class.constructor.args;
    let before = stamp(version) + LINE_BREAK@ + declaration_text(class) + IMPL_OPEN@ + class.name
        + BLOCK_OPEN@ + NEW_OPEN@ + parameter_list(params) + NEW_CLOSE@;
    let after = NEW_NOTE@ + commented(BODY_COMMENT@, class.constructor.body) + FUNCTION_CLOSE@
        + methods_text(class.methods) + IMPL_CLOSE@ + commented(
        TRAILING_COMMENT@,
        class.trailing,
    );
    lemma_initializers_hold(class.attributes, params, i);
    lemma_contains_part(
        before,
        initializers(class.attributes, params),
        after,
        initializer(class.attributes[i], params),
    );
    assert(rendered(class, version) =~= before + initializers(class.attributes, params) + after);
}

/// A class without parameters, fields and methods still gets its whole
/// frame: an empty data declaration and a constructor that takes nothing.
pub proof fn lemma_empty_class_is_framed(class: JClassView, version: Seq<char>)
    requires
        class.constructor.args.len() == 0,
        class.attributes.len() == 0,
        class.methods.len() == 0,
    ensures
        rendered(class, version) == stamp(version) + LINE_BREAK@ + STRUCT_OPEN@ + class.name
            + BLOCK_OPEN@ + IMPL_OPEN@ + class.name + BLOCK_OPEN@ + NEW_OPEN@ + NEW_CLOSE@
            + NEW_NOTE@ + commented(BODY_COMMENT@, class.constructor.body) + FUNCTION_CLOSE@
            + IMPL_CLOSE@ + commented(TRAILING_COMMENT@, class.trailing),
{
    assert(rendered(class, version) =~= stamp(version) + LINE_BREAK@ + STRUCT_OPEN@ + class.name
        + BLOCK_OPEN@ + IMPL_OPEN@ + class.name + BLOCK_OPEN@ + NEW_OPEN@ + NEW_CLOSE@ + NEW_NOTE@
        + commented(BODY_COMMENT@, class.constructor.body) + FUNCTION_CLOSE@ + IMPL_CLOSE@
        + commented(TRAILING_COMMENT@, class.trailing));
}

/// The version holds no line break.
pub open spec fn on_one_line(version: Seq<char>) -> bool {
    forall|i: int| 0 <= i < version.len() ==> version[i] != '\n' && version[i] != '\r'
}

/// The artifact written for a version starts with the stamp of that version,
/// given that the version stands on one line.
pub proof fn lemma_rendered_carries_stamp(class: JClassView, version: Seq<char>)
    requires
        on_one_line(version),
    ensures
        first_line(rendered(class, version)) == stamp(version),
{
    reveal_strlit("// version: ");
    reveal_strlit("\n");
    let text = rendered(class, version);
    let line = stamp(version);
    let behind = declaration_text(class) + IMPL_OPEN@ + class.name + BLOCK_OPEN@
        + constructor_text(class) + methods_text(class.methods) + IMPL_CLOSE@ + commented(
        TRAILING_COMMENT@,
        class.trailing,
    );
    assert(text =~= line + LINE_BREAK@ + behind);
    assert(text[line.len() as int] == '\n');
    assert forall|k: int| 0 <= k < line.len() implies text[k] != '\n' && text[k] != '\r' by {
        if k >= STAMP_PREFIX@.len() {
            assert(text[k] == version[k - STAMP_PREFIX@.len()]);
        }
    }
    lemma_position(text, '\n', 0);
    assert(position(text, '\n', 0) == line.len());
    assert(text.take(line.len() as int) =~= line);
}

/// A fresh artifact is never taken for finished work: it holds the marker
/// behind its first line, so it is written again until a human has dealt with
/// it.
pub proof fn lemma_rendered_is_unfinished(class: JClassView, version: Seq<char>, wanted: Seq<char>)
    ensures
        has_marker(rest_of(rendered(class, version))),
        decision(Some(rendered(class, version)), wanted) == Decision::Regenerate,
{
    reveal_strlit("\n");
    reveal_strlit("TODO");
    reveal_strlit("        }\n        // TODO: \n");
    let text = rendered(class, version);
    let line = stamp(version);
    let front = line + LINE_BREAK@ + declaration_text(class) + IMPL_OPEN@ + class.name
        + BLOCK_OPEN@ + NEW_OPEN@ + parameter_list(class.constructor.args) + NEW_CLOSE@
        + initializers(class.attributes, class.constructor.args);
    let back = commented(BODY_COMMENT@, class.constructor.body) + FUNCTION_CLOSE@ + methods_text(
        class.methods,
    ) + IMPL_CLOSE@ + commented(TRAILING_COMMENT@, class.trailing);
    assert(text =~= front + NEW_NOTE@ + back);
    assert(text[line.len() as int] == '\n');
    lemma_position(text, '\n', 0);
    let p = position(text, '\n', 0);
    assert(p <= line.len());
    let at: int = front.len() as int + 21;
    assert(text.subrange(at, at + 4) =~= MARKER@);
    lemma_occurs_behind(text, MARKER@, at, p + 1);
}

} // verus!
