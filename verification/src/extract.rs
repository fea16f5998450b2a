//! The structural extractor: takes the text of one compiled class apart into
//! its constructor, its field assignments and its zero-argument methods.
//!
//! The extractor recognises a narrow dialect. A constructor signature is
//! either `function NAME(params) {` or `var NAME = function (params) {`. A
//! field is an assignment `this.<field> = <expr>;` (or with `self.`) that ends
//! its line. A method marker is `<name> = function () {`, with or without
//! indentation and a dotted path in front of the name. Text that fits none of
//! these is kept as it is, in the constructor body or behind the last method.
//!
//! The places are found by regular expressions, in a search that is not
//! verified. So each match is held against the shape it should have before
//! anything is taken from it, and the contracts say where a match comes from
//! by the name of the search, and what is made of it exactly.

use vstd::prelude::*;
use crate::casing::{snake_case, to_snake_case};
use crate::pattern::{leftmost_captures, leftmost_match, Captured, CapturedView};
use crate::text::{
    append_chars, append_str, chars_of, contains, ends_with, equal, has_suffix,
    lemma_contains_middle, lemma_contains_part, lemma_contains_skip, lemma_contains_take,
    lemma_trimmed_within, segments, slice, split, string_of, trim, trimmed, views,
};
use crate::utility::{block_end, close_index, lemma_scan_end};

verus! {

/// The constructor signature, in either of its two forms. Group 1 or group 2
/// is the name, group 3 the parameter list.
pub const CONSTRUCTOR_PATTERN: &'static str =
    r"(?:var (\w+) = function \(|function (\w+)\()(.*?)\) \{";

/// A field assignment that ends its line. Group 1 is the field, group 2 the
/// expression assigned to it.
pub const ATTRIBUTE_PATTERN: &'static str = r"(?:this|self)\.(\w+) = (.*?);\n";

/// The marker that opens a zero-argument method. Group 1 is the method's name.
pub const METHOD_PATTERN: &'static str = r" *(?:\w+\.)*(\w+) = function \(\) \{";

/// What opens a constructor signature that assigns the class to a variable.
pub const VARIABLE_OPEN: &'static str = "var ";

/// What stands between the name and the parameters in such a signature.
pub const VARIABLE_FUNCTION: &'static str = " = function (";

/// What opens a constructor signature that declares a function.
pub const FUNCTION_OPEN: &'static str = "function ";

/// What stands between the name and the parameters in such a signature.
pub const PARAMETERS_OPEN: &'static str = "(";

/// What closes a constructor signature.
pub const SIGNATURE_CLOSE: &'static str = ") {";

/// What opens a field assignment.
pub const THIS_PREFIX: &'static str = "this.";

/// What opens a field assignment in older sources.
pub const SELF_PREFIX: &'static str = "self.";

/// What stands between a field and the expression assigned to it.
pub const ASSIGNMENT: &'static str = " = ";

/// What ends a field assignment.
pub const STATEMENT_END: &'static str = ";\n";

/// What follows the name in a method marker.
pub const METHOD_ASSIGNMENT: &'static str = " = function () {";

/// Why a class could not be extracted: the catalog and the source have drifted
/// apart.
#[derive(Debug, Clone, Copy, PartialEq, Eq)]
pub enum Drift {
    /// The anchor does not occur in the source file.
    AnchorNotFound,
    /// The anchor names no class.
    NoClassName,
    /// The block holds no constructor signature.
    NoConstructor,
    /// The constructor's name is not the name that the catalog declares.
    NameMismatch,
}

/// A field of a class: its name in snake case, and the expression that the
/// constructor assigns to it, as the source has it.
#[derive(Debug, Clone, PartialEq, Eq)]
pub struct JAttribute {
    pub attribute: String,
    pub value: String,
}

/// A function of a class: its name, its parameters, and its text. For the
/// constructor `body` is what stands between the signature and the first
/// method; for a method it is the whole definition, marker included.
#[derive(Debug, Clone, PartialEq, Eq)]
pub struct JMethod {
    pub name: String,
    pub args: Vec<String>,
    pub body: String,
}

/// A class taken apart.
#[derive(Debug, Clone, PartialEq, Eq)]
pub struct JClass {
    pub name: String,
    pub constructor: JMethod,
    pub attributes: Vec<JAttribute>,
    pub methods: Vec<JMethod>,
    pub trailing: String,
}

/// The model of a `JAttribute`.
pub struct JAttributeView {
    pub attribute: Seq<char>,
    pub value: Seq<char>,
}

/// The model of a `JMethod`.
pub struct JMethodView {
    pub name: Seq<char>,
    pub args: Seq<Seq<char>>,
    pub body: Seq<char>,
}

/// The model of a `JClass`.
pub struct JClassView {
    pub name: Seq<char>,
    pub constructor: JMethodView,
    pub attributes: Seq<JAttributeView>,
    pub methods: Seq<JMethodView>,
    pub trailing: Seq<char>,
}

impl View for JAttribute {
    type V = JAttributeView;

    open spec fn view(&self) -> JAttributeView {
        JAttributeView { attribute: self.attribute@, value: self.value@ }
    }
}

impl DeepView for JAttribute {
    type V = JAttributeView;

    open spec fn deep_view(&self) -> JAttributeView {
        self@
    }
}

impl View for JMethod {
    type V = JMethodView;

    open spec fn view(&self) -> JMethodView {
        JMethodView { name: self.name@, args: self.args.deep_view(), body: self.body@ }
    }
}

impl DeepView for JMethod {
    type V = JMethodView;

    open spec fn deep_view(&self) -> JMethodView {
        self@
    }
}

impl View for JClass {
    type V = JClassView;

    open spec fn view(&self) -> JClassView {
        JClassView {
            name: self.name@,
            constructor: self.constructor@,
            attributes: self.attributes.deep_view(),
            methods: self.methods.deep_view(),
            trailing: self.trailing@,
        }
    }
}

/// The name in a constructor signature: group 1 in the `var` form, group 2 in
/// the `function` form.
pub open spec fn constructor_name(sig: CapturedView) -> Option<Seq<char>> {
    if sig.group(1) is Some {
        sig.group(1)
    } else {
        sig.group(2)
    }
}

/// `text` is a constructor signature for `name` with the parameter list
/// `list`, in either form.
pub open spec fn is_signature(text: Seq<char>, name: Seq<char>, list: Seq<char>) -> bool {
    ||| text == VARIABLE_OPEN@ + name + VARIABLE_FUNCTION@ + list + SIGNATURE_CLOSE@
    ||| text == FUNCTION_OPEN@ + name + PARAMETERS_OPEN@ + list + SIGNATURE_CLOSE@
}

/// `text` is the assignment of `value` to the field `field` that ends its
/// line.
pub open spec fn is_assignment(text: Seq<char>, field: Seq<char>, value: Seq<char>) -> bool {
    ||| text == THIS_PREFIX@ + field + ASSIGNMENT@ + value + STATEMENT_END@
    ||| text == SELF_PREFIX@ + field + ASSIGNMENT@ + value + STATEMENT_END@
}

/// `text` is a marker that opens the zero-argument method `name`: it ends in
/// the name and the assignment of a function without parameters.
pub open spec fn is_marker(text: Seq<char>, name: Seq<char>) -> bool {
    ends_with(text, name + METHOD_ASSIGNMENT@)
}

/// Whether `text` is `open`, `first`, `middle`, `second` and `close` in a row.
fn shaped(text: &String, open: &str, first: &String, middle: &str, second: &String, close: &str) -> (r:
    bool)
    ensures
        r == (text@ == open@ + first@ + middle@ + second@ + close@),
{
    let mut wanted = chars_of(open);
    append_str(&mut wanted, first.as_str());
    append_str(&mut wanted, middle);
    append_str(&mut wanted, second.as_str());
    append_str(&mut wanted, close);
    equal(&chars_of(text.as_str()), &wanted)
}

/// The parameters that a parameter list names: none where the list is blank,
/// else its pieces between commas, each trimmed and put in snake case.
pub open spec fn parameters_of(list: Seq<char>) -> Seq<Seq<char>> {
    if trimmed(list).len() == 0 {
        Seq::empty()
    } else {
        let pieces = segments(list, ',');
        Seq::new(pieces.len(), |i: int| snake_case(trimmed(pieces[i])))
    }
}

/// The parameters that a parameter list names.
pub fn parameters(list: &str) -> (out: Vec<String>)
    ensures
        out.deep_view() == parameters_of(list@),
{
    let text = chars_of(list);
    let mut out: Vec<String> = Vec::new();
    if trim(&text).len() == 0 {
        assert(out.deep_view() =~= parameters_of(list@));
        return out;
    }
    let pieces = split(&text, ',');
    let ghost wanted = segments(list@, ',');
    let mut i: usize = 0;
    while i < pieces.len()
        invariant
            i <= pieces.len(),
            views(pieces@) == wanted,
            out@.len() == i,
            forall|k: int| 0 <= k < i ==> (#[trigger] out@[k])@ == snake_case(trimmed(wanted[k])),
        decreases pieces.len() - i,
    {
        let piece = string_of(&trim(&pieces[i]));
        assert(views(pieces@)[i as int] == pieces@[i as int]@);
        out.push(to_snake_case(piece.as_str()));
        i += 1;
    }
    assert(out.deep_view() =~= parameters_of(list@));
    out
}

/// What a match of the constructor pattern says, held against the name that
/// the catalog declares: the constructor's parameters, or the drift found. A
/// match that lacks the name or the parameter list, or is no signature made
/// of the two, counts as no constructor.
pub open spec fn header_of(sig: CapturedView, name: Seq<char>) -> Result<Seq<Seq<char>>, Drift> {
    match (sig.group(0), constructor_name(sig), sig.group(3)) {
        (Some(whole), Some(parsed), Some(list)) => if !is_signature(whole, parsed, list) {
            Err(Drift::NoConstructor)
        } else if parsed == name {
            Ok(parameters_of(list))
        } else {
            Err(Drift::NameMismatch)
        },
        _ => Err(Drift::NoConstructor),
    }
}

/// Reads a match of the constructor pattern: holds it against the shape of a
/// signature, checks the name in it against `name` and returns the
/// constructor's parameters.
pub fn constructor_header(sig: &Captured, name: &str) -> (r: Result<Vec<String>, Drift>)
    ensures
        match r {
            Ok(params) => header_of(sig@, name@) == Ok::<Seq<Seq<char>>, Drift>(
                params.deep_view(),
            ),
            Err(e) => header_of(sig@, name@) == Err::<Seq<Seq<char>>, Drift>(e),
        },
{
    let whole = match sig.group(0) {
        Some(w) => w,
        None => {
            return Err(Drift::NoConstructor);
        },
    };
    let parsed = match sig.group(1) {
        Some(n) => n,
        None => match sig.group(2) {
            Some(n) => n,
            None => {
                return Err(Drift::NoConstructor);
            },
        },
    };
    let list = match sig.group(3) {
        Some(l) => l,
        None => {
            return Err(Drift::NoConstructor);
        },
    };
    if !shaped(whole, VARIABLE_OPEN, parsed, VARIABLE_FUNCTION, list, SIGNATURE_CLOSE) && !shaped(
        whole,
        FUNCTION_OPEN,
        parsed,
        PARAMETERS_OPEN,
        list,
        SIGNATURE_CLOSE,
    ) {
        return Err(Drift::NoConstructor);
    }
    let declared = name.to_owned();
    if !parsed.eq(&declared) {
        return Err(Drift::NameMismatch);
    }
    Ok(parameters(list.as_str()))
}

/// The field that a match of the attribute pattern stands for: none where
/// the match is no assignment made of its two groups.
pub open spec fn attribute_of(c: CapturedView) -> Option<JAttributeView> {
    match (c.group(0), c.group(1), c.group(2)) {
        (Some(whole), Some(name), Some(value)) => if is_assignment(whole, name, value) {
            Some(JAttributeView { attribute: snake_case(name), value })
        } else {
            None
        },
        _ => None,
    }
}

/// Reads a match of the attribute pattern.
pub fn attribute_from(c: &Captured) -> (r: Option<JAttribute>)
    ensures
        match r {
            Some(a) => attribute_of(c@) == Some(a@),
            None => attribute_of(c@) is None,
        },
{
    match (c.group(0), c.group(1), c.group(2)) {
        (Some(whole), Some(name), Some(value)) => {
            if shaped(whole, THIS_PREFIX, name, ASSIGNMENT, value, STATEMENT_END) || shaped(
                whole,
                SELF_PREFIX,
                name,
                ASSIGNMENT,
                value,
                STATEMENT_END,
            ) {
                Some(JAttribute { attribute: to_snake_case(name.as_str()), value: value.clone() })
            } else {
                None
            }
        },
        _ => None,
    }
}

/// The method that a match of the method pattern opens: its text runs from
/// the marker to the brace that closes the block. None where the match is no
/// marker for the name in its group.
pub open spec fn method_of(c: CapturedView) -> Option<JMethodView> {
    match (c.group(0), c.group(1)) {
        (Some(marker), Some(name)) => if is_marker(marker, name) {
            Some(
                JMethodView {
                    name: snake_case(name),
                    args: Seq::empty(),
                    body: marker + c.after.take(block_end(c.after, 0)),
                },
            )
        } else {
            None
        },
        _ => None,
    }
}

/// Reads a match of the method pattern.
pub fn method_from(c: &Captured) -> (r: Option<JMethod>)
    ensures
        match r {
            Some(m) => method_of(c@) == Some(m@),
            None => method_of(c@) is None,
        },
{
    match (c.group(0), c.group(1)) {
        (Some(marker), Some(name)) => {
            let mut body = chars_of(marker.as_str());
            let mut ending = chars_of(name.as_str());
            append_str(&mut ending, METHOD_ASSIGNMENT);
            assert(body@.take(body.len() as int) =~= body@);
            if !has_suffix(&body, body.len(), &ending) {
                return None;
            }
            let after = chars_of(c.after.as_str());
            let end = close_index(&after, 0);
            let block = slice(&after, 0, end);
            append_chars(&mut body, &block);
            let args: Vec<String> = Vec::new();
            let m = JMethod { name: to_snake_case(name.as_str()), args, body: string_of(&body) };
            assert(m@.args =~= Seq::empty());
            assert(after@.subrange(0, end as int) =~= c@.after.take(end as int));
            Some(m)
        },
        _ => None,
    }
}

/// Where the constructor's body ends in the text behind the signature: at the
/// first method marker, or, with no marker, behind the brace that closes the
/// constructor.
pub open spec fn body_end(rest: Seq<char>) -> int {
    match leftmost_match(METHOD_PATTERN@, rest) {
        Some(m) => m.before.len() as int,
        None => block_end(rest, 0),
    }
}

/// The fields assigned in `text`, which starts `consumed` characters into the
/// text behind the signature: one for each match of the attribute pattern, in
/// order, up to the first match that ends behind `limit`.
pub open spec fn attributes_in(text: Seq<char>, consumed: int, limit: int) -> Seq<JAttributeView>
    decreases text.len(),
{
    match leftmost_match(ATTRIBUTE_PATTERN@, text) {
        Some(c) => {
            let end = consumed + c.before.len() + c.whole().len();
            match attribute_of(c) {
                Some(a) => if c.splits(text) && c.whole().len() > 0 && end <= limit {
                    seq![a] + attributes_in(c.after, end, limit)
                } else {
                    Seq::empty()
                },
                None => Seq::empty(),
            }
        },
        None => Seq::empty(),
    }
}

/// The methods defined in `text`: one for each match of the method pattern,
/// in order. The search goes on behind each marker, so a method defined inside
/// another is found too.
pub open spec fn methods_in(text: Seq<char>) -> Seq<JMethodView>
    decreases text.len(),
{
    match leftmost_match(METHOD_PATTERN@, text) {
        Some(c) => match method_of(c) {
            Some(m) => if c.splits(text) && c.whole().len() > 0 {
                seq![m] + methods_in(c.after)
            } else {
                Seq::empty()
            },
            None => Seq::empty(),
        },
        None => Seq::empty(),
    }
}

/// Where the last method found in `text` ends, counted from `consumed`
/// characters before `text`; `last` where `text` holds no method.
pub open spec fn methods_end(text: Seq<char>, consumed: int, last: int) -> int
    decreases text.len(),
{
    match leftmost_match(METHOD_PATTERN@, text) {
        Some(c) => match method_of(c) {
            Some(m) => if c.splits(text) && c.whole().len() > 0 {
                let behind = consumed + c.before.len() + c.whole().len();
                methods_end(c.after, behind, behind + block_end(c.after, 0))
            } else {
                last
            },
            None => last,
        },
        None => last,
    }
}

/// The class that `content` defines, held against the name that the catalog
/// declares for it.
pub open spec fn extracted(content: Seq<char>, name: Seq<char>) -> Result<JClassView, Drift> {
    match leftmost_match(CONSTRUCTOR_PATTERN@, content) {
        None => Err(Drift::NoConstructor),
        Some(sig) => match header_of(sig, name) {
            Err(e) => Err(e),
            Ok(params) => {
                let rest = sig.after;
                let first = body_end(rest);
                let tail = rest.skip(first);
                Ok(
                    JClassView {
                        name,
                        constructor: JMethodView {
                            name,
                            args: params,
                            body: trimmed(rest.take(first)),
                        },
                        attributes: attributes_in(rest, 0, first),
                        methods: methods_in(tail),
                        trailing: tail.skip(methods_end(tail, 0, 0)),
                    },
                )
            },
        },
    }
}

/// Everything that `class` holds of the source stands in `content` word for
/// word: the constructor's body, the expression of each field and the text
/// of each method somewhere in it, and the trailing text at its end.
pub open spec fn stands_in(content: Seq<char>, class: JClassView) -> bool {
    &&& contains(content, class.constructor.body)
    &&& forall|i: int|
        0 <= i < class.attributes.len() ==> contains(
            content,
            (#[trigger] class.attributes[i]).value,
        )
    &&& forall|i: int|
        0 <= i < class.methods.len() ==> contains(content, (#[trigger] class.methods[i]).body)
    &&& ends_with(content, class.trailing)
}

/// Where the constructor's body ends in `rest`.
fn first_method(rest: &str) -> (first: usize)
    ensures
        first == body_end(rest@),
        first <= rest@.len(),
{
    match leftmost_captures(METHOD_PATTERN, rest) {
        Some(m) => m.before.as_str().unicode_len(),
        None => {
            let text = chars_of(rest);
            close_index(&text, 0)
        },
    }
}

/// The fields assigned in `rest` before `limit`.
fn attributes(rest: &str, limit: usize) -> (out: Vec<JAttribute>)
    ensures
        out.deep_view() == attributes_in(rest@, 0, limit as int),
        forall|i: int|
            0 <= i < out.deep_view().len() ==> contains(
                rest@,
                (#[trigger] out.deep_view()[i]).value,
            ),
{
    let mut out: Vec<JAttribute> = Vec::new();
    let mut hay: String = rest.to_owned();
    let mut consumed: usize = 0;
    let total: usize = rest.unicode_len();
    let ghost skipped: Seq<char> = Seq::empty();
    assert(rest@ =~= skipped + hay@);
    loop
        invariant
            consumed + hay@.len() == total,
            rest@ == skipped + hay@,
            forall|i: int|
                0 <= i < out.deep_view().len() ==> contains(
                    rest@,
                    (#[trigger] out.deep_view()[i]).value,
                ),
            attributes_in(rest@, 0, limit as int) == out.deep_view() + attributes_in(
                hay@,
                consumed as int,
                limit as int,
            ),
        decreases hay@.len(),
    {
        let c = match leftmost_captures(ATTRIBUTE_PATTERN, hay.as_str()) {
            Some(c) => c,
            None => {
                assert(out.deep_view() + Seq::<JAttributeView>::empty() =~= out.deep_view());
                return out;
            },
        };
        let width = match c.group(0) {
            Some(w) => w.as_str().unicode_len(),
            None => 0,
        };
        let lead = c.before.as_str().unicode_len();
        let end = consumed + lead + width;
        let a = match attribute_from(&c) {
            Some(a) => a,
            None => {
                assert(out.deep_view() + Seq::<JAttributeView>::empty() =~= out.deep_view());
                return out;
            },
        };
        if width == 0 || end > limit {
            assert(out.deep_view() + Seq::<JAttributeView>::empty() =~= out.deep_view());
            return out;
        }
        let ghost before = out.deep_view();
        let ghost found = a@;
        out.push(a);
        assert(out.deep_view() =~= before + seq![found]);
        assert(before + (seq![found] + attributes_in(c@.after, end as int, limit as int))
            =~= (before + seq![found]) + attributes_in(c@.after, end as int, limit as int));
        proof {
            let whole = c@.whole();
            let field = c@.group(1)->0;
            assert(contains(whole, found.value)) by {
                lemma_contains_middle(
                    THIS_PREFIX@ + field + ASSIGNMENT@,
                    found.value,
                    STATEMENT_END@,
                );
                lemma_contains_middle(
                    SELF_PREFIX@ + field + ASSIGNMENT@,
                    found.value,
                    STATEMENT_END@,
                );
            }
            lemma_contains_part(skipped + c@.before, whole, c@.after, found.value);
            assert(rest@ =~= (skipped + c@.before) + whole + c@.after);
            skipped = skipped + c@.before + whole;
            assert(rest@ =~= skipped + c@.after);
        }
        consumed = end;
        hay = c.after.clone();
    }
}

/// The methods defined in `tail`, and where the last of them ends.
fn methods(tail: &str) -> (out: (Vec<JMethod>, usize))
    ensures
        out.0.deep_view() == methods_in(tail@),
        out.1 == methods_end(tail@, 0, 0),
        out.1 <= tail@.len(),
        forall|i: int|
            0 <= i < out.0.deep_view().len() ==> contains(
                tail@,
                (#[trigger] out.0.deep_view()[i]).body,
            ),
{
    let mut out: Vec<JMethod> = Vec::new();
    let mut hay: String = tail.to_owned();
    let mut consumed: usize = 0;
    let mut last: usize = 0;
    let total: usize = tail.unicode_len();
    let ghost skipped: Seq<char> = Seq::empty();
    assert(tail@ =~= skipped + hay@);
    loop
        invariant
            consumed + hay@.len() == total,
            tail@ == skipped + hay@,
            forall|i: int|
                0 <= i < out.deep_view().len() ==> contains(
                    tail@,
                    (#[trigger] out.deep_view()[i]).body,
                ),
            total == tail@.len(),
            last <= total,
            methods_in(tail@) == out.deep_view() + methods_in(hay@),
            methods_end(tail@, 0, 0) == methods_end(hay@, consumed as int, last as int),
        decreases hay@.len(),
    {
        let c = match leftmost_captures(METHOD_PATTERN, hay.as_str()) {
            Some(c) => c,
            None => {
                assert(out.deep_view() + Seq::<JMethodView>::empty() =~= out.deep_view());
                return (out, last);
            },
        };
        let width = match c.group(0) {
            Some(w) => w.as_str().unicode_len(),
            None => 0,
        };
        let lead = c.before.as_str().unicode_len();
        let m = match method_from(&c) {
            Some(m) => m,
            None => {
                assert(out.deep_view() + Seq::<JMethodView>::empty() =~= out.deep_view());
                return (out, last);
            },
        };
        if width == 0 {
            assert(out.deep_view() + Seq::<JMethodView>::empty() =~= out.deep_view());
            return (out, last);
        }
        let behind = consumed + lead + width;
        proof {
            lemma_scan_end(c@.after, 0, 0, 1);
            assert(m@.body.len() == width + block_end(c@.after, 0));
        }
        let block = m.body.as_str().unicode_len() - width;
        let ghost before = out.deep_view();
        let ghost found = m@;
        out.push(m);
        assert(out.deep_view() =~= before + seq![found]);
        assert(before + (seq![found] + methods_in(c@.after)) =~= (before + seq![found])
            + methods_in(c@.after));
        proof {
            let whole = c@.whole();
            let cut = block_end(c@.after, 0);
            lemma_contains_middle(skipped + c@.before, found.body, c@.after.skip(cut));
            assert(tail@ =~= (skipped + c@.before) + found.body + c@.after.skip(cut));
            skipped = skipped + c@.before + whole;
            assert(tail@ =~= skipped + c@.after);
        }
        last = behind + block;
        consumed = behind;
        hay = c.after.clone();
    }
}

/// Takes the class that `content` defines apart. `name` is the name that the
/// catalog declares for it.
///
/// Fails with `NoConstructor` where `content` holds no constructor signature,
/// and with `NameMismatch` where the first signature in it names another
/// class.
pub fn extract(content: &str, name: &str) -> (r: Result<JClass, Drift>)
    ensures
        match r {
            Ok(class) => extracted(content@, name@) == Ok::<JClassView, Drift>(class@),
            Err(e) => extracted(content@, name@) == Err::<JClassView, Drift>(e),
        },
        r matches Ok(class) ==> class@.name == name@ && class@.constructor.name == name@
            && stands_in(content@, class@),
{
    let sig = match leftmost_captures(CONSTRUCTOR_PATTERN, content) {
        Some(sig) => sig,
        None => {
            return Err(Drift::NoConstructor);
        },
    };
    let params = match constructor_header(&sig, name) {
        Ok(params) => params,
        Err(e) => {
            return Err(e);
        },
    };
    let rest = chars_of(sig.after.as_str());
    let first = first_method(sig.after.as_str());
    let body = string_of(&trim(&slice(&rest, 0, first)));
    let tail = slice(&rest, first, rest.len());
    let tail_text = string_of(&tail);
    let fields = attributes(sig.after.as_str(), first);
    let (found, end) = methods(tail_text.as_str());
    let trailing = string_of(&slice(&tail, end, tail.len()));
    let class = JClass {
        name: name.to_owned(),
        constructor: JMethod { name: name.to_owned(), args: params, body },
        attributes: fields,
        methods: found,
        trailing,
    };
    assert(rest@.subrange(0, first as int) =~= sig@.after.take(first as int));
    assert(tail@ =~= sig@.after.skip(first as int));
    assert(tail@.subrange(end as int, tail@.len() as int) =~= tail@.skip(end as int));
    proof {
        let front = sig@.before + sig@.whole();
        assert(content@ =~= front + rest@ + Seq::<char>::empty());
        assert(contains(content@, class@.constructor.body)) by {
            lemma_trimmed_within(rest@.take(first as int));
            lemma_contains_take(rest@, first as int, class@.constructor.body);
            lemma_contains_part(front, rest@, Seq::empty(), class@.constructor.body);
        }
        assert forall|i: int| 0 <= i < class@.attributes.len() implies contains(
            content@,
            (#[trigger] class@.attributes[i]).value,
        ) by {
            lemma_contains_part(front, rest@, Seq::empty(), class@.attributes[i].value);
        }
        assert forall|i: int| 0 <= i < class@.methods.len() implies contains(
            content@,
            (#[trigger] class@.methods[i]).body,
        ) by {
            lemma_contains_skip(rest@, first as int, class@.methods[i].body);
            lemma_contains_part(front, rest@, Seq::empty(), class@.methods[i].body);
        }
        assert(content@.skip(content@.len() - class@.trailing.len()) =~= class@.trailing);
    }
    Ok(class)
}

} // verus!
