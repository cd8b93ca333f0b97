//! JSON documents and pointer resolution, through simdjson.
//!
//! A parsed document is opaque; what the engine reads of it — whether a line
//! parses, whether a pointer resolves, the resolved value's minimal rendering
//! and whether its type is string — is a function of the document's text and
//! the pointer, named by uninterpreted spec functions and assumed only at the
//! wrappers below.
use crate::format::{unquote_str, unquoted, views_of};
use vstd::prelude::*;

verus! {

/// Whether a line of text parses as one JSON document.
pub uninterp spec fn json_parses(line: Seq<char>) -> bool;

/// Whether a JSON pointer resolves to a value in the document with the given
/// text.
pub uninterp spec fn resolves_at(doc: Seq<char>, ptr: Seq<char>) -> bool;

/// Whether the value a pointer resolves to is string-typed.
pub uninterp spec fn is_string_at(doc: Seq<char>, ptr: Seq<char>) -> bool;

/// The minimal (whitespace-free) JSON rendering of the value a pointer
/// resolves to.
pub uninterp spec fn rendered_at(doc: Seq<char>, ptr: Seq<char>) -> Seq<char>;

#[verifier::external_type_specification]
#[verifier::external_body]
pub struct ExParser(simdjson_rust::dom::parser::Parser);

#[verifier::external_type_specification]
#[verifier::external_body]
pub struct ExElement<'a>(simdjson_rust::dom::element::Element<'a>);

/// A parsed JSON document together with the text it was parsed from. Only
/// `parse_doc` builds one, so the element always belongs to the text.
pub struct Doc<'a> {
    el: simdjson_rust::dom::element::Element<'a>,
    src: String,
}

impl<'a> Doc<'a> {
    /// The text this document was parsed from.
    pub closed spec fn text(&self) -> Seq<char> {
        self.src@
    }
}

/// A value resolved inside a document, together with the document text and
/// the pointer that reached it. Only `value_at` builds one.
pub struct Val<'a> {
    el: simdjson_rust::dom::element::Element<'a>,
    src: String,
    ptr: String,
}

impl<'a> Val<'a> {
    /// The text of the document this value was resolved in.
    pub closed spec fn text(&self) -> Seq<char> {
        self.src@
    }

    /// The pointer that reached this value.
    pub closed spec fn pointer(&self) -> Seq<char> {
        self.ptr@
    }
}

/// Relies on simdjson's dom::Parser::default to construct the parser
/// resource; nothing is assumed of it.
#[verifier::external_body]
pub fn new_parser() -> simdjson_rust::dom::parser::Parser {
    simdjson_rust::dom::parser::Parser::default()
}

/// Relies on simdjson's dom::Parser::parse: whether a line parses as one
/// JSON document depends on the line's text alone.
#[verifier::external_body]
pub fn parse_doc<'p>(parser: &'p mut simdjson_rust::dom::parser::Parser, line: &str) -> (r: Option<
    Doc<'p>,
>)
    ensures
        r is Some <==> json_parses(line@),
        r is Some ==> r.unwrap().text() == line@,
{
    match parser.parse(line) {
        Ok(el) => Some(Doc { el, src: line.to_string() }),
        Err(_) => None,
    }
}

/// Relies on simdjson's Element::at_pointer: whether a JSON pointer resolves
/// in a parsed document depends on the document's text and the pointer alone.
#[verifier::external_body]
fn value_at<'d>(doc: &'d Doc<'_>, ptr: &str) -> (r: Option<Val<'d>>)
    ensures
        r is Some <==> resolves_at(doc.text(), ptr@),
        r is Some ==> r.unwrap().text() == doc.text() && r.unwrap().pointer() == ptr@,
{
    match doc.el.at_pointer(ptr) {
        Ok(el) => Some(Val { el, src: doc.src.clone(), ptr: ptr.to_string() }),
        Err(_) => None,
    }
}

/// Relies on simdjson's Element::get_type: a resolved value's JSON type
/// depends on the document's text and the pointer alone.
#[verifier::external_body]
fn value_is_string(v: &Val<'_>) -> (r: bool)
    ensures
        r == is_string_at(v.text(), v.pointer()),
{
    match v.el.get_type() {
        simdjson_rust::dom::element::ElementType::String => true,
        _ => false,
    }
}

/// Relies on simdjson's Element::minify: the minimal JSON rendering of a
/// resolved value depends on the document's text and the pointer alone, and
/// a string-typed value's rendering is enclosed in quote characters.
#[verifier::external_body]
fn minify_value(v: &Val<'_>) -> (r: String)
    ensures
        r@ == rendered_at(v.text(), v.pointer()),
        is_string_at(v.text(), v.pointer()) ==> r@.len() >= 2 && r@[0] == '"' && r@[r@.len() - 1]
            == '"',
{
    v.el.minify()
}

/// How one resolved value is rendered: raw mode strips the enclosing quotes
/// from a string-typed value; everything else keeps its minimal rendering.
pub open spec fn render_one(doc: Seq<char>, ptr: Seq<char>, raw: bool) -> Seq<char> {
    if raw && is_string_at(doc, ptr) {
        unquoted(rendered_at(doc, ptr))
    } else {
        rendered_at(doc, ptr)
    }
}

/// Whether every pointer of the list resolves in the document.
pub open spec fn all_resolve(doc: Seq<char>, pointers: Seq<Seq<char>>) -> bool {
    forall|i: int| 0 <= i < pointers.len() ==> resolves_at(doc, pointers[i])
}

/// The rendered values of all pointers, in pointer-list order.
pub open spec fn rendered_fields(doc: Seq<char>, pointers: Seq<Seq<char>>, raw: bool) -> Seq<
    Seq<char>,
> {
    pointers.map_values(|p: Seq<char>| render_one(doc, p, raw))
}

/// Resolves every pointer against the document and renders each value, in
/// order; fails without a partial result as soon as one pointer does not
/// resolve.
pub fn extract_fields(doc: &Doc<'_>, pointers: &Vec<String>, drop_quotes: bool) -> (r: Result<
    Vec<String>,
    &'static str,
>)
    ensures
        r is Ok <==> all_resolve(doc.text(), views_of(pointers@)),
        r is Ok ==> r.unwrap()@.len() == pointers@.len(),
        r is Ok ==> views_of(r.unwrap()@) == rendered_fields(
            doc.text(),
            views_of(pointers@),
            drop_quotes,
        ),
{
    let mut results: Vec<String> = Vec::new();
    let mut i: usize = 0;
    while i < pointers.len()
        invariant
            i <= pointers@.len(),
            results@.len() == i,
            forall|j: int| 0 <= j < i ==> resolves_at(doc.text(), #[trigger] pointers@[j]@),
            forall|j: int|
                0 <= j < i ==> #[trigger] results@[j]@ == render_one(
                    doc.text(),
                    pointers@[j]@,
                    drop_quotes,
                ),
        decreases pointers@.len() - i,
    {
        match value_at(doc, pointers[i].as_str()) {
            Some(v) => {
                let is_s = value_is_string(&v);
                let m = minify_value(&v);
                let s = if drop_quotes {
                    unquote_str(is_s, m.as_str())
                } else {
                    m
                };
                results.push(s);
            },
            None => {
                proof {
                    assert(!resolves_at(doc.text(), views_of(pointers@)[i as int]));
                }
                return Err("parse error");
            },
        }
        i = i + 1;
    }
    proof {
        assert forall|k: int| 0 <= k < views_of(pointers@).len() implies resolves_at(
            doc.text(),
            #[trigger] views_of(pointers@)[k],
        ) by {
            assert(views_of(pointers@)[k] == pointers@[k]@);
        }
        assert(views_of(results@) =~= rendered_fields(doc.text(), views_of(pointers@), drop_quotes));
    }
    Ok(results)
}

} // verus!
