//! The last pass over rendered HTML: styles inlined, `class` and `id` dropped, and the
//! document shell the parser adds taken off again.

use vstd::prelude::*;

use kuchiki::traits::TendrilSink;
use crate::text::strings_model;
use vstd::string::StringExecFns;

verus! {

#[verifier::external_type_specification]
#[verifier::external_body]
pub struct ExNodeRef(kuchiki::NodeRef);

#[verifier::external_type_specification]
#[verifier::external_body]
pub struct ExInlineError(css_inline::InlineError);

/// The HTML that inlining the `<style>` rules of `html` gives, or `None` where it fails.
pub uninterp spec fn styles_inlined(html: Seq<char>) -> Option<Seq<char>>;

/// What a document holds: its markup with the attributes in no namespace left out,
/// and, for each element in tree order, its attributes in no namespace, name to value.
/// (Elements inside `<template>` contents are not in that list; their markup, attributes
/// included, is in the first part.)
pub type DocumentModel = (Seq<char>, Seq<Map<Seq<char>, Seq<char>>>);

/// What the kuchiki document `doc` holds, as `DocumentModel` describes.
pub uninterp spec fn document_model(doc: kuchiki::NodeRef) -> DocumentModel;

/// What parsing `html` as a whole HTML document gives.
pub uninterp spec fn parsed_document(html: Seq<char>) -> DocumentModel;

/// The serialised children of the first element that the selector `tag` matches in a
/// document, or `None` where it matches none.
pub uninterp spec fn element_children(doc: DocumentModel, tag: Seq<char>) -> Option<Seq<Seq<char>>>;

/// Each element's attributes with `name` removed.
pub open spec fn without_attribute(attrs: Seq<Map<Seq<char>, Seq<char>>>, name: Seq<char>) -> Seq<Map<Seq<char>, Seq<char>>> {
    attrs.map_values(|m: Map<Seq<char>, Seq<char>>| m.remove(name))
}

/// A document with the `class` and `id` attributes removed from every element.
pub open spec fn strip_styling(m: DocumentModel) -> DocumentModel {
    (m.0, without_attribute(without_attribute(m.1, "class"@), "id"@))
}

/// Relies on css_inline's `CSSInliner`, built with `inline_style_tags(true)`,
/// `remove_style_tags(true)` and no extra CSS, and its `inline`: each `<style>` block's
/// rules become `style` attributes on the elements they match and the blocks go. Built
/// without its `http` and `file` features it fetches no linked stylesheet (it fails on
/// one instead), so the outcome depends on the HTML alone.
#[verifier::external_body]
fn inline_style_tags(html: &str) -> (r: Result<String, css_inline::InlineError>)
    ensures
        r is Ok <==> styles_inlined(html@) is Some,
        r matches Ok(s) ==> styles_inlined(html@) == Some(s@),
{
    let inliner = css_inline::CSSInliner::options()
        .inline_style_tags(true)
        .remove_style_tags(true)
        .extra_css(None)
        .build();
    inliner.inline(html)
}

/// Relies on kuchiki's `parse_html().one(..)`: the HTML parsed into a document, with the
/// `html`, `head` and `body` elements an HTML parser supplies. The document depends on
/// the HTML alone.
#[verifier::external_body]
fn parse_document(html: &str) -> (r: kuchiki::NodeRef)
    ensures
        document_model(r) == parsed_document(html@),
{
    kuchiki::parse_html().one(html)
}

/// Relies on kuchiki's `NodeRef::select("*")`, which always parses and yields every
/// element of the document in tree order, and `Attributes::remove`, which drops the
/// attribute of that name (in no namespace) from one element and changes nothing else.
#[verifier::external_body]
fn remove_attribute(doc: &mut kuchiki::NodeRef, name: &str)
    ensures
        document_model(*final(doc)).0 == document_model(*old(doc)).0,
        document_model(*final(doc)).1 == without_attribute(document_model(*old(doc)).1, name@),
{
    if let Ok(elements) = doc.select("*") {
        for element in elements {
            element.attributes.borrow_mut().remove(name);
        }
    }
}

/// Relies on kuchiki's `NodeRef::select_first(tag)`, then the element's `children()`,
/// each serialised by `to_string`. `None` where no element matches.
#[verifier::external_body]
fn children_markup(doc: &kuchiki::NodeRef, tag: &str) -> (r: Option<Vec<String>>)
    ensures
        r is Some <==> element_children(document_model(*doc), tag@) is Some,
        r matches Some(v) ==> element_children(document_model(*doc), tag@) == Some(
            strings_model(v@),
        ),
{
    match doc.select_first(tag) {
        Ok(element) => Some(element.as_node().children().map(|node| node.to_string()).collect()),
        Err(()) => None,
    }
}

/// Why the sanitize pass gave up.
pub enum SanitizeError {
    /// The `<style>` rules could not be inlined.
    StyleInline(css_inline::InlineError),
    /// The parsed document had no `body` element.
    MissingBody,
}

impl SanitizeError {
    /// A description of the failure.
    pub fn message(&self) -> (r: String)
        ensures
            self is StyleInline ==> r@ == "could not inline the style tags"@,
            self is MissingBody ==> r@ == "the document has no body element"@,
    {
        match self {
            SanitizeError::StyleInline(_) => String::from_str("could not inline the style tags"),
            SanitizeError::MissingBody => String::from_str("the document has no body element"),
        }
    }
}

/// `parts` joined, with `sep` between each two.
pub open spec fn join(parts: Seq<Seq<char>>, sep: Seq<char>) -> Seq<char>
    decreases parts.len(),
{
    if parts.len() == 0 {
        Seq::empty()
    } else if parts.len() == 1 {
        parts[0]
    } else {
        join(parts.drop_last(), sep) + sep + parts.last()
    }
}

/// The strings of `parts`, one per line: joined with a line feed between each two.
pub fn join_lines(parts: &Vec<String>) -> (r: String)
    ensures
        r@ == join(strings_model(parts@), "\n"@),
{
    let mut out = String::new();
    let mut i: usize = 0;
    while i < parts.len()
        invariant
            i <= parts.len(),
            out@ == join(strings_model(parts@).take(i as int), "\n"@),
        decreases parts.len() - i,
    {
        let ghost before = strings_model(parts@).take(i as int);
        if i > 0 {
            out.append("\n");
        }
        out.append(parts[i].as_str());
        i = i + 1;
        assert(strings_model(parts@).take(i as int).drop_last() =~= before);
        assert(i == 1 ==> strings_model(parts@).take(i as int) =~= seq![parts@[0]@]);
    }
    assert(strings_model(parts@).take(i as int) =~= strings_model(parts@));
    out
}

/// Removes the `class` and `id` attributes from every element of `document`; the
/// markup, the elements and every other attribute stay as they were.
pub fn remove_class_and_id_attributes(document: &mut kuchiki::NodeRef) -> (r: Result<(), ()>)
    ensures
        r is Ok,
        document_model(*final(document)) == strip_styling(document_model(*old(document))),
{
    remove_attribute(document, "class");
    remove_attribute(document, "id");
    Ok(())
}

/// After `strip_styling`, no element has a `class` or an `id` attribute; the markup, the
/// elements and every other attribute are those of the document before.
pub proof fn lemma_strip_styling(m: DocumentModel)
    ensures
        strip_styling(m).0 == m.0,
        strip_styling(m).1.len() == m.1.len(),
        forall|i: int|
            0 <= i < m.1.len() ==> !(#[trigger] strip_styling(m).1[i]).contains_key("class"@)
                && !strip_styling(m).1[i].contains_key("id"@),
        forall|i: int, k: Seq<char>|
            0 <= i < m.1.len() && k != "class"@ && k != "id"@ ==> (#[trigger] strip_styling(
                m,
            ).1[i].contains_key(k) <==> m.1[i].contains_key(k)) && (m.1[i].contains_key(k)
                ==> strip_styling(m).1[i][k] == m.1[i][k]),
{
}

/// The host-ready fragment made of rendered HTML: `<style>` rules inlined as `style`
/// attributes, then the result parsed as a document, `class` and `id` removed from every
/// element, and the children of its body serialised, one per line, without the
/// document shell.
pub fn sanitize(html: &str) -> (r: Result<String, SanitizeError>)
    ensures
        match styles_inlined(html@) {
            None => r matches Err(SanitizeError::StyleInline(_)),
            Some(h) => match element_children(strip_styling(parsed_document(h)), "body"@) {
                Some(parts) => r matches Ok(s) && s@ == join(parts, "\n"@),
                None => r matches Err(SanitizeError::MissingBody),
            },
        },
{
    let inlined = match inline_style_tags(html) {
        Ok(s) => s,
        Err(e) => {
            return Err(SanitizeError::StyleInline(e));
        },
    };
    let mut document = parse_document(inlined.as_str());
    let _ = remove_class_and_id_attributes(&mut document);
    match children_markup(&document, "body") {
        Some(parts) => {
            let s = join_lines(&parts);
            Ok(s)
        },
        None => Err(SanitizeError::MissingBody),
    }
}

} // verus!
