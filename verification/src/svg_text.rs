//! Trusted serialization of single scene elements.
//!
//! Each function hands one element to the `svg` crate and returns its
//! serialized text.  The crate writes an element as `<name a="v" .../>`
//! with the attributes sorted by name, escapes `&`, `<`, `>` and quotes in
//! attribute values and `&`, `<`, `>` in text content, writes raw (`Blob`)
//! children unchanged, and puts a newline around child nodes; its output
//! is a pure function of the element.  The contracts below restate that
//! text exactly, for values free of the escaped characters.

use vstd::prelude::*;

use svg::Document;
use svg::node::Blob;
use svg::node::element::{Group, Line, Rectangle, Text};

use crate::fmt::markup_safe;

verus! {

/// The serialized form of a rectangle element.
pub open spec fn rect_text(
    x: Seq<char>,
    y: Seq<char>,
    w: Seq<char>,
    h: Seq<char>,
    fill: Seq<char>,
) -> Seq<char> {
    "<rect fill=\""@ + fill + "\" height=\""@ + h + "\" width=\""@ + w + "\" x=\""@ + x
        + "\" y=\""@ + y + "\"/>"@
}

/// The serialized form of a line element.
pub open spec fn line_text(
    x1: Seq<char>,
    x2: Seq<char>,
    y1: Seq<char>,
    y2: Seq<char>,
    stroke: Seq<char>,
    stroke_width: Seq<char>,
) -> Seq<char> {
    "<line stroke=\""@ + stroke + "\" stroke-width=\""@ + stroke_width + "\" x1=\""@ + x1
        + "\" x2=\""@ + x2 + "\" y1=\""@ + y1 + "\" y2=\""@ + y2 + "\"/>"@
}

/// The serialized form of a text element holding one label, which the
/// crate writes between newlines.
pub open spec fn text_el_text(
    x: Seq<char>,
    y: Seq<char>,
    anchor: Seq<char>,
    label: Seq<char>,
) -> Seq<char> {
    "<text text-anchor=\""@ + anchor + "\" x=\""@ + x + "\" y=\""@ + y + "\">\n"@ + label
        + "\n</text>"@
}

/// The serialized form of a group holding already-serialized children.
pub open spec fn group_text(
    fill: Seq<char>,
    font_family: Seq<char>,
    font_size: Seq<char>,
    body: Seq<char>,
) -> Seq<char> {
    "<g fill=\""@ + fill + "\" font-family=\""@ + font_family + "\" font-size=\""@ + font_size
        + "\">\n"@ + body + "\n</g>"@
}

/// The serialized form of a document holding already-serialized children.
pub open spec fn document_text(
    height: Seq<char>,
    preserve: Seq<char>,
    view_box: Seq<char>,
    width: Seq<char>,
    body: Seq<char>,
) -> Seq<char> {
    "<svg height=\""@ + height + "\" preserveAspectRatio=\""@ + preserve + "\" viewBox=\""@
        + view_box + "\" width=\""@ + width + "\" xmlns=\"http://www.w3.org/2000/svg\">\n"@ + body
        + "\n</svg>"@
}

/// The serialized form of a document with no children.
pub open spec fn empty_document_text(
    height: Seq<char>,
    preserve: Seq<char>,
    view_box: Seq<char>,
    width: Seq<char>,
) -> Seq<char> {
    "<svg height=\""@ + height + "\" preserveAspectRatio=\""@ + preserve + "\" viewBox=\""@
        + view_box + "\" width=\""@ + width + "\" xmlns=\"http://www.w3.org/2000/svg\"/>"@
}

/// Relies on `svg::node::element::Rectangle` and its `Display`: attributes
/// sorted by name, values escaped (here the identity), self-closing tag.
#[verifier::external_body]
pub fn rect_markup(x: &str, y: &str, w: &str, h: &str, fill: &str) -> (r: String)
    requires
        markup_safe(x@),
        markup_safe(y@),
        markup_safe(w@),
        markup_safe(h@),
        markup_safe(fill@),
    ensures
        r@ == rect_text(x@, y@, w@, h@, fill@),
{
    Rectangle::new().set("x", x).set("y", y).set("width", w).set("height", h).set(
        "fill",
        fill,
    ).to_string()
}

/// Relies on `svg::node::element::Line` and its `Display`.
#[verifier::external_body]
pub fn line_markup(x1: &str, x2: &str, y1: &str, y2: &str, stroke: &str, stroke_width: &str) -> (r:
    String)
    requires
        markup_safe(x1@),
        markup_safe(x2@),
        markup_safe(y1@),
        markup_safe(y2@),
        markup_safe(stroke@),
        markup_safe(stroke_width@),
    ensures
        r@ == line_text(x1@, x2@, y1@, y2@, stroke@, stroke_width@),
{
    Line::new().set("x1", x1).set("x2", x2).set("y1", y1).set("y2", y2).set("stroke", stroke).set(
        "stroke-width",
        stroke_width,
    ).to_string()
}

/// Relies on `svg::node::element::Text`, whose constructor takes the label
/// as a text child written between newlines.
#[verifier::external_body]
pub fn text_markup(x: &str, y: &str, anchor: &str, label: &str) -> (r: String)
    requires
        markup_safe(x@),
        markup_safe(y@),
        markup_safe(anchor@),
        markup_safe(label@),
    ensures
        r@ == text_el_text(x@, y@, anchor@, label@),
{
    Text::new(label).set("x", x).set("y", y).set("text-anchor", anchor).to_string()
}

/// Relies on `svg::node::element::Group` with one raw (`Blob`) child,
/// which `Display` writes unchanged between newlines.
#[verifier::external_body]
pub fn group_markup(fill: &str, font_family: &str, font_size: &str, body: &str) -> (r: String)
    requires
        markup_safe(fill@),
        markup_safe(font_family@),
        markup_safe(font_size@),
    ensures
        r@ == group_text(fill@, font_family@, font_size@, body@),
{
    Group::new().set("font-family", font_family).set("font-size", font_size).set("fill", fill).add(
        Blob::new(body),
    ).to_string()
}

/// Relies on `svg::Document` (which carries the `xmlns` attribute from
/// birth) with one raw (`Blob`) child.
#[verifier::external_body]
pub fn document_markup(height: &str, preserve: &str, view_box: &str, width: &str, body: &str) -> (r:
    String)
    requires
        markup_safe(height@),
        markup_safe(preserve@),
        markup_safe(view_box@),
        markup_safe(width@),
    ensures
        r@ == document_text(height@, preserve@, view_box@, width@, body@),
{
    Document::new().set("width", width).set("height", height).set("viewBox", view_box).set(
        "preserveAspectRatio",
        preserve,
    ).add(Blob::new(body)).to_string()
}

/// Relies on `svg::Document` with no children: a self-closing root tag.
#[verifier::external_body]
pub fn empty_document_markup(height: &str, preserve: &str, view_box: &str, width: &str) -> (r:
    String)
    requires
        markup_safe(height@),
        markup_safe(preserve@),
        markup_safe(view_box@),
        markup_safe(width@),
    ensures
        r@ == empty_document_text(height@, preserve@, view_box@, width@),
{
    Document::new().set("width", width).set("height", height).set("viewBox", view_box).set(
        "preserveAspectRatio",
        preserve,
    ).to_string()
}

} // verus!
