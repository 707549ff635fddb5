use lyon::tessellation::VertexBuffers;
use vstd::prelude::*;

use super::vertex::SVGVertex;
use crate::util::bounds::Bounds;

verus! {

/// The text of an SVG document.
pub struct SVGSource(pub String);

impl Clone for SVGSource {
    fn clone(&self) -> (r: Self)
        ensures
            r.0@ == self.0@,
    {
        SVGSource(self.0.clone())
    }
}

/// The vertices held by a tessellated geometry buffer: its field `vertices`.
pub uninterp spec fn svg_vertices(buffers: VertexBuffers<SVGVertex, u32>) -> Seq<SVGVertex>;

/// The indices held by a tessellated geometry buffer: its field `indices`.
pub uninterp spec fn svg_indices(buffers: VertexBuffers<SVGVertex, u32>) -> Seq<u32>;

/// The public field `vertices` of a tessellated geometry buffer.
#[verifier::external_body]
pub(crate) fn svg_vertex_slice(b: &VertexBuffers<SVGVertex, u32>) -> (r: &[SVGVertex])
    ensures
        r@ == svg_vertices(*b),
{
    b.vertices.as_slice()
}

/// The public field `indices` of a tessellated geometry buffer.
#[verifier::external_body]
pub(crate) fn svg_index_slice(b: &VertexBuffers<SVGVertex, u32>) -> (r: &[u32])
    ensures
        r@ == svg_indices(*b),
{
    b.indices.as_slice()
}

/// usvg's parsed SVG document.
#[verifier::external_type_specification]
#[verifier::external_body]
pub struct ExSvgTree(usvg::Tree);

/// usvg's reason for refusing a document.
#[verifier::external_type_specification]
#[verifier::external_body]
pub struct ExSvgError(usvg::Error);

/// Whether usvg, with its default options, reads `text` as an SVG document.
pub uninterp spec fn svg_parses(text: Seq<char>) -> bool;

/// `usvg::Tree::from_str` with `usvg::Options::default()`: parses the text
/// of an SVG document. With the default options nothing but the text is
/// read, so whether it succeeds depends on the text alone; the tree itself
/// is opaque here.
#[verifier::external_body]
fn parse_svg_text(text: &str) -> (r: Result<usvg::Tree, usvg::Error>)
    ensures
        r is Ok <==> svg_parses(text@),
{
    usvg::Tree::from_str(text, &usvg::Options::default())
}

impl SVGSource {
    /// Parses the document, which is then tessellated; the error where
    /// usvg refuses it.
    pub fn parse(&self) -> (r: Result<usvg::Tree, usvg::Error>)
        ensures
            r is Ok <==> svg_parses(self.0@),
    {
        parse_svg_text(self.0.as_str())
    }
}

/// Tessellated vector geometry together with the source it came from and
/// the box it covers.
pub struct SVGGeometry {
    pub source: SVGSource,
    pub vertex_buffers: VertexBuffers<SVGVertex, u32>,
    pub hit_box: Bounds,
}

} // verus!
