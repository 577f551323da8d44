//! Road cross-section survey data: reading DXF and CSV text, choosing and
//! paging the sections of a route, and the text of drawing title blocks.
use vstd::prelude::*;

pub mod text;
pub mod dxf_parser;
pub mod title_block;
pub mod sections;
pub mod pages;
pub mod drawing_ir;
pub mod csv_sections;
pub mod json_text;
pub mod routes;

verus! {

/// Returns the route identifier used when none is given.
pub fn default_route_id() -> (r: String)
    ensures
        r@ == "route_1"@,
{
    String::from_str("route_1")
}

} // verus!
