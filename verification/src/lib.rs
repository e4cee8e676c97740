use vstd::prelude::*;

pub mod text;
pub mod decode;
pub mod registers;
pub mod width;
pub mod constants;
pub mod conditions;
pub mod frame;
pub mod surface;
pub mod profile;
pub mod sections;
pub mod cfg;
pub mod layout;
pub mod writers;
pub mod functions;
pub mod extents;
pub mod annotate;
pub mod native;
pub mod strings;
pub mod diagnostics;
pub mod binary;
pub mod parse;
pub mod jobs;

verus! {

} // verus!
