//! A Wavefront-OBJ geometry loader together with the fixed-point
//! linear-algebra kernel it depends on.
//!
//! The loader turns a line-oriented text description of a mesh into a
//! render-ready, deduplicated vertex/index buffer: it resolves 1-based and
//! negative face indices, validates that all corners of a face share one
//! attribute shape, fan-triangulates polygons, centers the model on its
//! bounding-box midpoint and merges face corners that address the same
//! `(position, texture, normal)` triple.
//!
//! Scalars are decimal fixed-point numbers (`scalar::Scalar`), so every
//! arithmetic step has an exact, machine-checkable meaning.

use vstd::prelude::*;

pub mod matrix;
pub mod obj;
pub mod scalar;
pub mod vector;

verus! {

/// Command-line configuration: the path of the model file to load.
pub struct Config {
    pub path: String,
}

impl Config {
    /// Builds the configuration from the argument list; the first entry is
    /// the program name and the second is the model path.
    pub fn build(args: Vec<String>) -> (r: Result<Config, &'static str>)
        ensures
            args@.len() >= 2 ==> (r matches Ok(c) && c.path@ == args@[1]@),
            args@.len() < 2 ==> (r matches Err(e) && e@ == "No query String"@),
    {
        if args.len() >= 2 {
            let path = args[1].clone();
            Ok(Config { path })
        } else {
            Err("No query String")
        }
    }
}

} // verus!
