//! Output path layout: where a processed image is written.

use vstd::prelude::*;
use vstd::string::StringExecFns;

verus! {

/// The directory a sample's output belongs in: the category subdirectory
/// assigned to the sample when it has one, the plain output directory
/// otherwise.  Both come back with a trailing separator.
pub fn output_dir(dir: &str, subdir: Option<&str>) -> (r: String)
    ensures
        match subdir {
            Some(s) => r@ == dir@ + "/"@ + s@ + "/"@,
            None => r@ == dir@ + "/"@,
        },
{
    let mut r: String = dir.to_owned();
    match subdir {
        Some(s) => {
            r.append("/");
            r.append(s);
            r.append("/");
            proof {
                assert(r@ =~= dir@ + "/"@ + s@ + "/"@);
            }
        },
        None => {
            r.append("/");
        },
    }
    r
}

} // verus!
