//! The arguments of the external rasterizer, and the reading of its exit
//! status.
use vstd::prelude::*;

verus! {

/// The program that writes a PDF's page images.
pub const RASTERIZER: &'static str = "pdfimages";

/// Why rasterizing failed.
#[derive(PartialEq, Eq, Structural, Clone, Copy, Debug)]
pub enum RasterError {
    /// The rasterizer could not be started.
    Spawn,
    /// The rasterizer ran and reported failure, with its exit code if any.
    ExitFailure(Option<i32>),
}

/// The prefix of the image files that the rasterizer writes into `dir`.
pub fn output_prefix(dir: &str) -> (r: String)
    ensures
        r@ == dir@ + "/page"@,
{
    let mut r = dir.to_owned();
    r.append("/page");
    r
}

/// The outcome of a rasterizer run that exited: success only when it
/// reported success.
pub fn check_exit(success: bool, code: Option<i32>) -> (r: Result<(), RasterError>)
    ensures
        success ==> r is Ok,
        !success ==> r == Err::<(), RasterError>(RasterError::ExitFailure(code)),
{
    if success {
        Ok(())
    } else {
        Err(RasterError::ExitFailure(code))
    }
}

} // verus!
