//! Run configuration.  Parsing command-line text into it is a boundary
//! concern and happens outside the library.
use vstd::prelude::*;
use vstd::string::StringExecFns;

verus! {

/// The picker's configuration, with the documented defaults.
#[derive(Clone)]
pub struct Args {
    pub directory: String,
    pub thumbnail_size: u32,
    pub command: String,
    pub selected_image_file: String,
    pub debug: bool,
    pub pregenerate: bool,
}

impl core::default::Default for Args {
    /// The default configuration: scan `.`, 150-pixel thumbnails, apply with
    /// `feh --bg-max`, record the pick in `selected-background.txt`.
    fn default() -> (r: Args)
        ensures
            r.directory@ == "."@,
            r.thumbnail_size == 150,
            r.command@ == "feh --bg-max"@,
            r.selected_image_file@ == "selected-background.txt"@,
            !r.debug,
            !r.pregenerate,
    {
        Args {
            directory: String::from_str("."),
            thumbnail_size: 150,
            command: String::from_str("feh --bg-max"),
            selected_image_file: String::from_str("selected-background.txt"),
            debug: false,
            pregenerate: false,
        }
    }
}

} // verus!
