//! The first form of the command line: an input and an output path, taken
//! in order.

use vstd::prelude::*;

verus! {

/// Arguments of the first command line.
pub struct Args {
    pub scale: u8,
    pub input_file_path: String,
    pub output_file_path: String,
}

impl Args {
    /// The sampling scale this command line always uses.
    pub const DEFAULT_SCALE: u8 = 10;

    /// The arguments in `words`, the program name first: the input path,
    /// then the output path; anything after them is ignored.
    pub fn from_arg_list(words: &Vec<String>) -> (args: Args)
        requires
            words@.len() >= 3,
        ensures
            args.scale == 10,
            args.input_file_path@ == words@[1]@,
            args.output_file_path@ == words@[2]@,
    {
        Args {
            scale: Args::DEFAULT_SCALE,
            input_file_path: words[1].clone(),
            output_file_path: words[2].clone(),
        }
    }
}

} // verus!
