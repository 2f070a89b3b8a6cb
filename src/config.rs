//! Settings taken from the command line.
use vstd::prelude::*;

verus! {

/// Where the polymer is read from.
pub struct Config {
    pub filename: String,
}

impl Config {
    /// Takes the first argument as the file name.
    pub fn new(args: &[String]) -> (r: Result<Config, &'static str>)
        requires
            args@.len() > 0,
        ensures
            r matches Ok(c) && c.filename@ == args@[0]@,
    {
        let filename = args[0].clone();
        Ok(Config { filename })
    }
}

} // verus!
