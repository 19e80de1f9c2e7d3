//! The command line options.
use vstd::prelude::*;

verus! {

/// The command line options: the directory to work in.
#[derive(Debug, Clone)]
pub struct Opt {
    pub dir: Option<String>,
}

/// The directory to work in: the one given, else the current directory
/// (when it is known), else `.`.
pub fn start_directory(opt: &Opt, current: Option<String>) -> (r: String)
    ensures
        match opt.dir {
            Some(d) => r@ == d@,
            None => match current {
                Some(c) => r@ == c@,
                None => r@ == "."@,
            },
        },
{
    match &opt.dir {
        Some(d) => d.clone(),
        None => match current {
            Some(c) => c,
            None => String::from_str("."),
        },
    }
}

} // verus!
