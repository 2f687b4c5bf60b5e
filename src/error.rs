use vstd::prelude::*;

verus! {

/// A command line that the program refuses.
pub struct InvalidArgError {
    /// The argument that was refused.
    pub details: String,
}

impl InvalidArgError {
    pub fn new(msg: String) -> (r: Box<InvalidArgError>)
        ensures
            r.details == msg,
    {
        Box::new(InvalidArgError { details: msg })
    }
}

} // verus!
