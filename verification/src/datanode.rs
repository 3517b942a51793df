//! The datanode protocol. Registration of datanodes is all it names, and
//! registering does nothing yet.

use vstd::prelude::*;
use crate::text::same_text;

verus! {

/// The handler of the datanode protocol's requests.
#[derive(Debug, Clone, Copy, PartialEq, Eq, Structural)]
pub struct DatanodeProtocol {}

/// A request that the datanode protocol answers.
#[derive(Debug, Clone, Copy, PartialEq, Eq, Structural)]
pub enum DatanodeMethod {
    RegisterDatanode,
}

impl DatanodeProtocol {
    pub fn new() -> (protocol: DatanodeProtocol)
        ensures
            protocol == (DatanodeProtocol {  }),
    {
        DatanodeProtocol {  }
    }

    /// The method that goes by `name` on the wire, if there is one.
    pub open spec fn named(name: Seq<char>) -> Option<DatanodeMethod> {
        if name == "registerDatanode"@ {
            Some(DatanodeMethod::RegisterDatanode)
        } else {
            None
        }
    }

    /// Finds the method that a request names. A name that belongs to no
    /// method gives `None`: such a request is answered with nothing.
    pub fn method(&self, name: &str) -> (method: Option<DatanodeMethod>)
        ensures
            method == Self::named(name@),
    {
        if same_text(name, "registerDatanode") {
            Some(DatanodeMethod::RegisterDatanode)
        } else {
            None
        }
    }
}

} // verus!
