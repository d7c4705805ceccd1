use vstd::prelude::*;
use vstd::string::StringExecFns;

verus! {

/// What the library reports when a request cannot be served.
#[derive(Debug)]
pub enum Error {
    /// The graph and a request made of it do not fit together.
    Graph(String),
}

impl Error {
    /// The text that comes with the error.
    pub open spec fn detail(self) -> Seq<char> {
        match self {
            Error::Graph(text) => text@,
        }
    }

    /// The error as a line for a reader.
    pub open spec fn rendered(self) -> Seq<char> {
        "error with graph: "@ + self.detail()
    }

    /// Writes the error out as a line for a reader.
    pub fn message(&self) -> (line: String)
        ensures
            line@ == self.rendered(),
    {
        match self {
            Error::Graph(text) => String::from_str("error with graph: ").concat(text.as_str()),
        }
    }
}

} // verus!
