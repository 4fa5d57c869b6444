use vstd::prelude::*;
use vstd::string::StringExecFns;

verus! {

/// An exception raised on the host side, as the host runtime formatted it.
#[derive(Clone, Debug)]
pub struct OCamlExn {
    pub message: String,
}

impl OCamlExn {
    /// The exception as text for native error reports.
    pub fn to_string(&self) -> (r: String)
        ensures
            r@ == "ocaml exn: "@ + self.message@,
    {
        let mut r = String::from_str("ocaml exn: ");
        r.append(self.message.as_str());
        r
    }
}

} // verus!
