use vstd::prelude::*;

verus! {

/// What can go wrong while reading colors and resolving a palette.
#[derive(Debug)]
pub enum Error {
    /// A color literal that is not six hexadecimal digits; holds the text after any `#`.
    InvalidHex(String),
    /// Malformed expression syntax or numeric argument; holds the offending text.
    InvalidColorExpr(String),
    /// A reference to a slot that is not available; holds `group.key`.
    UnresolvedRef(String),
}

/// The mathematical value of an [`Error`].
pub ghost enum Fault {
    InvalidHex(Seq<char>),
    InvalidColorExpr(Seq<char>),
    UnresolvedRef(Seq<char>),
}

impl View for Error {
    type V = Fault;

    open spec fn view(&self) -> Fault {
        match self {
            Error::InvalidHex(s) => Fault::InvalidHex(s@),
            Error::InvalidColorExpr(s) => Fault::InvalidColorExpr(s@),
            Error::UnresolvedRef(s) => Fault::UnresolvedRef(s@),
        }
    }
}

} // verus!
