//! Identities and content digests, held by their canonical texts.
use vstd::prelude::*;
use crate::value::Value;

verus! {

/// A 128-bit identity in its canonical text form.
#[derive(Clone, Debug, PartialEq, Eq, Hash)]
pub struct Id128 {
    pub text: String,
}

impl View for Id128 {
    type V = Seq<char>;

    open spec fn view(&self) -> Seq<char> {
        self.text@
    }
}

impl Value for Id128 {
    fn copy(&self) -> (r: Self) {
        Id128 { text: self.text.clone() }
    }

    fn same(&self, other: &Self) -> (r: bool) {
        self.text == other.text
    }
}

/// A content digest in its canonical text form.
#[derive(Clone, Debug, PartialEq, Eq, Hash)]
pub struct Digest {
    pub text: String,
}

impl View for Digest {
    type V = Seq<char>;

    open spec fn view(&self) -> Seq<char> {
        self.text@
    }
}

impl Value for Digest {
    fn copy(&self) -> (r: Self) {
        Digest { text: self.text.clone() }
    }

    fn same(&self, other: &Self) -> (r: bool) {
        self.text == other.text
    }
}

} // verus!
