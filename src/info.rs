use vstd::prelude::*;

verus! {

/// What sort of grammar leaf an item describes.
#[derive(Clone, Copy, Debug, PartialEq, Eq, Structural)]
pub enum ItemKind {
    Flag,
    Positional,
    Command,
}

/// Descriptor of one grammar leaf: its names, metavar, help and whether it must be present.
#[derive(Clone, Debug)]
pub struct Item {
    pub kind: ItemKind,
    pub short: Option<char>,
    pub long: Option<String>,
    pub metavar: Option<String>,
    pub help: Option<String>,
    pub required: bool,
}

fn copy_text(v: &Option<String>) -> (r: Option<String>)
    ensures
        r == *v,
{
    match v {
        Some(s) => Some(s.clone()),
        None => None,
    }
}

impl Item {
    /// A copy equal to `self`.
    pub fn copy(&self) -> (r: Item)
        ensures
            r == *self,
    {
        Item {
            kind: self.kind,
            short: self.short,
            long: copy_text(&self.long),
            metavar: copy_text(&self.metavar),
            help: copy_text(&self.help),
            required: self.required,
        }
    }
}

/// A grammar description, built as parsers are composed.
#[derive(Debug)]
pub enum Meta {
    Leaf(Item),
    Alternatives(Vec<Meta>),
    Sequence(Vec<Meta>),
}

/// The mathematical form of a [`Meta`].
pub ghost enum MetaV {
    Leaf(Item),
    Alternatives(Seq<MetaV>),
    Sequence(Seq<MetaV>),
}

pub open spec fn meta_view(m: Meta) -> MetaV
    decreases m,
{
    match m {
        Meta::Leaf(i) => MetaV::Leaf(i),
        Meta::Alternatives(v) => MetaV::Alternatives(Seq::new(v@.len(), |i: int| if 0 <= i < v@.len() { meta_view(v@[i]) } else { MetaV::Sequence(Seq::empty()) })),
        Meta::Sequence(v) => MetaV::Sequence(Seq::new(v@.len(), |i: int| if 0 <= i < v@.len() { meta_view(v@[i]) } else { MetaV::Sequence(Seq::empty()) })),
    }
}

impl View for Meta {
    type V = MetaV;

    open spec fn view(&self) -> MetaV {
        meta_view(*self)
    }
}

/// Why a parse did not produce a value.
#[derive(Debug)]
pub enum Error {
    /// Required leaves were absent; the list describes what would have been accepted.
    Missing(Vec<Meta>),
    /// A value was present but malformed.
    Message(String),
    /// A request to stop parsing at once and print the text (help, version).
    EarlyExit(String),
}

/// The mathematical form of an [`Error`].
pub ghost enum ErrorV {
    Missing(Seq<MetaV>),
    Message(Seq<char>),
    EarlyExit(Seq<char>),
}

impl View for Error {
    type V = ErrorV;

    open spec fn view(&self) -> ErrorV {
        match self {
            Error::Missing(v) => ErrorV::Missing(v@.map_values(|m: Meta| m@)),
            Error::Message(s) => ErrorV::Message(s@),
            Error::EarlyExit(s) => ErrorV::EarlyExit(s@),
        }
    }
}

} // verus!
