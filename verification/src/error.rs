//! Errors of merging and of extraction.

use vstd::prelude::*;
use crate::value::Kind;

verus! {

/// What went wrong.
#[derive(Debug)]
pub enum Fault {
    /// A provider gave no data: its name, and what it said.
    ProviderFailure(String, String),
    /// A value of another kind than the target asks for: what was
    /// expected, and the kind that was found.
    TypeMismatch(String, Kind),
    /// The target asks for a field that the dict does not have.
    MissingField(String),
    /// The dict has a field that the target does not know: the field, and
    /// the fields that the target knows.
    UnknownField(String, Vec<String>),
    /// The dict has a field twice.
    DuplicateField(String),
    /// A value of the right kind that the target cannot hold, and why.
    InvalidValue(String),
}

/// A fault as mathematics.
pub ghost enum FaultView {
    ProviderFailure(Seq<char>, Seq<char>),
    TypeMismatch(Seq<char>, Kind),
    MissingField(Seq<char>),
    UnknownField(Seq<char>, Seq<Seq<char>>),
    DuplicateField(Seq<char>),
    InvalidValue(Seq<char>),
}

/// The texts of a sequence of strings.
pub open spec fn texts(names: Seq<String>) -> Seq<Seq<char>> {
    Seq::new(names.len(), |i: int| names[i]@)
}

impl View for Fault {
    type V = FaultView;

    open spec fn view(&self) -> FaultView {
        match self {
            Fault::ProviderFailure(n, r) => FaultView::ProviderFailure(n@, r@),
            Fault::TypeMismatch(e, k) => FaultView::TypeMismatch(e@, *k),
            Fault::MissingField(f) => FaultView::MissingField(f@),
            Fault::UnknownField(f, known) => FaultView::UnknownField(f@, texts(known@)),
            Fault::DuplicateField(f) => FaultView::DuplicateField(f@),
            Fault::InvalidValue(r) => FaultView::InvalidValue(r@),
        }
    }
}

/// An error: what went wrong, and the path from the root of the extraction
/// to the value at which it did.
#[derive(Debug)]
pub struct Error {
    pub fault: Fault,
    pub path: Vec<String>,
}

/// An error as mathematics.
pub ghost struct ErrorView {
    pub fault: FaultView,
    pub path: Seq<Seq<char>>,
}

impl View for Error {
    type V = ErrorView;

    open spec fn view(&self) -> ErrorView {
        ErrorView { fault: self.fault@, path: texts(self.path@) }
    }
}

/// The name of a kind of value, as messages spell it.
pub open spec fn kind_name(kind: Kind) -> Seq<char> {
    match kind {
        Kind::Null => "null"@,
        Kind::Bool => "bool"@,
        Kind::String => "string"@,
        Kind::Num => "number"@,
        Kind::Array => "array"@,
        Kind::Dict => "dict"@,
    }
}

/// The parts of a list written one after another with `sep` between them.
pub open spec fn joined(parts: Seq<Seq<char>>, sep: Seq<char>) -> Seq<char>
    decreases parts.len(),
{
    if parts.len() == 0 {
        Seq::empty()
    } else if parts.len() == 1 {
        parts[0]
    } else {
        joined(parts.drop_last(), sep) + sep + parts.last()
    }
}

/// What a fault says, in words.
pub open spec fn fault_text(fault: FaultView) -> Seq<char> {
    match fault {
        FaultView::ProviderFailure(n, r) => "provider "@ + n + " failed: "@ + r,
        FaultView::TypeMismatch(e, k) => "invalid type: found "@ + kind_name(k) + ", expected "@
            + e,
        FaultView::MissingField(f) => "missing field "@ + f,
        FaultView::UnknownField(f, known) => "unknown field "@ + f + ", expected one of "@
            + joined(known, ", "@),
        FaultView::DuplicateField(f) => "duplicate field "@ + f,
        FaultView::InvalidValue(r) => "invalid value: "@ + r,
    }
}

/// What an error says, in words: the fault, and the dotted path where
/// there is one.
pub open spec fn error_text(e: ErrorView) -> Seq<char> {
    if e.path.len() == 0 {
        fault_text(e.fault)
    } else {
        fault_text(e.fault) + " for key "@ + joined(e.path, "."@)
    }
}

/// Writes the parts one after another with `sep` between them.
pub fn join(parts: &Vec<String>, sep: &str) -> (text: String)
    ensures
        text@ == joined(texts(parts@), sep@),
{
    let mut text = String::new();
    let mut i: usize = 0;
    while i < parts.len()
        invariant
            i <= parts@.len(),
            text@ == joined(texts(parts@).subrange(0, i as int), sep@),
        decreases parts@.len() - i,
    {
        let ghost before = texts(parts@).subrange(0, i as int);
        let ghost after = texts(parts@).subrange(0, i as int + 1);
        proof {
            assert(after.drop_last() =~= before);
            assert(after.last() == parts@[i as int]@);
        }
        if i > 0 {
            text.append(sep);
        }
        text.append(parts[i].as_str());
        proof {
            if i == 0 {
                assert(text@ =~= after[0]);
            }
        }
        i = i + 1;
    }
    proof {
        assert(texts(parts@).subrange(0, parts@.len() as int) =~= texts(parts@));
    }
    text
}

impl Kind {
    /// The name of this kind, as messages spell it.
    pub fn name(&self) -> (name: &'static str)
        ensures
            name@ == kind_name(*self),
    {
        match self {
            Kind::Null => "null",
            Kind::Bool => "bool",
            Kind::String => "string",
            Kind::Num => "number",
            Kind::Array => "array",
            Kind::Dict => "dict",
        }
    }
}

impl Fault {
    /// What this fault says, in words.
    pub fn message(&self) -> (text: String)
        ensures
            text@ == fault_text(self@),
    {
        match self {
            Fault::ProviderFailure(n, r) => {
                let mut text = String::from_str("provider ");
                text.append(n.as_str());
                text.append(" failed: ");
                text.append(r.as_str());
                text
            },
            Fault::TypeMismatch(e, k) => {
                let mut text = String::from_str("invalid type: found ");
                text.append(k.name());
                text.append(", expected ");
                text.append(e.as_str());
                text
            },
            Fault::MissingField(f) => {
                let mut text = String::from_str("missing field ");
                text.append(f.as_str());
                text
            },
            Fault::UnknownField(f, known) => {
                let mut text = String::from_str("unknown field ");
                text.append(f.as_str());
                text.append(", expected one of ");
                let list = join(known, ", ");
                text.append(list.as_str());
                text
            },
            Fault::DuplicateField(f) => {
                let mut text = String::from_str("duplicate field ");
                text.append(f.as_str());
                text
            },
            Fault::InvalidValue(r) => {
                let mut text = String::from_str("invalid value: ");
                text.append(r.as_str());
                text
            },
        }
    }
}

impl Error {
    /// An error at the root of the extraction.
    pub fn new(fault: Fault) -> (e: Error)
        ensures
            e@ == (ErrorView { fault: fault@, path: Seq::empty() }),
    {
        let e = Error { fault, path: Vec::new() };
        assert(e@.path =~= Seq::empty());
        e
    }

    /// The same error, found one step further from the root: `key` comes
    /// before the path.
    pub fn prefixed(self, key: &str) -> (e: Error)
        ensures
            e@ == (ErrorView { fault: self@.fault, path: seq![key@] + self@.path }),
    {
        let Error { fault, path } = self;
        let mut path = path;
        let ghost before = path@;
        path.insert(0, String::from_str(key));
        let e = Error { fault, path };
        assert(e@.path =~= seq![key@] + texts(before));
        e
    }

    /// What this error says, in words.
    pub fn message(&self) -> (text: String)
        ensures
            text@ == error_text(self@),
    {
        let mut text = self.fault.message();
        if self.path.len() > 0 {
            text.append(" for key ");
            let dotted = join(&self.path, ".");
            text.append(dotted.as_str());
        }
        text
    }
}

} // verus!
