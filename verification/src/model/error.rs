//! The one error that building a plan can end in.

use vstd::prelude::*;
use vstd::string::*;

verus! {

/// The kind of an error. Every structural fault of a plan is an invalid
/// argument; the message tells the faults apart.
#[derive(Clone, Copy, Debug, PartialEq, Eq, Structural)]
pub enum ErrorKind {
    InvalidArgument,
}

/// The faults for which a description or a plan is refused.
#[derive(Clone, Copy, Debug, PartialEq, Eq, Structural)]
pub enum Failure {
    /// An interface names one controller and is listed by another.
    ControllerConflict,
    /// An interface asks to be detached and is listed by a controller.
    DetachConflict,
    /// An interface names a controller whose stated list leaves it out.
    NotInPortList,
    /// An interface names a controller that is not there to hold it.
    MissingController,
    /// Two controllers list one port.
    OverbookedPort,
    /// Controllers hold each other in a circle.
    ControllerCycle,
    /// Controllers are stacked more than four deep.
    NestingTooDeep,
    /// A description names a kind of interface that is not known.
    UnknownKindName,
    /// A description names a state that is not known.
    UnknownStateName,
}

impl Failure {
    pub open spec fn message(self) -> Seq<char> {
        match self {
            Failure::ControllerConflict =>
                "interface names one controller but is listed as port of another"@,
            Failure::DetachConflict =>
                "interface asks to be detached but is still listed as port of a controller"@,
            Failure::NotInPortList =>
                "interface names a controller whose port list does not hold it"@,
            Failure::MissingController => "interface names a controller that does not exist"@,
            Failure::OverbookedPort => "port is overbooked by two controllers"@,
            Failure::ControllerCycle => "controllers hold each other in a cycle"@,
            Failure::NestingTooDeep => "controller nesting too deep"@,
            Failure::UnknownKindName => "interface type is not supported"@,
            Failure::UnknownStateName => "interface state is not supported"@,
        }
    }

    pub fn describe(&self) -> (r: String)
        ensures
            r@ == self.message(),
    {
        match self {
            Failure::ControllerConflict => String::from_str(
                "interface names one controller but is listed as port of another",
            ),
            Failure::DetachConflict => String::from_str(
                "interface asks to be detached but is still listed as port of a controller",
            ),
            Failure::NotInPortList => String::from_str(
                "interface names a controller whose port list does not hold it",
            ),
            Failure::MissingController => String::from_str(
                "interface names a controller that does not exist",
            ),
            Failure::OverbookedPort => String::from_str("port is overbooked by two controllers"),
            Failure::ControllerCycle => String::from_str("controllers hold each other in a cycle"),
            Failure::NestingTooDeep => String::from_str("controller nesting too deep"),
            Failure::UnknownKindName => String::from_str("interface type is not supported"),
            Failure::UnknownStateName => String::from_str("interface state is not supported"),
        }
    }
}

/// An error with its kind and a message for the reader.
#[derive(Debug)]
pub struct MergeError {
    kind: ErrorKind,
    msg: String,
}

impl MergeError {
    pub closed spec fn spec_kind(&self) -> ErrorKind {
        self.kind
    }

    pub closed spec fn spec_msg(&self) -> Seq<char> {
        self.msg@
    }

    /// Whether this is the error that reports `f`.
    pub open spec fn reports(&self, f: Failure) -> bool {
        self.spec_kind() == ErrorKind::InvalidArgument && self.spec_msg() == f.message()
    }

    pub fn new(kind: ErrorKind, msg: String) -> (r: MergeError)
        ensures
            r.spec_kind() == kind,
            r.spec_msg() == msg@,
    {
        MergeError { kind, msg }
    }

    /// The error that reports `f`.
    pub fn from_failure(f: Failure) -> (r: MergeError)
        ensures
            r.reports(f),
    {
        MergeError { kind: ErrorKind::InvalidArgument, msg: f.describe() }
    }

    #[verifier::when_used_as_spec(spec_kind)]
    pub fn kind(&self) -> (r: ErrorKind)
        ensures
            r == self.spec_kind(),
    {
        self.kind
    }

    pub fn msg(&self) -> (r: &str)
        ensures
            r@ == self.spec_msg(),
    {
        self.msg.as_str()
    }
}

} // verus!
