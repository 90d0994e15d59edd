//! The errors that the generators report to the compiler.
use vstd::prelude::*;
use crate::args::{ArgError, ArgErrorV, errors_view};

verus! {

/// An error reported in place of generated code.
pub enum MacroError {
    /// The arguments of an attribute are no valid argument list; the message
    /// is the one the argument parser gave.
    Syntax(String),
    /// The arguments of an attribute do not fit its settings.
    Arguments(Vec<ArgError>),
    /// The field at this index has no `wgsl_gpu` attribute.
    MissingAttribute(usize),
    /// Neither a location nor an output builtin is given.
    ExpectedLocationOrOutput,
    /// Neither a location nor an input builtin is given.
    ExpectedLocationOrInput,
    /// The field at this index has no location, which a vertex attribute needs.
    LocationRequired(usize),
    /// The entry point is marked neither `vertex` nor `fragment`.
    VertexOrFragmentRequired,
    /// The parameter at this index is a `self` receiver.
    SelfNotSupported(usize),
    /// An argument struct without step mode follows one with a step mode.
    StepModeMismatch,
    /// A step mode that is neither `vertex` nor `instance`.
    InvalidStepMode,
    /// The type is no path, so it names no transform macro.
    ReturnTypeNotPath,
    /// The type of a bound resource is neither a uniform, a sampler nor an image.
    UnknownBindingType,
}

/// `MacroError` with its texts as sequences.
pub enum MacroErrorV {
    Syntax(Seq<char>),
    Arguments(Seq<ArgErrorV>),
    MissingAttribute(nat),
    ExpectedLocationOrOutput,
    ExpectedLocationOrInput,
    LocationRequired(nat),
    VertexOrFragmentRequired,
    SelfNotSupported(nat),
    StepModeMismatch,
    InvalidStepMode,
    ReturnTypeNotPath,
    UnknownBindingType,
}

impl View for MacroError {
    type V = MacroErrorV;

    open spec fn view(&self) -> MacroErrorV {
        match self {
            MacroError::Syntax(m) => MacroErrorV::Syntax(m@),
            MacroError::Arguments(es) => MacroErrorV::Arguments(errors_view(es@)),
            MacroError::MissingAttribute(i) => MacroErrorV::MissingAttribute(*i as nat),
            MacroError::ExpectedLocationOrOutput => MacroErrorV::ExpectedLocationOrOutput,
            MacroError::ExpectedLocationOrInput => MacroErrorV::ExpectedLocationOrInput,
            MacroError::LocationRequired(i) => MacroErrorV::LocationRequired(*i as nat),
            MacroError::VertexOrFragmentRequired => MacroErrorV::VertexOrFragmentRequired,
            MacroError::SelfNotSupported(i) => MacroErrorV::SelfNotSupported(*i as nat),
            MacroError::StepModeMismatch => MacroErrorV::StepModeMismatch,
            MacroError::InvalidStepMode => MacroErrorV::InvalidStepMode,
            MacroError::ReturnTypeNotPath => MacroErrorV::ReturnTypeNotPath,
            MacroError::UnknownBindingType => MacroErrorV::UnknownBindingType,
        }
    }
}

impl MacroError {
    /// The message reported for an error that carries no text of its own.
    pub fn message(&self) -> (s: Option<&'static str>)
        ensures
            s matches Some(t) ==> t@ == self@.spec_message(),
            s is None <==> (self is Syntax || self is Arguments),
    {
        match self {
            MacroError::Syntax(_) => None,
            MacroError::Arguments(_) => None,
            MacroError::MissingAttribute(_) => Some("missing wgsl_gpu attribute"),
            MacroError::ExpectedLocationOrOutput => Some("Expected location or output attribute"),
            MacroError::ExpectedLocationOrInput => Some("Expected location or input attribute"),
            MacroError::LocationRequired(_) => Some("location attribute required"),
            MacroError::VertexOrFragmentRequired => Some("Vertex or fragment attribute required"),
            MacroError::SelfNotSupported(_) => Some("self not supported"),
            MacroError::StepModeMismatch => Some(
                "Step mode must be provided for every or no arguments",
            ),
            MacroError::InvalidStepMode => Some("Invalid step mode"),
            MacroError::ReturnTypeNotPath => Some("Return type must be a path"),
            MacroError::UnknownBindingType => Some("Could not identify binding type"),
        }
    }
}

impl MacroErrorV {
    pub open spec fn spec_message(self) -> Seq<char> {
        match self {
            MacroErrorV::MissingAttribute(_) => "missing wgsl_gpu attribute"@,
            MacroErrorV::ExpectedLocationOrOutput => "Expected location or output attribute"@,
            MacroErrorV::ExpectedLocationOrInput => "Expected location or input attribute"@,
            MacroErrorV::LocationRequired(_) => "location attribute required"@,
            MacroErrorV::VertexOrFragmentRequired => "Vertex or fragment attribute required"@,
            MacroErrorV::SelfNotSupported(_) => "self not supported"@,
            MacroErrorV::StepModeMismatch => "Step mode must be provided for every or no arguments"@,
            MacroErrorV::InvalidStepMode => "Invalid step mode"@,
            MacroErrorV::ReturnTypeNotPath => "Return type must be a path"@,
            MacroErrorV::UnknownBindingType => "Could not identify binding type"@,
            _ => seq![],
        }
    }
}

} // verus!
