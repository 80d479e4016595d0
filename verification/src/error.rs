//! The failures of the compiler core, in two disjoint classes.

use crate::ir::Value;
use crate::text::{decimal_nat, push_decimal_nat};
use vstd::prelude::*;

verus! {

/// The class of a failure.
#[derive(Debug, Clone, Copy, PartialEq, Eq, Structural)]
pub enum ErrorClass {
    /// An earlier pass, or this core, broke one of its own rules.
    InternalConsistency,
    /// The input uses a construct that is not implemented.
    UnsupportedFeature,
}

/// Why lowering failed.
#[derive(Debug, Clone, PartialEq, Eq)]
pub enum EmitError {
    /// An identifier is used that no declaration before it binds.
    UnboundIdentifier(String),
    /// The function's block holds no return statement.
    MissingReturn,
}

/// A lowering failure as contracts speak of it.
pub enum EmitErrorView {
    UnboundIdentifier(Seq<char>),
    MissingReturn,
}

impl View for EmitError {
    type V = EmitErrorView;

    open spec fn view(&self) -> EmitErrorView {
        match *self {
            EmitError::UnboundIdentifier(name) => EmitErrorView::UnboundIdentifier(name@),
            EmitError::MissingReturn => EmitErrorView::MissingReturn,
        }
    }
}

impl EmitErrorView {
    /// The class of the failure.
    pub open spec fn class(self) -> ErrorClass {
        match self {
            EmitErrorView::UnboundIdentifier(_) => ErrorClass::InternalConsistency,
            EmitErrorView::MissingReturn => ErrorClass::UnsupportedFeature,
        }
    }

    /// The diagnostic, which names the offending node.
    pub open spec fn text(self) -> Seq<char> {
        match self {
            EmitErrorView::UnboundIdentifier(name) => "internal error: unbound identifier "@ + name,
            EmitErrorView::MissingReturn => "unsupported: function without a return statement"@,
        }
    }
}

impl EmitError {
    /// The class of the failure.
    pub fn class(&self) -> (class: ErrorClass)
        ensures
            class == self@.class(),
    {
        match self {
            EmitError::UnboundIdentifier(_) => ErrorClass::InternalConsistency,
            EmitError::MissingReturn => ErrorClass::UnsupportedFeature,
        }
    }

    /// The diagnostic, which names the offending node.
    pub fn to_string(&self) -> (s: String)
        ensures
            s@ == self@.text(),
    {
        match self {
            EmitError::UnboundIdentifier(name) => {
                let mut out = String::from_str("internal error: unbound identifier ");
                out.append(name.as_str());
                out
            },
            EmitError::MissingReturn => String::from_str(
                "unsupported: function without a return statement",
            ),
        }
    }
}

/// Why code generation failed. Each failure names the value it met.
#[derive(Debug, Clone, Copy, PartialEq, Eq, Structural)]
pub enum CodegenError {
    /// A value is used that no instruction before the use has produced.
    UnallocatedValue(Value),
    /// An instruction stands in the layout a second time.
    RedefinedValue(Value),
    /// A value stands in the layout that is no instruction.
    UnhandledInstruction(Value),
    /// A value would have to be written to an immediate.
    ImmediateLocation(Value),
    /// A binary operator that the generator has no rule for.
    UnsupportedOperator(Value),
    /// The function needs a larger frame than the allocator can size.
    FrameTooLarge,
}

impl CodegenError {
    /// The class of the failure.
    pub open spec fn spec_class(&self) -> ErrorClass {
        match *self {
            CodegenError::UnallocatedValue(_) => ErrorClass::InternalConsistency,
            CodegenError::RedefinedValue(_) => ErrorClass::InternalConsistency,
            CodegenError::UnhandledInstruction(_) => ErrorClass::InternalConsistency,
            CodegenError::ImmediateLocation(_) => ErrorClass::InternalConsistency,
            CodegenError::UnsupportedOperator(_) => ErrorClass::UnsupportedFeature,
            CodegenError::FrameTooLarge => ErrorClass::UnsupportedFeature,
        }
    }

    /// The class of the failure.
    #[verifier::when_used_as_spec(spec_class)]
    pub fn class(&self) -> (class: ErrorClass)
        ensures
            class == self.spec_class(),
    {
        match self {
            CodegenError::UnallocatedValue(_) => ErrorClass::InternalConsistency,
            CodegenError::RedefinedValue(_) => ErrorClass::InternalConsistency,
            CodegenError::UnhandledInstruction(_) => ErrorClass::InternalConsistency,
            CodegenError::ImmediateLocation(_) => ErrorClass::InternalConsistency,
            CodegenError::UnsupportedOperator(_) => ErrorClass::UnsupportedFeature,
            CodegenError::FrameTooLarge => ErrorClass::UnsupportedFeature,
        }
    }

    /// The diagnostic: what went wrong, and the handle of the value.
    pub open spec fn text(self) -> Seq<char> {
        match self {
            CodegenError::UnallocatedValue(v) => "internal error: value used before it is produced: %"@
                + decimal_nat(v.0 as nat),
            CodegenError::RedefinedValue(v) => "internal error: value produced twice: %"@
                + decimal_nat(v.0 as nat),
            CodegenError::UnhandledInstruction(v) => "internal error: value is no instruction: %"@
                + decimal_nat(v.0 as nat),
            CodegenError::ImmediateLocation(v) => "internal error: cannot store to an immediate location: %"@
                + decimal_nat(v.0 as nat),
            CodegenError::UnsupportedOperator(v) => "unsupported: binary operator of value %"@
                + decimal_nat(v.0 as nat),
            CodegenError::FrameTooLarge => "unsupported: function needs too large a frame"@,
        }
    }

    /// The diagnostic.
    pub fn to_string(&self) -> (s: String)
        ensures
            s@ == self.text(),
    {
        match *self {
            CodegenError::UnallocatedValue(v) => prefixed(
                "internal error: value used before it is produced: %",
                v,
            ),
            CodegenError::RedefinedValue(v) => prefixed(
                "internal error: value produced twice: %",
                v,
            ),
            CodegenError::UnhandledInstruction(v) => prefixed(
                "internal error: value is no instruction: %",
                v,
            ),
            CodegenError::ImmediateLocation(v) => prefixed(
                "internal error: cannot store to an immediate location: %",
                v,
            ),
            CodegenError::UnsupportedOperator(v) => prefixed(
                "unsupported: binary operator of value %",
                v,
            ),
            CodegenError::FrameTooLarge => String::from_str(
                "unsupported: function needs too large a frame",
            ),
        }
    }
}

fn prefixed(prefix: &str, value: Value) -> (s: String)
    ensures
        s@ == prefix@ + decimal_nat(value.0 as nat),
{
    let mut out = String::from_str(prefix);
    push_decimal_nat(&mut out, value.0 as u64);
    out
}

/// Why compilation failed.
#[derive(Debug, Clone, PartialEq, Eq)]
pub enum CompileError {
    /// Lowering failed.
    Emit(EmitError),
    /// Code generation failed.
    Codegen(CodegenError),
}

/// A compilation failure as contracts speak of it.
pub enum CompileErrorView {
    Emit(EmitErrorView),
    Codegen(CodegenError),
}

impl View for CompileError {
    type V = CompileErrorView;

    open spec fn view(&self) -> CompileErrorView {
        match *self {
            CompileError::Emit(e) => CompileErrorView::Emit(e@),
            CompileError::Codegen(e) => CompileErrorView::Codegen(e),
        }
    }
}

impl CompileErrorView {
    /// The class of the failure.
    pub open spec fn class(self) -> ErrorClass {
        match self {
            CompileErrorView::Emit(e) => e.class(),
            CompileErrorView::Codegen(e) => e.spec_class(),
        }
    }

    /// The diagnostic.
    pub open spec fn text(self) -> Seq<char> {
        match self {
            CompileErrorView::Emit(e) => e.text(),
            CompileErrorView::Codegen(e) => e.text(),
        }
    }
}

impl CompileError {
    /// The class of the failure.
    pub fn class(&self) -> (class: ErrorClass)
        ensures
            class == self@.class(),
    {
        match self {
            CompileError::Emit(e) => e.class(),
            CompileError::Codegen(e) => e.class(),
        }
    }

    /// The diagnostic.
    pub fn to_string(&self) -> (s: String)
        ensures
            s@ == self@.text(),
    {
        match self {
            CompileError::Emit(e) => e.to_string(),
            CompileError::Codegen(e) => e.to_string(),
        }
    }
}

} // verus!
