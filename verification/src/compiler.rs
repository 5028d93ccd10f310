//! The compiler shell: the target-dialect selector, the rendering error,
//! and the compiler value that holds a finished tree and renders it.

use crate::ast::{spec_render, Expr};
use vstd::prelude::*;

verus! {

/// The output dialect selector. Only the batch-style dialect has renderers;
/// the other slots are reserved for dialects that are declared but not yet
/// implemented, and rendering for them always fails explicitly.
#[derive(Debug, Hash, Eq, PartialEq, Structural, Clone, Copy)]
pub enum Target {
    Batch,
    Asm,
    Dos,
    Bash,
}

/// Rendering failure: the node kind or the target dialect has no implemented
/// renderer. Rendering fails loudly rather than emit wrong output.
#[derive(Debug, Hash, Eq, PartialEq, Structural, Clone, Copy)]
pub enum CompileError {
    Unsupported,
}

/// Holds a finished AST and renders it to target text; the surrounding
/// driver embeds that text into an output file.
pub struct Compiler {
    ast: Expr,
}

impl View for Compiler {
    type V = Expr;

    closed spec fn view(&self) -> Expr {
        self.ast
    }
}

impl Compiler {
    pub fn new(ast: Expr) -> (c: Compiler)
        ensures
            c@ == ast,
    {
        Compiler { ast }
    }

    /// Render the held tree for the given target. This is the text that the
    /// external driver writes out between its fixed header and footer.
    pub fn compile_text(&self, t: &Target) -> (r: Result<String, CompileError>)
        ensures
            spec_render(self@, *t) matches Some(text) ==> r matches Ok(s) && s@ == text,
            spec_render(self@, *t) is None ==> r == Err::<String, CompileError>(
                CompileError::Unsupported,
            ),
    {
        self.ast.compile(t)
    }

    /// A dedicated for-loop rendering entry point, declared but without a
    /// renderer yet: invoking it always fails explicitly.
    pub fn compile_for(&mut self) -> (r: Result<String, CompileError>)
        ensures
            r == Err::<String, CompileError>(CompileError::Unsupported),
            final(self)@ == old(self)@,
    {
        Err(CompileError::Unsupported)
    }
}

} // verus!
