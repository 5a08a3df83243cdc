//! The compilation pipeline: validate, lower, match against the catalog,
//! emit. The backend only ever sees already-validated elements.
use vstd::prelude::*;
use crate::ast::Element;
use crate::backend::{
    compile_backend, config_view, spec_compile, BackendConfig, BackendError, Idiom,
    SpecBackendConfig, Warning,
};
use crate::emit::{emit_config, spec_emit};
use crate::ir::SpecElem;
use crate::lower::{lower_element, spec_lower_elem};
use crate::validate::{spec_validates, validate, SemanticError};

verus! {

/// Why a compilation failed: the validator's full error batch, or a
/// backend refusal.
#[derive(PartialEq, Eq, Debug)]
pub enum CompileFailure {
    Semantic(Vec<SemanticError>),
    Backend(BackendError),
}

/// A successful compilation: the chosen configuration, its wire form, and
/// any non-fatal warnings.
#[derive(Debug)]
pub struct CompileOutput {
    pub config: BackendConfig,
    pub wire: Vec<u8>,
    pub warnings: Vec<Warning>,
}

/// Compiles one element end to end.
pub fn compile_element(catalog: &Vec<Idiom>, e: &Element) -> (r: Result<
    CompileOutput,
    CompileFailure,
>)
    ensures
        match r {
            Result::Ok(out) => spec_validates(*e) && spec_compile(catalog@, spec_lower_elem(*e))
                == Result::Ok::<(SpecBackendConfig, Seq<Warning>), BackendError>(
                (config_view(out.config), out.warnings@),
            ) && out.wire@ == spec_emit(config_view(out.config)),
            Result::Err(f) => match f {
                CompileFailure::Semantic(errs) => !spec_validates(*e) && errs@.len() > 0,
                CompileFailure::Backend(be) => spec_validates(*e) && spec_compile(
                    catalog@,
                    spec_lower_elem(*e),
                ) == Result::Err::<(SpecBackendConfig, Seq<Warning>), BackendError>(be),
            },
        },
{
    let errs = validate(e);
    if errs.len() > 0 {
        return Result::Err(CompileFailure::Semantic(errs));
    }
    let ir = lower_element(e);
    match compile_backend(catalog, ir) {
        Result::Ok(ow) => {
            let (config, warnings) = ow;
            let wire = emit_config(&config);
            Result::Ok(CompileOutput { config, wire, warnings })
        },
        Result::Err(be) => Result::Err(CompileFailure::Backend(be)),
    }
}

/// Determinism law: for one element and one catalog, the configuration —
/// abort share and message both — the warnings, and the emitted bytes are
/// a single value fixed by `spec_compile` and `spec_emit`, so compiling
/// the same source twice yields byte-identical output.
pub proof fn lemma_output_determined(
    cat: Seq<Idiom>,
    v: SpecElem,
    c1: SpecBackendConfig,
    w1: Seq<Warning>,
    c2: SpecBackendConfig,
    w2: Seq<Warning>,
)
    requires
        spec_compile(cat, v) == Result::Ok::<(SpecBackendConfig, Seq<Warning>), BackendError>(
            (c1, w1),
        ),
        spec_compile(cat, v) == Result::Ok::<(SpecBackendConfig, Seq<Warning>), BackendError>(
            (c2, w2),
        ),
    ensures
        c1 == c2,
        w1 == w2,
        spec_emit(c1) == spec_emit(c2),
{
}

} // verus!
