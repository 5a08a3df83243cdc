//! Backend compilation: an ordered catalog of idiom recognizers is tried
//! against the canonical IR; the first match wins and yields the native
//! filter configuration. An element matching no idiom is not dropped: it
//! falls back to an embedded-logic payload carrying its full IR, with a
//! non-fatal warning — unless a mutable field would be lowered to
//! unsynchronized native state, which is refused.
use vstd::prelude::*;
use crate::ast::{Dir, Element, SCALE};
use crate::ir::{
    elem_view, expr_view, field_view, stmt_view, stmts_view, lemma_stmts_view_index, IExpr, IStmt,
    IrElement, SpecElem, SpecExpr, SpecStmt,
};
use crate::lower::{spec_lower_elem, spec_mutable};

verus! {

broadcast use vstd::seq::axiom_seq_index_decreases, vstd::std_specs::vec::group_vec_axioms;

/// Native fault-injection filter configuration: the share of requests to
/// abort, in millionths, and the message the aborted caller sees.
#[derive(PartialEq, Eq, Debug)]
pub struct FaultConfig {
    pub abort_per_million: u64,
    pub abort_message: Vec<u8>,
}

/// One entry of the idiom catalog.
#[derive(PartialEq, Eq, Structural, Clone, Copy, Debug)]
pub enum Idiom {
    FaultInjection,
}

/// Why backend compilation refused an element.
#[derive(PartialEq, Eq, Structural, Clone, Copy, Debug)]
pub enum BackendError {
    /// The extracted probability lies outside [0, 1].
    ProbOutOfRange,
    /// A field reassigned by request/response handlers has no
    /// concurrency-safe native equivalent.
    SharedMutableState,
}

/// A non-fatal note surfaced alongside a successful compilation.
#[derive(PartialEq, Eq, Structural, Clone, Copy, Debug)]
pub enum Warning {
    /// The element fell back to the embedded-logic representation.
    UnsupportedIdiom,
}

/// The chosen backend representation: a native filter, or the
/// embedded-logic fallback carrying the element's full IR.
#[derive(Debug)]
pub enum BackendConfig {
    FaultFilter(FaultConfig),
    Embedded(IrElement),
}

/// Mathematical model of a backend configuration.
pub enum SpecBackendConfig {
    Fault(u64, Seq<u8>),
    Embedded(SpecElem),
}

pub open spec fn config_view(c: BackendConfig) -> SpecBackendConfig {
    match c {
        BackendConfig::FaultFilter(f) => SpecBackendConfig::Fault(f.abort_per_million, f.abort_message@),
        BackendConfig::Embedded(ir) => SpecBackendConfig::Embedded(elem_view(ir)),
    }
}

/// The catalog in its documented priority order.
pub fn default_catalog() -> (c: Vec<Idiom>)
    ensures
        c@ =~= seq![Idiom::FaultInjection],
{
    let c: Vec<Idiom> = vec![Idiom::FaultInjection];
    c
}

/// The canonical fault-injection scrutinee: a uniform draw over the unit
/// range compared against the element's single field.
pub open spec fn spec_is_canon_cond(c: SpecExpr) -> bool {
    match c {
        SpecExpr::Lt(a, b) => (match *a {
            SpecExpr::Rand(lo, hi) => *lo == SpecExpr::Num(0i64) && *hi == SpecExpr::Num(SCALE),
            _ => false,
        }) && *b == SpecExpr::Field(0u64),
        _ => false,
    }
}

/// A response handler that passes the message straight back, or none.
pub open spec fn spec_resp_passthrough(r: Option<Seq<SpecStmt>>) -> bool {
    match r {
        Option::None => true,
        Option::Some(b) => b.len() == 1 && b[0] == SpecStmt::Send(SpecExpr::Input, Dir::App),
    }
}

/// The request-handler shape of the idiom, with the probability and the
/// error literal pulled out.
pub open spec fn spec_req_shape(s: SpecStmt, p: i64) -> Option<(i64, Seq<u8>)> {
    match s {
        SpecStmt::If(c, t, f) => if spec_is_canon_cond(c) && t.len() == 1 && f.len() == 1 {
            match (t[0], f[0]) {
                (SpecStmt::Send(m1, d1), SpecStmt::Send(m2, d2)) => if m1 == SpecExpr::Input && d1
                    == Dir::Net && d2 == Dir::App {
                    match m2 {
                        SpecExpr::ErrLit(msg) => Option::Some((p, msg)),
                        _ => Option::None,
                    }
                } else {
                    Option::None
                },
                _ => Option::None,
            }
        } else {
            Option::None
        },
        _ => Option::None,
    }
}

/// The fault-injection recognizer: exactly one constant numeric field
/// `p`, a request handler that forwards toward the network when a uniform
/// draw falls below `p` and otherwise returns an error-tagged message to
/// the application, and a pass-through (or absent) response handler. Any
/// field name, parameter name, and error literal fit the shape.
pub open spec fn spec_fault_params(v: SpecElem) -> Option<(i64, Seq<u8>)> {
    if v.fields.len() == 1 && !v.fields[0].mutable {
        match v.fields[0].init {
            SpecExpr::Num(p) => match v.req {
                Option::Some(b) => if b.len() == 1 && spec_resp_passthrough(v.resp) {
                    spec_req_shape(b[0], p)
                } else {
                    Option::None
                },
                _ => Option::None,
            },
            _ => Option::None,
        }
    } else {
        Option::None
    }
}

/// Tries the catalog's recognizers in order; the first match wins.
pub open spec fn spec_try_catalog(cat: Seq<Idiom>, v: SpecElem) -> Option<(i64, Seq<u8>)>
    decreases cat,
{
    if cat.len() == 0 {
        Option::None
    } else {
        match cat[0] {
            Idiom::FaultInjection => match spec_fault_params(v) {
                Option::Some(pm) => Option::Some(pm),
                Option::None => spec_try_catalog(cat.drop_first(), v),
            },
        }
    }
}

pub open spec fn spec_has_mutable(v: SpecElem) -> bool {
    exists|i: int| 0 <= i < v.fields.len() && v.fields[i].mutable
}

/// What backend compilation yields: the native configuration when an
/// idiom matches and its probability is in range (refused, never clamped,
/// otherwise); else the embedded-logic fallback with a warning — refused
/// only when a mutable field would reach unsynchronized native state.
pub open spec fn spec_compile(cat: Seq<Idiom>, v: SpecElem) -> Result<
    (SpecBackendConfig, Seq<Warning>),
    BackendError,
> {
    match spec_try_catalog(cat, v) {
        Option::Some((p, msg)) => if 0 <= p <= SCALE {
            Result::Ok((SpecBackendConfig::Fault((SCALE - p) as u64, msg), Seq::empty()))
        } else {
            Result::Err(BackendError::ProbOutOfRange)
        },
        Option::None => if spec_has_mutable(v) {
            Result::Err(BackendError::SharedMutableState)
        } else {
            Result::Ok((SpecBackendConfig::Embedded(v), seq![Warning::UnsupportedIdiom]))
        },
    }
}

/// Runs the fault-injection recognizer on one element's IR.
pub fn recognize_fault(ir: &IrElement) -> (r: Option<(i64, Vec<u8>)>)
    ensures
        match r {
            Option::Some(pm) => spec_fault_params(elem_view(*ir)) == Option::Some((pm.0, pm.1@)),
            Option::None => spec_fault_params(elem_view(*ir)) is None,
        },
{
    if ir.fields.len() != 1 {
        return Option::None;
    }
    if ir.fields[0].mutable {
        return Option::None;
    }
    let p: i64 = match &ir.fields[0].init {
        IExpr::Num(p) => *p,
        _ => {
            return Option::None;
        },
    };
    let body = match &ir.req {
        Option::Some(b) => b,
        Option::None => {
            return Option::None;
        },
    };
    proof {
        lemma_stmts_view_index(body@);
    }
    if body.len() != 1 {
        return Option::None;
    }
    // the response handler must pass the message straight back
    match &ir.resp {
        Option::Some(rb) => {
            proof {
                lemma_stmts_view_index(rb@);
            }
            if rb.len() != 1 {
                return Option::None;
            }
            match &rb[0] {
                IStmt::Send(m, d) => {
                    if !(matches!(m, IExpr::Input) && matches!(d, Dir::App)) {
                        return Option::None;
                    }
                    proof {
                        assert(stmts_view(rb@)[0] == stmt_view(rb@[0]));
                        assert(spec_resp_passthrough(elem_view(*ir).resp));
                    }
                },
                _ => {
                    return Option::None;
                },
            }
        },
        Option::None => {},
    }
    match &body[0] {
        IStmt::If(c, t, f) => {
            proof {
                lemma_stmts_view_index(t@);
                lemma_stmts_view_index(f@);
            }
            let cond_ok = match c {
                IExpr::Lt(a, b) => {
                    let a_ok = match &**a {
                        IExpr::Rand(lo, hi) => {
                            let lo_ok = matches!(&**lo, IExpr::Num(0i64));
                            let hi_ok = match &**hi {
                                IExpr::Num(v) => *v == SCALE,
                                _ => false,
                            };
                            proof {
                                assert(lo_ok == (expr_view(**lo) == SpecExpr::Num(0i64)));
                                assert(hi_ok == (expr_view(**hi) == SpecExpr::Num(SCALE)));
                                assert(expr_view(**a) == SpecExpr::Rand(
                                    Box::new(expr_view(**lo)),
                                    Box::new(expr_view(**hi)),
                                ));
                            }
                            lo_ok && hi_ok
                        },
                        _ => false,
                    };
                    let b_ok = match &**b {
                        IExpr::Field(i) => *i == 0,
                        _ => false,
                    };
                    proof {
                        assert(b_ok == (expr_view(**b) == SpecExpr::Field(0u64)));
                        assert(expr_view(*c) == SpecExpr::Lt(
                            Box::new(expr_view(**a)),
                            Box::new(expr_view(**b)),
                        ));
                        assert((a_ok && b_ok) == spec_is_canon_cond(expr_view(*c)));
                    }
                    a_ok && b_ok
                },
                _ => false,
            };
            proof {
                assert(body@[0] == IStmt::If(*c, *t, *f));
                assert(stmts_view(body@)[0] == stmt_view(body@[0]));
                assert(cond_ok == spec_is_canon_cond(expr_view(*c)));
            }
            if !cond_ok {
                return Option::None;
            }
            if t.len() != 1 || f.len() != 1 {
                return Option::None;
            }
            let fwd_ok = match &t[0] {
                IStmt::Send(m, d) => matches!(m, IExpr::Input) && matches!(d, Dir::Net),
                _ => false,
            };
            if !fwd_ok {
                return Option::None;
            }
            proof {
                assert(stmts_view(t@)[0] == stmt_view(t@[0]));
                assert(stmts_view(f@)[0] == stmt_view(f@[0]));
                assert(elem_view(*ir).fields[0] == field_view(ir.fields@[0]));
            }
            match &f[0] {
                IStmt::Send(m, d) => {
                    if !matches!(d, Dir::App) {
                        return Option::None;
                    }
                    match m {
                        IExpr::ErrLit(msg) => Option::Some((p, crate::ast::copy_bytes(msg))),
                        _ => Option::None,
                    }
                },
                _ => Option::None,
            }
        },
        _ => Option::None,
    }
}

/// Compiles one element's IR against the catalog.
pub fn compile_backend(catalog: &Vec<Idiom>, ir: IrElement) -> (r: Result<
    (BackendConfig, Vec<Warning>),
    BackendError,
>)
    ensures
        match r {
            Result::Ok(ow) => spec_compile(catalog@, elem_view(ir)) == Result::Ok::<
                (SpecBackendConfig, Seq<Warning>),
                BackendError,
            >((config_view(ow.0), ow.1@)),
            Result::Err(err) => spec_compile(catalog@, elem_view(ir)) == Result::Err::<
                (SpecBackendConfig, Seq<Warning>),
                BackendError,
            >(err),
        },
{
    proof {
        assert(catalog@.skip(0int) =~= catalog@);
    }
    let mut found: Option<(i64, Vec<u8>)> = Option::None;
    let mut i: usize = 0;
    while i < catalog.len()
        invariant
            i <= catalog.len(),
            match found {
                Option::Some(pm) => spec_try_catalog(catalog@, elem_view(ir)) == Option::Some(
                    (pm.0, pm.1@),
                ),
                Option::None => spec_try_catalog(catalog@, elem_view(ir)) == spec_try_catalog(
                    catalog@.skip(i as int),
                    elem_view(ir),
                ),
            },
        decreases catalog.len() - i,
    {
        if found.is_none() {
            proof {
                assert(catalog@.skip(i as int)[0] == catalog@[i as int]);
                assert(catalog@.skip(i as int).drop_first() =~= catalog@.skip(i as int + 1));
            }
            match catalog[i] {
                Idiom::FaultInjection => {
                    let r = recognize_fault(&ir);
                    if r.is_some() {
                        found = r;
                    }
                },
            }
        }
        i = i + 1;
    }
    proof {
        assert(catalog@.skip(catalog@.len() as int) =~= Seq::<Idiom>::empty());
    }
    match found {
        Option::Some(pm) => {
            let (p, msg) = pm;
            proof {
                assert(spec_try_catalog(catalog@, elem_view(ir)) == Option::Some((p, msg@)));
            }
            if 0 <= p && p <= SCALE {
                let cfg = FaultConfig { abort_per_million: (SCALE - p) as u64, abort_message: msg };
                proof {
                    assert(cfg.abort_message@ == msg@);
                    assert(config_view(BackendConfig::FaultFilter(cfg))
                        == SpecBackendConfig::Fault((SCALE - p) as u64, msg@));
                    assert(spec_compile(catalog@, elem_view(ir)) == Result::Ok::<
                        (SpecBackendConfig, Seq<Warning>),
                        BackendError,
                    >((SpecBackendConfig::Fault((SCALE - p) as u64, msg@), Seq::empty())));
                }
                let ws: Vec<Warning> = Vec::new();
                proof {
                    assert(ws@ =~= Seq::<Warning>::empty());
                }
                Result::Ok((BackendConfig::FaultFilter(cfg), ws))
            } else {
                Result::Err(BackendError::ProbOutOfRange)
            }
        },
        Option::None => {
            let mut any_mut = false;
            let mut k: usize = 0;
            while k < ir.fields.len()
                invariant
                    k <= ir.fields.len(),
                    any_mut == exists|j: int| 0 <= j < k && elem_view(ir).fields[j].mutable,
                decreases ir.fields.len() - k,
            {
                if ir.fields[k].mutable {
                    proof {
                        assert(elem_view(ir).fields[k as int] == field_view(ir.fields@[k as int]));
                    }
                    any_mut = true;
                }
                k = k + 1;
            }
            proof {
                assert(any_mut == spec_has_mutable(elem_view(ir)));
                assert(spec_try_catalog(catalog@, elem_view(ir)) is None);
            }
            if any_mut {
                Result::Err(BackendError::SharedMutableState)
            } else {
                let w: Vec<Warning> = vec![Warning::UnsupportedIdiom];
                proof {
                    assert(w@ =~= seq![Warning::UnsupportedIdiom]);
                }
                Result::Ok((BackendConfig::Embedded(ir), w))
            }
        },
    }
}

/// One native-filter decision: forward when the uniform draw, in
/// millionths, falls below the forwarding share.
pub fn fault_decide(cfg: &FaultConfig, draw: u64) -> (forward: bool)
    requires
        cfg.abort_per_million <= SCALE as u64,
        draw < SCALE as u64,
    ensures
        forward == (draw < SCALE as u64 - cfg.abort_per_million),
{
    draw < (SCALE as u64) - cfg.abort_per_million
}

/// A mutable field fits no cataloged idiom.
pub proof fn lemma_try_none_when_mutable(cat: Seq<Idiom>, v: SpecElem)
    requires
        spec_has_mutable(v),
    ensures
        spec_try_catalog(cat, v) is None,
    decreases cat,
{
    if v.fields.len() == 1 {
        assert(v.fields[0].mutable);
    }
    assert(spec_fault_params(v) is None);
    if cat.len() > 0 {
        lemma_try_none_when_mutable(cat.drop_first(), v);
    }
}

/// Shared-mutable-state law: an element with a field that request or
/// response handlers reassign, matching no concurrency-safe idiom, is
/// refused — never lowered to unsynchronized native state.
pub proof fn lemma_shared_mutable_refused(cat: Seq<Idiom>, v: SpecElem)
    requires
        spec_has_mutable(v),
    ensures
        spec_compile(cat, v) == Result::Err::<(SpecBackendConfig, Seq<Warning>), BackendError>(
            BackendError::SharedMutableState,
        ),
{
    lemma_try_none_when_mutable(cat, v);
}

/// The same, from the surface program: a field some request statement
/// reassigns is classified mutable by lowering, and compilation of the
/// lowered element is refused.
pub proof fn lemma_mutable_field_refused(cat: Seq<Idiom>, e: Element, i: int)
    requires
        0 <= i < e.fields@.len(),
        spec_mutable(e, e.fields@[i].name@),
    ensures
        spec_compile(cat, spec_lower_elem(e)) == Result::Err::<
            (SpecBackendConfig, Seq<Warning>),
            BackendError,
        >(BackendError::SharedMutableState),
{
    assert(spec_lower_elem(e).fields[i].mutable);
    lemma_shared_mutable_refused(cat, spec_lower_elem(e));
}

/// Fallback-safety law: an element matching no idiom, with no mutable
/// state, still compiles — its full IR is the embedded payload, nothing
/// is dropped, and the unsupported-idiom warning is surfaced.
pub proof fn lemma_fallback_lossless(cat: Seq<Idiom>, v: SpecElem)
    requires
        spec_try_catalog(cat, v) is None,
        !spec_has_mutable(v),
    ensures
        spec_compile(cat, v) == Result::Ok::<(SpecBackendConfig, Seq<Warning>), BackendError>(
            (SpecBackendConfig::Embedded(v), seq![Warning::UnsupportedIdiom]),
        ),
{
}

/// Boundary law: a probability outside the unit range is refused at
/// idiom-extraction time, never clamped.
pub proof fn lemma_out_of_range_refused(cat: Seq<Idiom>, v: SpecElem, p: i64, msg: Seq<u8>)
    requires
        spec_try_catalog(cat, v) == Option::Some((p, msg)),
        p < 0 || p > SCALE,
    ensures
        spec_compile(cat, v) == Result::Err::<(SpecBackendConfig, Seq<Warning>), BackendError>(
            BackendError::ProbOutOfRange,
        ),
{
}

/// Correctness of the compiled filter, per draw: for an element the
/// fault-injection recognizer accepts with forwarding probability p, the
/// native decision forwards exactly the draws below p, so the forwarding
/// share over a uniform draw is p in a million.
pub proof fn lemma_fault_decide_matches_source(
    cat: Seq<Idiom>,
    v: SpecElem,
    p: i64,
    msg: Seq<u8>,
    abort: u64,
    draw: u64,
)
    requires
        spec_try_catalog(cat, v) == Option::Some((p, msg)),
        0 <= p <= SCALE,
        spec_compile(cat, v) matches Ok(ow) && ow.0 == SpecBackendConfig::Fault(abort, msg),
        draw < SCALE as u64,
    ensures
        (draw < SCALE as u64 - abort) == (draw < p as u64),
{
}

} // verus!
