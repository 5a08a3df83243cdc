use elemc::ast::{AExpr, AField, AHandler, Arm, AStmt, Dir, Element, HName, Pat, Ty, SCALE};
use elemc::backend::{default_catalog, fault_decide, BackendConfig, BackendError, FaultConfig, Warning};
use elemc::fault;
use elemc::pipeline::{compile_element, CompileFailure, CompileOutput};

fn compile(e: &Element) -> Result<CompileOutput, CompileFailure> {
    compile_element(&default_catalog(), e)
}

fn with_prob(p: i64) -> Element {
    let mut e = fault::element();
    e.handlers[0].body = vec![AStmt::Assign(b"prob".to_vec(), AExpr::Num(p))];
    e
}

fn native(out: &CompileOutput) -> &FaultConfig {
    match &out.config {
        BackendConfig::FaultFilter(f) => f,
        BackendConfig::Embedded(_) => panic!("expected a native filter"),
    }
}

#[test]
fn canonical_element_compiles_to_native_filter() {
    let out = compile(&fault::element()).unwrap();
    let f = native(&out);
    assert_eq!(f.abort_per_million, 100_000);
    assert_eq!(f.abort_message, b"fault_injected".to_vec());
    assert!(out.warnings.is_empty());
}

#[test]
fn emitted_wire_bytes_are_exact() {
    let out = compile(&fault::element()).unwrap();
    // tag 1, 100000 in base 128 (little-endian, high bit continues),
    // then the length-prefixed abort message
    let mut expected: Vec<u8> = vec![1, 160, 141, 6, 14];
    expected.extend_from_slice(b"fault_injected");
    assert_eq!(out.wire, expected);
}

#[test]
fn same_source_compiles_byte_identically() {
    let a = compile(&fault::element()).unwrap();
    let b = compile(&fault::element()).unwrap();
    assert_eq!(a.wire, b.wire);
}

#[test]
fn recognizer_matches_shape_not_names() {
    // the spec's idiom shape with every name changed
    let init_h = AHandler {
        name: HName::Init,
        param: b"q".to_vec(),
        body: vec![AStmt::Assign(b"q".to_vec(), AExpr::Num(250_000))],
    };
    let scrutinee = AExpr::Lt(
        Box::new(AExpr::Rand(Box::new(AExpr::Num(0)), Box::new(AExpr::Num(SCALE)))),
        Box::new(AExpr::Var(b"q".to_vec())),
    );
    let req_h = AHandler {
        name: HName::Req,
        param: b"r".to_vec(),
        body: vec![AStmt::Match(
            scrutinee,
            vec![
                Arm {
                    pat: Pat::True,
                    body: vec![AStmt::Send(AExpr::Var(b"r".to_vec()), Dir::Net)],
                },
                Arm {
                    pat: Pat::False,
                    body: vec![AStmt::Send(AExpr::ErrLit(b"boom".to_vec()), Dir::App)],
                },
            ],
        )],
    };
    let resp_h = AHandler {
        name: HName::Resp,
        param: b"s".to_vec(),
        body: vec![AStmt::Send(AExpr::Var(b"s".to_vec()), Dir::App)],
    };
    let e = Element {
        name: b"faulty".to_vec(),
        fields: vec![AField { name: b"q".to_vec(), ty: Ty::Num }],
        handlers: vec![init_h, req_h, resp_h],
    };
    let out = compile(&e).unwrap();
    let f = native(&out);
    assert_eq!(f.abort_per_million, 750_000);
    assert_eq!(f.abort_message, b"boom".to_vec());
}

#[test]
fn literal_arithmetic_folds_before_matching() {
    let mut e = fault::element();
    e.handlers[0].body = vec![AStmt::Assign(
        b"prob".to_vec(),
        AExpr::Sub(
            Box::new(AExpr::Add(Box::new(AExpr::Num(800_000)), Box::new(AExpr::Num(200_000)))),
            Box::new(AExpr::Num(100_000)),
        ),
    )];
    let out = compile(&e).unwrap();
    assert_eq!(native(&out).abort_per_million, 100_000);
}

#[test]
fn reordered_comparison_matches_the_same_idiom() {
    let mut e = fault::element();
    let scrutinee = AExpr::Gt(
        Box::new(AExpr::Var(b"prob".to_vec())),
        Box::new(AExpr::Rand(Box::new(AExpr::Num(0)), Box::new(AExpr::Num(SCALE)))),
    );
    match &mut e.handlers[1].body[0] {
        AStmt::Match(s, _) => *s = scrutinee,
        _ => panic!("canonical request handler should hold a match"),
    }
    let out = compile(&e).unwrap();
    assert_eq!(native(&out).abort_per_million, 100_000);
}

#[test]
fn probability_below_zero_is_refused() {
    let r = compile(&with_prob(-100_000));
    assert_eq!(r.unwrap_err(), CompileFailure::Backend(BackendError::ProbOutOfRange));
}

#[test]
fn probability_above_one_is_refused() {
    let r = compile(&with_prob(1_500_000));
    assert_eq!(r.unwrap_err(), CompileFailure::Backend(BackendError::ProbOutOfRange));
}

#[test]
fn unmatched_shape_falls_back_to_embedded_logic() {
    // swap the arms' directions: no longer the fault-injection idiom
    let mut e = fault::element();
    e.handlers[1].body = vec![AStmt::Match(
        AExpr::Lt(
            Box::new(AExpr::Rand(Box::new(AExpr::Num(0)), Box::new(AExpr::Num(SCALE)))),
            Box::new(AExpr::Var(b"prob".to_vec())),
        ),
        vec![
            Arm {
                pat: Pat::True,
                body: vec![AStmt::Send(AExpr::Var(b"rpc_req".to_vec()), Dir::App)],
            },
            Arm {
                pat: Pat::False,
                body: vec![AStmt::Send(AExpr::ErrLit(b"fault_injected".to_vec()), Dir::Net)],
            },
        ],
    )];
    let out = compile(&e).unwrap();
    assert!(matches!(out.config, BackendConfig::Embedded(_)));
    assert_eq!(out.warnings, vec![Warning::UnsupportedIdiom]);
    assert_eq!(out.wire[0], 2);
    let again = compile(&e).unwrap();
    assert_eq!(out.wire, again.wire);
}

#[test]
fn embedded_payload_keeps_the_whole_element() {
    let mut e = fault::element();
    e.handlers[1].body = vec![AStmt::Send(AExpr::ErrLit(b"always".to_vec()), Dir::App)];
    let out = compile(&e).unwrap();
    match &out.config {
        BackendConfig::Embedded(ir) => {
            assert_eq!(ir.name, b"fault".to_vec());
            assert_eq!(ir.fields.len(), 1);
            assert_eq!(ir.fields[0].name, b"prob".to_vec());
            assert!(!ir.fields[0].mutable);
            assert!(ir.req.is_some());
            assert!(ir.resp.is_some());
        },
        BackendConfig::FaultFilter(_) => panic!("expected the embedded fallback"),
    }
}

#[test]
fn mutable_field_is_refused() {
    let mut e = fault::element();
    // reassign prob on the request path: classified mutable
    e.handlers[1].body = vec![AStmt::Match(
        AExpr::Lt(
            Box::new(AExpr::Rand(Box::new(AExpr::Num(0)), Box::new(AExpr::Num(SCALE)))),
            Box::new(AExpr::Var(b"prob".to_vec())),
        ),
        vec![
            Arm {
                pat: Pat::True,
                body: vec![
                    AStmt::Assign(b"prob".to_vec(), AExpr::Num(0)),
                    AStmt::Send(AExpr::Var(b"rpc_req".to_vec()), Dir::Net),
                ],
            },
            Arm {
                pat: Pat::False,
                body: vec![AStmt::Send(AExpr::ErrLit(b"fault_injected".to_vec()), Dir::App)],
            },
        ],
    )];
    let r = compile(&e);
    assert_eq!(r.unwrap_err(), CompileFailure::Backend(BackendError::SharedMutableState));
}

#[test]
fn invalid_element_reports_the_semantic_batch() {
    let mut e = fault::element();
    e.handlers[1].body = vec![];
    match compile(&e).unwrap_err() {
        CompileFailure::Semantic(errs) => assert!(!errs.is_empty()),
        CompileFailure::Backend(_) => panic!("expected semantic errors"),
    }
}

fn lcg_draws(seed: u64, n: usize) -> Vec<u64> {
    let mut x = seed;
    let mut out = Vec::new();
    for _ in 0..n {
        x = x.wrapping_mul(6364136223846793005).wrapping_add(1442695040888963407);
        out.push((x >> 16) % (SCALE as u64));
    }
    out
}

#[test]
fn observed_forward_fraction_tracks_prob() {
    let out = compile(&with_prob(900_000)).unwrap();
    let cfg = native(&out);
    let draws = lcg_draws(42, 10_000);
    let forwards = draws.iter().filter(|d| fault_decide(cfg, **d)).count();
    let frac = forwards as f64 / 10_000.0;
    assert!(frac >= 0.88 && frac <= 0.92, "forward fraction {frac}");
}

#[test]
fn probability_zero_never_forwards() {
    let out = compile(&with_prob(0)).unwrap();
    for d in lcg_draws(7, 1000) {
        assert!(!fault_decide(native(&out), d));
    }
}

#[test]
fn probability_one_always_forwards() {
    let out = compile(&with_prob(SCALE)).unwrap();
    for d in lcg_draws(9, 1000) {
        assert!(fault_decide(native(&out), d));
    }
}

#[test]
fn decide_is_a_sharp_threshold() {
    let cfg = FaultConfig { abort_per_million: 100_000, abort_message: b"fault_injected".to_vec() };
    assert!(fault_decide(&cfg, 0));
    assert!(fault_decide(&cfg, 899_999));
    assert!(!fault_decide(&cfg, 900_000));
    assert!(!fault_decide(&cfg, 999_999));
}
