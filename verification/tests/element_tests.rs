use elemc::ast::{AExpr, AField, AHandler, Arm, AStmt, Dir, Element, HName, Pat, Ty, SCALE};
use elemc::fault;
use elemc::validate::{validate, SemanticError};

fn fault_like(req_body: Vec<AStmt>) -> Element {
    let init_h = AHandler {
        name: HName::Init,
        param: b"prob".to_vec(),
        body: vec![AStmt::Assign(b"prob".to_vec(), AExpr::Num(900_000))],
    };
    let req_h = AHandler { name: HName::Req, param: b"rpc_req".to_vec(), body: req_body };
    let resp_h = AHandler {
        name: HName::Resp,
        param: b"rpc_resp".to_vec(),
        body: vec![AStmt::Send(AExpr::Var(b"rpc_resp".to_vec()), Dir::App)],
    };
    Element {
        name: b"fault".to_vec(),
        fields: vec![AField { name: b"prob".to_vec(), ty: Ty::Num }],
        handlers: vec![init_h, req_h, resp_h],
    }
}

fn canon_scrutinee() -> AExpr {
    AExpr::Lt(
        Box::new(AExpr::Rand(Box::new(AExpr::Num(0)), Box::new(AExpr::Num(SCALE)))),
        Box::new(AExpr::Var(b"prob".to_vec())),
    )
}

fn send_net() -> AStmt {
    AStmt::Send(AExpr::Var(b"rpc_req".to_vec()), Dir::Net)
}

fn send_err_app() -> AStmt {
    AStmt::Send(AExpr::ErrLit(b"fault_injected".to_vec()), Dir::App)
}

#[test]
fn canonical_element_validates() {
    let e = fault::element();
    let errs = validate(&e);
    assert!(errs.is_empty());
}

#[test]
fn canonical_handlers_have_their_hooks() {
    assert_eq!(fault::init().name, HName::Init);
    assert_eq!(fault::req().name, HName::Req);
    assert_eq!(fault::resp().name, HName::Resp);
    assert_eq!(fault::element().handlers.len(), 3);
}

#[test]
fn single_arm_match_is_non_exhaustive() {
    let body = vec![AStmt::Match(
        canon_scrutinee(),
        vec![Arm { pat: Pat::True, body: vec![send_net()] }],
    )];
    let errs = validate(&fault_like(body));
    assert!(errs.contains(&SemanticError::NonExhaustiveMatch(HName::Req)));
}

#[test]
fn wildcard_arm_restores_exhaustiveness() {
    let body = vec![AStmt::Match(
        canon_scrutinee(),
        vec![
            Arm { pat: Pat::True, body: vec![send_net()] },
            Arm { pat: Pat::Wild, body: vec![send_err_app()] },
        ],
    )];
    let errs = validate(&fault_like(body));
    assert!(errs.is_empty());
}

#[test]
fn path_without_send_is_rejected() {
    let body = vec![AStmt::Match(
        canon_scrutinee(),
        vec![
            Arm { pat: Pat::True, body: vec![send_net()] },
            Arm { pat: Pat::False, body: vec![] },
        ],
    )];
    let errs = validate(&fault_like(body));
    assert!(errs.contains(&SemanticError::EmissionPath(HName::Req)));
}

#[test]
fn two_sends_on_one_path_are_rejected() {
    let body = vec![send_net(), send_err_app()];
    let errs = validate(&fault_like(body));
    assert!(errs.contains(&SemanticError::EmissionPath(HName::Req)));
}

#[test]
fn empty_request_handler_is_rejected() {
    let errs = validate(&fault_like(vec![]));
    assert!(errs.contains(&SemanticError::EmissionPath(HName::Req)));
}

#[test]
fn field_missing_from_init_is_reported() {
    let mut e = fault_like(vec![send_net()]);
    e.handlers[0].body = vec![];
    let errs = validate(&e);
    assert!(errs.contains(&SemanticError::InitAssignMissing));
}

#[test]
fn field_assigned_twice_in_init_is_reported() {
    let mut e = fault_like(vec![send_net()]);
    e.handlers[0].body = vec![
        AStmt::Assign(b"prob".to_vec(), AExpr::Num(900_000)),
        AStmt::Assign(b"prob".to_vec(), AExpr::Num(100_000)),
    ];
    let errs = validate(&e);
    assert!(errs.contains(&SemanticError::InitAssignDuplicate));
}

#[test]
fn branching_in_init_is_rejected() {
    let mut e = fault_like(vec![send_net()]);
    e.handlers[0].body = vec![AStmt::Send(AExpr::Var(b"prob".to_vec()), Dir::Net)];
    let errs = validate(&e);
    assert!(errs.contains(&SemanticError::InitShape));
}

#[test]
fn duplicate_fields_are_rejected() {
    let mut e = fault_like(vec![send_net()]);
    e.fields.push(AField { name: b"prob".to_vec(), ty: Ty::Num });
    e.handlers[0].body.push(AStmt::Assign(b"prob".to_vec(), AExpr::Num(1)));
    let errs = validate(&e);
    assert!(errs.contains(&SemanticError::DuplicateField));
}

#[test]
fn duplicate_handlers_are_rejected() {
    let mut e = fault_like(vec![send_net()]);
    let extra = AHandler {
        name: HName::Resp,
        param: b"rpc_resp".to_vec(),
        body: vec![AStmt::Send(AExpr::Var(b"rpc_resp".to_vec()), Dir::App)],
    };
    e.handlers.push(extra);
    let errs = validate(&e);
    assert!(errs.contains(&SemanticError::DuplicateHandler));
}

#[test]
fn undeclared_name_is_reported() {
    let body = vec![AStmt::Match(
        AExpr::Lt(
            Box::new(AExpr::Rand(Box::new(AExpr::Num(0)), Box::new(AExpr::Num(SCALE)))),
            Box::new(AExpr::Var(b"nosuch".to_vec())),
        ),
        vec![
            Arm { pat: Pat::True, body: vec![send_net()] },
            Arm { pat: Pat::False, body: vec![send_err_app()] },
        ],
    )];
    let errs = validate(&fault_like(body));
    assert!(errs.contains(&SemanticError::UndeclaredName(HName::Req)));
}

#[test]
fn rand_bounds_out_of_order_are_rejected() {
    let body = vec![AStmt::Match(
        AExpr::Lt(
            Box::new(AExpr::Rand(Box::new(AExpr::Num(SCALE)), Box::new(AExpr::Num(0)))),
            Box::new(AExpr::Var(b"prob".to_vec())),
        ),
        vec![
            Arm { pat: Pat::True, body: vec![send_net()] },
            Arm { pat: Pat::False, body: vec![send_err_app()] },
        ],
    )];
    let errs = validate(&fault_like(body));
    assert!(errs.contains(&SemanticError::KindMismatch(HName::Req)));
}

#[test]
fn sending_a_number_is_a_kind_mismatch() {
    let body = vec![AStmt::Send(AExpr::Num(5), Dir::Net)];
    let errs = validate(&fault_like(body));
    assert!(errs.contains(&SemanticError::KindMismatch(HName::Req)));
}

#[test]
fn literal_arithmetic_is_accepted_in_init() {
    let mut e = fault_like(vec![send_net()]);
    e.handlers[0].body = vec![AStmt::Assign(
        b"prob".to_vec(),
        AExpr::Sub(
            Box::new(AExpr::Add(Box::new(AExpr::Num(800_000)), Box::new(AExpr::Num(200_000)))),
            Box::new(AExpr::Num(100_000)),
        ),
    )];
    let errs = validate(&e);
    assert!(errs.is_empty());
}
