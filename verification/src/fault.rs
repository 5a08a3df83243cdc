//! The canonical probabilistic fault-injection element: with probability
//! `prob` a request continues toward the network, otherwise an error-tagged
//! message is returned to the application. Responses pass through unchanged.
use vstd::prelude::*;
use crate::ast::{AExpr, AField, AHandler, Arm, AStmt, Dir, Element, HName, Pat, Ty, SCALE};

verus! {

pub open spec fn spec_name_fault() -> Seq<u8> {
    seq![102u8, 97u8, 117u8, 108u8, 116u8]
}

pub open spec fn spec_name_prob() -> Seq<u8> {
    seq![112u8, 114u8, 111u8, 98u8]
}

pub open spec fn spec_name_rpc_req() -> Seq<u8> {
    seq![114u8, 112u8, 99u8, 95u8, 114u8, 101u8, 113u8]
}

pub open spec fn spec_name_rpc_resp() -> Seq<u8> {
    seq![114u8, 112u8, 99u8, 95u8, 114u8, 101u8, 115u8, 112u8]
}

pub open spec fn spec_msg_fault_injected() -> Seq<u8> {
    seq![102u8, 97u8, 117u8, 108u8, 116u8, 95u8, 105u8, 110u8, 106u8, 101u8, 99u8, 116u8,
        101u8, 100u8]
}

/// The default probability of forwarding, in millionths: 0.9.
pub open spec fn spec_default_prob() -> i64 {
    900000i64
}

/// The scrutinee of the canonical request handler:
/// `randomf(0, 1) < prob`.
pub open spec fn spec_is_canon_scrutinee(e: AExpr) -> bool {
    match e {
        AExpr::Lt(a, b) => {
            (match *a {
                AExpr::Rand(lo, hi) => *lo == AExpr::Num(0i64) && *hi == AExpr::Num(SCALE),
                _ => false,
            }) && (match *b {
                AExpr::Var(n) => n@ == spec_name_prob(),
                _ => false,
            })
        },
        _ => false,
    }
}

/// The body of the canonical request handler: a two-armed boolean match
/// that forwards toward the network on `True` and sends an error-tagged
/// message back to the application on `False`.
pub open spec fn spec_is_canon_req_body(body: Seq<AStmt>) -> bool {
    body.len() == 1 && match body[0] {
        AStmt::Match(s, arms) => spec_is_canon_scrutinee(s) && arms@.len() == 2 && (
        arms@[0].pat == Pat::True && arms@[0].body@.len() == 1 && (
        match arms@[0].body@[0] {
            AStmt::Send(m, d) => (m matches AExpr::Var(n) && n@ == spec_name_rpc_req()) && d
                == Dir::Net,
            _ => false,
        })) && (arms@[1].pat == Pat::False && arms@[1].body@.len() == 1 && (
        match arms@[1].body@[0] {
            AStmt::Send(m, d) => (m matches AExpr::ErrLit(t) && t@ == spec_msg_fault_injected())
                && d == Dir::App,
            _ => false,
        })),
        _ => false,
    }
}

/// The body of the canonical response handler: pass the response back to
/// the application unchanged.
pub open spec fn spec_is_canon_resp_body(body: Seq<AStmt>) -> bool {
    body.len() == 1 && match body[0] {
        AStmt::Send(m, d) => (m matches AExpr::Var(n) && n@ == spec_name_rpc_resp()) && d
            == Dir::App,
        _ => false,
    }
}

fn name_prob() -> (v: Vec<u8>)
    ensures
        v@ == spec_name_prob(),
{
    let v: Vec<u8> = vec![112u8, 114u8, 111u8, 98u8];
    v
}

/// The `init` hook of the canonical element: give `prob` its value, once.
pub fn init() -> (h: AHandler)
    ensures
        h.name == HName::Init,
        h.param@ == spec_name_prob(),
        h.body@.len() == 1,
        h.body@[0] matches AStmt::Assign(n, e) && n@ == spec_name_prob() && e == AExpr::Num(
            spec_default_prob(),
        ),
{
    let body: Vec<AStmt> = vec![AStmt::Assign(name_prob(), AExpr::Num(900000i64))];
    AHandler { name: HName::Init, param: name_prob(), body }
}

/// The `req` hook of the canonical element: draw a uniform number in
/// [0, 1) and forward the request toward the network when it falls below
/// `prob`, otherwise return an error-tagged message to the application.
pub fn req() -> (h: AHandler)
    ensures
        h.name == HName::Req,
        h.param@ == spec_name_rpc_req(),
        spec_is_canon_req_body(h.body@),
{
    let param: Vec<u8> = vec![114u8, 112u8, 99u8, 95u8, 114u8, 101u8, 113u8];
    let scrutinee = AExpr::Lt(
        Box::new(AExpr::Rand(Box::new(AExpr::Num(0i64)), Box::new(AExpr::Num(SCALE)))),
        Box::new(AExpr::Var(name_prob())),
    );
    let fwd: Vec<u8> = vec![114u8, 112u8, 99u8, 95u8, 114u8, 101u8, 113u8];
    let msg: Vec<u8> = vec![
        102u8, 97u8, 117u8, 108u8, 116u8, 95u8, 105u8, 110u8, 106u8, 101u8, 99u8, 116u8, 101u8,
        100u8,
    ];
    let true_body: Vec<AStmt> = vec![AStmt::Send(AExpr::Var(fwd), Dir::Net)];
    let false_body: Vec<AStmt> = vec![AStmt::Send(AExpr::ErrLit(msg), Dir::App)];
    let arms: Vec<Arm> = vec![
        Arm { pat: Pat::True, body: true_body },
        Arm { pat: Pat::False, body: false_body },
    ];
    let body: Vec<AStmt> = vec![AStmt::Match(scrutinee, arms)];
    AHandler { name: HName::Req, param, body }
}

/// The `resp` hook of the canonical element: pass the response back to the
/// application.
pub fn resp() -> (h: AHandler)
    ensures
        h.name == HName::Resp,
        h.param@ == spec_name_rpc_resp(),
        spec_is_canon_resp_body(h.body@),
{
    let param: Vec<u8> = vec![114u8, 112u8, 99u8, 95u8, 114u8, 101u8, 115u8, 112u8];
    let arg: Vec<u8> = vec![114u8, 112u8, 99u8, 95u8, 114u8, 101u8, 115u8, 112u8];
    let body: Vec<AStmt> = vec![AStmt::Send(AExpr::Var(arg), Dir::App)];
    AHandler { name: HName::Resp, param, body }
}

/// The whole canonical element: one constant state field `prob`, and the
/// three hooks above.
pub fn element() -> (e: Element)
    ensures
        e.name@ == spec_name_fault(),
        e.fields@.len() == 1,
        e.fields@[0].name@ == spec_name_prob(),
        e.fields@[0].ty == Ty::Num,
        e.handlers@.len() == 3,
        e.handlers@[0].name == HName::Init,
        e.handlers@[1].name == HName::Req,
        e.handlers@[2].name == HName::Resp,
        e.handlers@[0].body@.len() == 1,
        e.handlers@[0].body@[0] matches AStmt::Assign(n, x) && n@ == spec_name_prob() && x
            == AExpr::Num(spec_default_prob()),
        spec_is_canon_req_body(e.handlers@[1].body@),
        spec_is_canon_resp_body(e.handlers@[2].body@),
{
    let name: Vec<u8> = vec![102u8, 97u8, 117u8, 108u8, 116u8];
    let fields: Vec<AField> = vec![AField { name: name_prob(), ty: Ty::Num }];
    let handlers: Vec<AHandler> = vec![init(), req(), resp()];
    Element { name, fields, handlers }
}

} // verus!
