//! Surface syntax of an element definition: state schema, handlers, and the
//! small statement algebra (assignment, boolean match, builtin calls).
use vstd::prelude::*;

verus! {

/// Numeric values are fixed-point: a real number x is stored as the
/// integer x * SCALE. One whole unit — the probability 1.0 — is SCALE.
pub const SCALE: i64 = 1000000;

/// Logical egress of a message: toward the network peer, or back to the
/// local application.
#[derive(Clone, Copy, PartialEq, Eq, Structural, Debug)]
pub enum Dir {
    Net,
    App,
}

/// Semantic type of a state field. Numbers are fixed-point with a scale of
/// one million (a probability of 0.9 is stored as 900_000).
#[derive(Clone, Copy, PartialEq, Eq, Structural, Debug)]
pub enum Ty {
    Num,
    Bool,
}

/// The fixed set of lifecycle hooks an element may implement.
#[derive(Clone, Copy, PartialEq, Eq, Structural, Debug)]
pub enum HName {
    Init,
    Req,
    Resp,
}

/// Patterns of a `match` arm over a boolean scrutinee.
#[derive(Clone, Copy, PartialEq, Eq, Structural, Debug)]
pub enum Pat {
    True,
    False,
    Wild,
}

/// Surface expression. Numeric literals are fixed-point (micros).
#[derive(Debug)]
pub enum AExpr {
    /// Numeric literal, in millionths.
    Num(i64),
    /// Reference to a state field or to the handler parameter, by name.
    Var(Vec<u8>),
    /// `randomf(lo, hi)`: uniform draw in the inclusive-exclusive range.
    Rand(Box<AExpr>, Box<AExpr>),
    /// `err(message)`: an error-tagged message value.
    ErrLit(Vec<u8>),
    /// `a < b` on numbers.
    Lt(Box<AExpr>, Box<AExpr>),
    /// `a > b` on numbers.
    Gt(Box<AExpr>, Box<AExpr>),
    /// Literal addition, folded away during lowering.
    Add(Box<AExpr>, Box<AExpr>),
    /// Literal subtraction, folded away during lowering.
    Sub(Box<AExpr>, Box<AExpr>),
}

/// One arm of a surface `match`.
#[derive(Debug)]
pub struct Arm {
    pub pat: Pat,
    pub body: Vec<AStmt>,
}

/// Surface statement.
#[derive(Debug)]
pub enum AStmt {
    /// `field := expr;`
    Assign(Vec<u8>, AExpr),
    /// `match(expr) { pat => { ... } ... };`
    Match(AExpr, Vec<Arm>),
    /// `send(expr, NET|APP);`
    Send(AExpr, Dir),
}

/// A declared state field: name and semantic type.
#[derive(Debug)]
pub struct AField {
    pub name: Vec<u8>,
    pub ty: Ty,
}

/// A handler: hook name, the single nominal parameter, and an ordered body.
#[derive(Debug)]
pub struct AHandler {
    pub name: HName,
    pub param: Vec<u8>,
    pub body: Vec<AStmt>,
}

/// One element definition: a named unit with a state schema and handlers.
#[derive(Debug)]
pub struct Element {
    pub name: Vec<u8>,
    pub fields: Vec<AField>,
    pub handlers: Vec<AHandler>,
}

/// Copies a byte string.
pub fn copy_bytes(v: &Vec<u8>) -> (r: Vec<u8>)
    ensures
        r@ == v@,
{
    let mut r: Vec<u8> = Vec::new();
    let mut i: usize = 0;
    while i < v.len()
        invariant
            i <= v.len(),
            r@ =~= v@.take(i as int),
        decreases v.len() - i,
    {
        r.push(v[i]);
        proof {
            assert(v@.take(i as int + 1) =~= v@.take(i as int).push(v@[i as int]));
        }
        i = i + 1;
    }
    proof {
        assert(v@.take(v@.len() as int) =~= v@);
    }
    r
}

/// Compares two byte strings.
pub fn bytes_eq(a: &Vec<u8>, b: &Vec<u8>) -> (r: bool)
    ensures
        r == (a@ == b@),
{
    if a.len() != b.len() {
        proof {
            assert(a@ != b@);
        }
        return false;
    }
    let mut i: usize = 0;
    while i < a.len()
        invariant
            i <= a.len(),
            a@.len() == b@.len(),
            forall|j: int| 0 <= j < i ==> a@[j] == b@[j],
        decreases a.len() - i,
    {
        if a[i] != b[i] {
            return false;
        }
        i = i + 1;
    }
    proof {
        assert(a@ =~= b@);
    }
    true
}

} // verus!
