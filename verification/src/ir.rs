//! Canonical element intermediate representation: names are resolved to
//! field indices or the handler input, literal arithmetic is folded away,
//! comparisons are oriented one way, every boolean match is a two-armed
//! conditional, and each field carries its constant/mutable
//! classification. Idiom matching works on this form alone, so equivalent
//! surface spellings meet the same recognizers.
use vstd::prelude::*;
use crate::ast::Dir;

verus! {

broadcast use vstd::seq::axiom_seq_index_decreases, vstd::std_specs::vec::group_vec_axioms;

/// Canonical expression. No `>` (reoriented to `<`) and no arithmetic
/// (folded to literals) survive lowering.
#[derive(Debug)]
pub enum IExpr {
    /// Numeric literal, in millionths.
    Num(i64),
    /// State field, by position in the schema.
    Field(u64),
    /// The handler's inbound message parameter.
    Input,
    /// Uniform draw in the inclusive-exclusive range.
    Rand(Box<IExpr>, Box<IExpr>),
    /// An error-tagged message value.
    ErrLit(Vec<u8>),
    /// Numeric strictly-less-than.
    Lt(Box<IExpr>, Box<IExpr>),
}

/// Canonical statement.
#[derive(Debug)]
pub enum IStmt {
    Assign(u64, IExpr),
    Send(IExpr, Dir),
    /// Two-armed conditional: the canonical form of a boolean match.
    If(IExpr, Vec<IStmt>, Vec<IStmt>),
}

/// A state field after lowering: its folded initializer, and whether any
/// request/response handler reassigns it.
#[derive(Debug)]
pub struct IrField {
    pub name: Vec<u8>,
    pub mutable: bool,
    pub init: IExpr,
}

/// A lowered element.
#[derive(Debug)]
pub struct IrElement {
    pub name: Vec<u8>,
    pub fields: Vec<IrField>,
    pub req: Option<Vec<IStmt>>,
    pub resp: Option<Vec<IStmt>>,
}

/// Mathematical model of a canonical expression.
pub enum SpecExpr {
    Num(i64),
    Field(u64),
    Input,
    Rand(Box<SpecExpr>, Box<SpecExpr>),
    ErrLit(Seq<u8>),
    Lt(Box<SpecExpr>, Box<SpecExpr>),
}

/// Mathematical model of a canonical statement.
pub enum SpecStmt {
    Assign(u64, SpecExpr),
    Send(SpecExpr, Dir),
    If(SpecExpr, Seq<SpecStmt>, Seq<SpecStmt>),
}

/// Mathematical model of a lowered field.
pub struct SpecField {
    pub name: Seq<u8>,
    pub mutable: bool,
    pub init: SpecExpr,
}

/// Mathematical model of a lowered element.
pub struct SpecElem {
    pub name: Seq<u8>,
    pub fields: Seq<SpecField>,
    pub req: Option<Seq<SpecStmt>>,
    pub resp: Option<Seq<SpecStmt>>,
}

pub open spec fn expr_view(e: IExpr) -> SpecExpr
    decreases e,
{
    match e {
        IExpr::Num(n) => SpecExpr::Num(n),
        IExpr::Field(i) => SpecExpr::Field(i),
        IExpr::Input => SpecExpr::Input,
        IExpr::Rand(lo, hi) => SpecExpr::Rand(Box::new(expr_view(*lo)), Box::new(expr_view(*hi))),
        IExpr::ErrLit(m) => SpecExpr::ErrLit(m@),
        IExpr::Lt(a, b) => SpecExpr::Lt(Box::new(expr_view(*a)), Box::new(expr_view(*b))),
    }
}

pub open spec fn stmt_view(s: IStmt) -> SpecStmt
    decreases s,
{
    match s {
        IStmt::Assign(i, e) => SpecStmt::Assign(i, expr_view(e)),
        IStmt::Send(e, d) => SpecStmt::Send(expr_view(e), d),
        IStmt::If(c, a, b) => SpecStmt::If(expr_view(c), stmts_view(a@), stmts_view(b@)),
    }
}

pub open spec fn stmts_view(s: Seq<IStmt>) -> Seq<SpecStmt>
    decreases s,
{
    if s.len() == 0 {
        Seq::empty()
    } else {
        seq![stmt_view(s[0])] + stmts_view(s.drop_first())
    }
}

pub open spec fn field_view(f: IrField) -> SpecField {
    SpecField { name: f.name@, mutable: f.mutable, init: expr_view(f.init) }
}

pub open spec fn fields_view(s: Seq<IrField>) -> Seq<SpecField> {
    s.map_values(|f: IrField| field_view(f))
}

pub open spec fn body_view(b: Option<Vec<IStmt>>) -> Option<Seq<SpecStmt>> {
    match b {
        Option::None => Option::None,
        Option::Some(v) => Option::Some(stmts_view(v@)),
    }
}

pub open spec fn elem_view(e: IrElement) -> SpecElem {
    SpecElem {
        name: e.name@,
        fields: fields_view(e.fields@),
        req: body_view(e.req),
        resp: body_view(e.resp),
    }
}

/// `stmts_view` element by element.
pub proof fn lemma_stmts_view_index(s: Seq<IStmt>)
    ensures
        stmts_view(s).len() == s.len(),
        forall|i: int| 0 <= i < s.len() ==> stmts_view(s)[i] == stmt_view(s[i]),
    decreases s,
{
    if s.len() > 0 {
        lemma_stmts_view_index(s.drop_first());
    }
}

/// `stmts_view` distributes over appending one statement.
pub proof fn lemma_stmts_view_push(s: Seq<IStmt>, x: IStmt)
    ensures
        stmts_view(s.push(x)) == stmts_view(s) + seq![stmt_view(x)],
    decreases s,
{
    if s.len() == 0 {
        assert(s.push(x).len() == 1);
        assert(s.push(x)[0] == x);
        assert(s.push(x).drop_first() =~= Seq::<IStmt>::empty());
        assert(stmts_view(Seq::<IStmt>::empty()) == Seq::<SpecStmt>::empty());
        assert(stmts_view(s.push(x)) == seq![stmt_view(s.push(x)[0])] + stmts_view(
            s.push(x).drop_first(),
        ));
        assert(stmts_view(s.push(x)) == seq![stmt_view(x)] + Seq::<SpecStmt>::empty());
        assert(stmts_view(s.push(x)) =~= stmts_view(s) + seq![stmt_view(x)]);
    } else {
        lemma_stmts_view_push(s.drop_first(), x);
        assert(s.push(x).drop_first() =~= s.drop_first().push(x));
        assert(s.push(x)[0] == s[0]);
        assert(stmts_view(s.push(x)) == seq![stmt_view(s[0])] + stmts_view(s.drop_first().push(x)));
        assert(stmts_view(s.push(x)) == seq![stmt_view(s[0])] + (stmts_view(s.drop_first())
            + seq![stmt_view(x)]));
        assert(stmts_view(s) == seq![stmt_view(s[0])] + stmts_view(s.drop_first()));
        assert(stmts_view(s.push(x)) =~= stmts_view(s) + seq![stmt_view(x)]);
    }
}

} // verus!
