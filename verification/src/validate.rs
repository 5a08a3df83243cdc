//! Semantic validation: an element definition is checked whole, and every
//! failed check contributes an error, so one build reports the full batch.
use vstd::prelude::*;
use crate::ast::{bytes_eq, AExpr, AField, AHandler, Arm, AStmt, Element, HName, Pat, Ty};

verus! {

broadcast use vstd::seq::axiom_seq_index_decreases, vstd::std_specs::vec::group_vec_axioms;

/// One semantic defect. Handler-level defects carry the hook they were
/// found in.
#[derive(PartialEq, Eq, Debug)]
pub enum SemanticError {
    /// Two state fields share a name.
    DuplicateField,
    /// Two handlers share a hook name.
    DuplicateHandler,
    /// A name in a handler body is neither a state field nor the
    /// handler's parameter.
    UndeclaredName(HName),
    /// An expression or builtin call is used at the wrong kind or arity,
    /// or `randomf` literal bounds are out of order.
    KindMismatch(HName),
    /// A `match` does not cover its boolean scrutinee's domain.
    NonExhaustiveMatch(HName),
    /// A control path through the handler emits no message, or more than
    /// one.
    EmissionPath(HName),
    /// `init` holds something besides plain assignments.
    InitShape,
    /// Some state field is never assigned during `init`.
    InitAssignMissing,
    /// Some state field is assigned more than once during `init`.
    InitAssignDuplicate,
}

/// Value kinds an expression can have.
#[derive(PartialEq, Eq, Structural, Clone, Copy, Debug)]
pub enum Kind {
    KNum,
    KBool,
    KMsg,
}

pub open spec fn ty_kind(t: Ty) -> Kind {
    match t {
        Ty::Num => Kind::KNum,
        Ty::Bool => Kind::KBool,
    }
}

/// Index of the first field of this name, if any.
pub open spec fn spec_field_index(fields: Seq<AField>, name: Seq<u8>) -> Option<int>
    decreases fields,
{
    if fields.len() == 0 {
        Option::None
    } else if fields[0].name@ == name {
        Option::Some(0int)
    } else {
        match spec_field_index(fields.drop_first(), name) {
            Option::None => Option::None,
            Option::Some(i) => Option::Some(i + 1),
        }
    }
}

/// What `spec_field_index` finds: the first index whose field has the
/// given name.
pub proof fn lemma_field_index_char(fields: Seq<AField>, name: Seq<u8>)
    ensures
        match spec_field_index(fields, name) {
            Option::None => forall|i: int| 0 <= i < fields.len() ==> fields[i].name@ != name,
            Option::Some(i) => 0 <= i < fields.len() && fields[i].name@ == name && forall|j: int|
                0 <= j < i ==> fields[j].name@ != name,
        },
    decreases fields,
{
    if fields.len() > 0 {
        lemma_field_index_char(fields.drop_first(), name);
        assert(forall|i: int|
            0 <= i < fields.drop_first().len() ==> fields.drop_first()[i] == fields[i + 1]);
        if fields[0].name@ != name {
            match spec_field_index(fields.drop_first(), name) {
                Option::None => {
                    assert(forall|i: int|
                        1 <= i < fields.len() ==> fields.drop_first()[i - 1] == fields[i]);
                },
                Option::Some(i) => {
                    assert(fields[i + 1].name@ == name);
                    assert(forall|j: int|
                        1 <= j < i + 1 ==> fields[j] == fields.drop_first()[j - 1]);
                },
            }
        }
    }
}

/// Value of an expression made of literals and literal arithmetic, when
/// the arithmetic stays within the machine range.
pub open spec fn spec_const_val(e: AExpr) -> Option<i64>
    decreases e,
{
    match e {
        AExpr::Num(n) => Option::Some(n),
        AExpr::Add(a, b) => match (spec_const_val(*a), spec_const_val(*b)) {
            (Option::Some(x), Option::Some(y)) => if i64::MIN <= x + y <= i64::MAX {
                Option::Some((x + y) as i64)
            } else {
                Option::None
            },
            _ => Option::None,
        },
        AExpr::Sub(a, b) => match (spec_const_val(*a), spec_const_val(*b)) {
            (Option::Some(x), Option::Some(y)) => if i64::MIN <= x - y <= i64::MAX {
                Option::Some((x - y) as i64)
            } else {
                Option::None
            },
            _ => Option::None,
        },
        _ => Option::None,
    }
}

/// Kind of an expression, or nothing when some subterm is ill-kinded, a
/// name is unresolved, arithmetic is not literal, or literal `randomf`
/// bounds are out of order.
pub open spec fn spec_kind(e: AExpr, fields: Seq<AField>, param: Seq<u8>) -> Option<Kind>
    decreases e,
{
    match e {
        AExpr::Num(_) => Option::Some(Kind::KNum),
        AExpr::Var(n) => match spec_field_index(fields, n@) {
            Option::Some(i) => Option::Some(ty_kind(fields[i].ty)),
            Option::None => if n@ == param {
                Option::Some(Kind::KMsg)
            } else {
                Option::None
            },
        },
        AExpr::Rand(lo, hi) => if spec_kind(*lo, fields, param) == Option::Some(Kind::KNum)
            && spec_kind(*hi, fields, param) == Option::Some(Kind::KNum) && (match (
            spec_const_val(*lo),
            spec_const_val(*hi),
        ) {
            (Option::Some(x), Option::Some(y)) => x <= y,
            _ => true,
        }) {
            Option::Some(Kind::KNum)
        } else {
            Option::None
        },
        AExpr::ErrLit(_) => Option::Some(Kind::KMsg),
        AExpr::Lt(a, b) => if spec_kind(*a, fields, param) == Option::Some(Kind::KNum) && spec_kind(
            *b,
            fields,
            param,
        ) == Option::Some(Kind::KNum) {
            Option::Some(Kind::KBool)
        } else {
            Option::None
        },
        AExpr::Gt(a, b) => if spec_kind(*a, fields, param) == Option::Some(Kind::KNum) && spec_kind(
            *b,
            fields,
            param,
        ) == Option::Some(Kind::KNum) {
            Option::Some(Kind::KBool)
        } else {
            Option::None
        },
        AExpr::Add(_, _) => if spec_const_val(e) is Some {
            Option::Some(Kind::KNum)
        } else {
            Option::None
        },
        AExpr::Sub(_, _) => if spec_const_val(e) is Some {
            Option::Some(Kind::KNum)
        } else {
            Option::None
        },
    }
}

/// Every name in the expression resolves to a field or to the parameter.
pub open spec fn spec_refs_expr(e: AExpr, fields: Seq<AField>, param: Seq<u8>) -> bool
    decreases e,
{
    match e {
        AExpr::Num(_) => true,
        AExpr::Var(n) => spec_field_index(fields, n@) is Some || n@ == param,
        AExpr::Rand(a, b) => spec_refs_expr(*a, fields, param) && spec_refs_expr(*b, fields, param),
        AExpr::ErrLit(_) => true,
        AExpr::Lt(a, b) => spec_refs_expr(*a, fields, param) && spec_refs_expr(*b, fields, param),
        AExpr::Gt(a, b) => spec_refs_expr(*a, fields, param) && spec_refs_expr(*b, fields, param),
        AExpr::Add(a, b) => spec_refs_expr(*a, fields, param) && spec_refs_expr(*b, fields, param),
        AExpr::Sub(a, b) => spec_refs_expr(*a, fields, param) && spec_refs_expr(*b, fields, param),
    }
}

/// Name resolution over a statement list, recursively through match arms.
pub open spec fn spec_refs_stmts(ss: Seq<AStmt>, fields: Seq<AField>, param: Seq<u8>) -> bool
    decreases ss,
{
    if ss.len() == 0 {
        true
    } else {
        spec_refs_stmts(ss.drop_last(), fields, param) && spec_refs_stmt(ss.last(), fields, param)
    }
}

pub open spec fn spec_refs_stmt(s: AStmt, fields: Seq<AField>, param: Seq<u8>) -> bool
    decreases s,
{
    match s {
        AStmt::Assign(n, e) => spec_field_index(fields, n@) is Some && spec_refs_expr(
            e,
            fields,
            param,
        ),
        AStmt::Send(m, _) => spec_refs_expr(m, fields, param),
        AStmt::Match(sc, arms) => spec_refs_expr(sc, fields, param) && spec_refs_arms(
            arms@,
            fields,
            param,
        ),
    }
}

pub open spec fn spec_refs_arms(arms: Seq<Arm>, fields: Seq<AField>, param: Seq<u8>) -> bool
    decreases arms,
{
    if arms.len() == 0 {
        true
    } else {
        spec_refs_arms(arms.drop_last(), fields, param) && spec_refs_stmts(
            arms.last().body@,
            fields,
            param,
        )
    }
}

/// Kind correctness over a statement list.
pub open spec fn spec_kinds_stmts(ss: Seq<AStmt>, fields: Seq<AField>, param: Seq<u8>) -> bool
    decreases ss,
{
    if ss.len() == 0 {
        true
    } else {
        spec_kinds_stmts(ss.drop_last(), fields, param) && spec_kinds_stmt(
            ss.last(),
            fields,
            param,
        )
    }
}

pub open spec fn spec_kinds_stmt(s: AStmt, fields: Seq<AField>, param: Seq<u8>) -> bool
    decreases s,
{
    match s {
        AStmt::Assign(n, e) => match spec_field_index(fields, n@) {
            Option::Some(i) => spec_kind(e, fields, param) == Option::Some(ty_kind(fields[i].ty)),
            Option::None => false,
        },
        AStmt::Send(m, _) => spec_kind(m, fields, param) == Option::Some(Kind::KMsg),
        AStmt::Match(sc, arms) => spec_kind(sc, fields, param) == Option::Some(Kind::KBool)
            && spec_kinds_arms(arms@, fields, param),
    }
}

pub open spec fn spec_kinds_arms(arms: Seq<Arm>, fields: Seq<AField>, param: Seq<u8>) -> bool
    decreases arms,
{
    if arms.len() == 0 {
        true
    } else {
        spec_kinds_arms(arms.drop_last(), fields, param) && spec_kinds_stmts(
            arms.last().body@,
            fields,
            param,
        )
    }
}

/// The arms of one `match` cover the boolean domain: both `True` and
/// `False` are present, or a wildcard is.
pub open spec fn spec_arms_cover(arms: Seq<Arm>) -> bool {
    ((exists|i: int| 0 <= i < arms.len() && arms[i].pat == Pat::True) && (exists|j: int|
        0 <= j < arms.len() && arms[j].pat == Pat::False)) || (exists|k: int|
        0 <= k < arms.len() && arms[k].pat == Pat::Wild)
}

/// Every `match` in the statement list is exhaustive, recursively.
pub open spec fn spec_exh_stmts(ss: Seq<AStmt>) -> bool
    decreases ss,
{
    if ss.len() == 0 {
        true
    } else {
        spec_exh_stmts(ss.drop_last()) && spec_exh_stmt(ss.last())
    }
}

pub open spec fn spec_exh_stmt(s: AStmt) -> bool
    decreases s,
{
    match s {
        AStmt::Assign(_, _) => true,
        AStmt::Send(_, _) => true,
        AStmt::Match(_, arms) => spec_arms_cover(arms@) && spec_exh_arms(arms@),
    }
}

pub open spec fn spec_exh_arms(arms: Seq<Arm>) -> bool
    decreases arms,
{
    if arms.len() == 0 {
        true
    } else {
        spec_exh_arms(arms.drop_last()) && spec_exh_stmts(arms.last().body@)
    }
}

/// Counts capped at two: zero, one, or "more than one" is all the
/// emission check needs.
pub open spec fn cap2(x: int) -> int {
    if x > 2 {
        2
    } else {
        x
    }
}

/// Least number of `send`s over the paths through a statement list,
/// capped at two.
pub open spec fn spec_send_lo(ss: Seq<AStmt>) -> int
    decreases ss,
{
    if ss.len() == 0 {
        0
    } else {
        cap2(spec_send_lo(ss.drop_last()) + spec_stmt_lo(ss.last()))
    }
}

pub open spec fn spec_stmt_lo(s: AStmt) -> int
    decreases s,
{
    match s {
        AStmt::Assign(_, _) => 0,
        AStmt::Send(_, _) => 1,
        AStmt::Match(_, arms) => spec_arms_lo(arms@),
    }
}

pub open spec fn spec_arms_lo(arms: Seq<Arm>) -> int
    decreases arms,
{
    if arms.len() == 0 {
        0
    } else {
        let m = spec_send_lo(arms.last().body@);
        if arms.len() == 1 {
            m
        } else {
            let r = spec_arms_lo(arms.drop_last());
            if m < r {
                m
            } else {
                r
            }
        }
    }
}

/// Greatest number of `send`s over the paths through a statement list,
/// capped at two.
pub open spec fn spec_send_hi(ss: Seq<AStmt>) -> int
    decreases ss,
{
    if ss.len() == 0 {
        0
    } else {
        cap2(spec_send_hi(ss.drop_last()) + spec_stmt_hi(ss.last()))
    }
}

pub open spec fn spec_stmt_hi(s: AStmt) -> int
    decreases s,
{
    match s {
        AStmt::Assign(_, _) => 0,
        AStmt::Send(_, _) => 1,
        AStmt::Match(_, arms) => spec_arms_hi(arms@),
    }
}

pub open spec fn spec_arms_hi(arms: Seq<Arm>) -> int
    decreases arms,
{
    if arms.len() == 0 {
        0
    } else {
        let m = spec_send_hi(arms.last().body@);
        if arms.len() == 1 {
            m
        } else {
            let r = spec_arms_hi(arms.drop_last());
            if m > r {
                m
            } else {
                r
            }
        }
    }
}

/// Every path through the list emits exactly one message.
pub open spec fn spec_emits_once(ss: Seq<AStmt>) -> bool {
    spec_send_lo(ss) == 1 && spec_send_hi(ss) == 1
}

/// `init` is a flat, branch-free list of assignments.
pub open spec fn spec_init_flat(ss: Seq<AStmt>) -> bool {
    forall|i: int| 0 <= i < ss.len() ==> ss[i] is Assign
}

/// How many top-level statements assign to the given name.
pub open spec fn spec_assign_count(ss: Seq<AStmt>, name: Seq<u8>) -> int
    decreases ss,
{
    if ss.len() == 0 {
        0
    } else {
        spec_assign_count(ss.drop_last(), name) + (match ss.last() {
            AStmt::Assign(n, _) => if n@ == name {
                1int
            } else {
                0int
            },
            _ => 0int,
        })
    }
}

pub open spec fn spec_fields_unique(fs: Seq<AField>) -> bool {
    forall|i: int, j: int| 0 <= i < j < fs.len() ==> fs[i].name@ != fs[j].name@
}

pub open spec fn spec_handlers_unique(hs: Seq<AHandler>) -> bool {
    forall|i: int, j: int| 0 <= i < j < hs.len() ==> hs[i].name != hs[j].name
}

/// The first handler bound to the given hook, if any.
pub open spec fn spec_find_handler(hs: Seq<AHandler>, n: HName) -> Option<AHandler>
    decreases hs,
{
    if hs.len() == 0 {
        Option::None
    } else {
        match spec_find_handler(hs.drop_last(), n) {
            Option::Some(h) => Option::Some(h),
            Option::None => if hs.last().name == n {
                Option::Some(hs.last())
            } else {
                Option::None
            },
        }
    }
}

/// The `init` body, or the empty body when the hook is absent.
pub open spec fn spec_init_body(e: Element) -> Seq<AStmt> {
    match spec_find_handler(e.handlers@, HName::Init) {
        Option::Some(h) => h.body@,
        Option::None => Seq::empty(),
    }
}

/// `init` holds plain assignments only.
pub open spec fn spec_init_flat_ok(e: Element) -> bool {
    spec_init_flat(spec_init_body(e))
}

/// Some declared field is never assigned during `init`.
pub open spec fn spec_init_missing(e: Element) -> bool {
    exists|i: int|
        0 <= i < e.fields@.len() && spec_assign_count(spec_init_body(e), e.fields@[i].name@) == 0
}

/// Some declared field is assigned more than once during `init`.
pub open spec fn spec_init_duplicate(e: Element) -> bool {
    exists|i: int|
        0 <= i < e.fields@.len() && spec_assign_count(spec_init_body(e), e.fields@[i].name@) >= 2
}

/// The `init` body gives every declared field a value exactly once, by
/// plain assignment, with no branching and no emission.
pub open spec fn spec_init_ok(e: Element) -> bool {
    let b = spec_init_body(e);
    spec_init_flat(b) && forall|i: int|
        0 <= i < e.fields@.len() ==> spec_assign_count(b, e.fields@[i].name@) == 1
}

/// A present handler's names all resolve.
pub open spec fn spec_handler_refs(e: Element, n: HName) -> bool {
    match spec_find_handler(e.handlers@, n) {
        Option::Some(h) => spec_refs_stmts(h.body@, e.fields@, h.param@),
        Option::None => true,
    }
}

/// A present handler is well-kinded.
pub open spec fn spec_handler_kinds(e: Element, n: HName) -> bool {
    match spec_find_handler(e.handlers@, n) {
        Option::Some(h) => spec_kinds_stmts(h.body@, e.fields@, h.param@),
        Option::None => true,
    }
}

/// Every match in a present handler is exhaustive.
pub open spec fn spec_handler_exh(e: Element, n: HName) -> bool {
    match spec_find_handler(e.handlers@, n) {
        Option::Some(h) => spec_exh_stmts(h.body@),
        Option::None => true,
    }
}

/// A present handler passes resolution, kinds, and exhaustiveness.
pub open spec fn spec_handler_checks(e: Element, n: HName) -> bool {
    spec_handler_refs(e, n) && spec_handler_kinds(e, n) && spec_handler_exh(e, n)
}

/// A present request/response handler emits exactly once on every path.
pub open spec fn spec_emission_ok(e: Element, n: HName) -> bool {
    match spec_find_handler(e.handlers@, n) {
        Option::Some(h) => spec_emits_once(h.body@),
        Option::None => true,
    }
}

/// Looks a name up in the state schema.
pub fn find_field(fields: &Vec<AField>, name: &Vec<u8>) -> (r: Option<usize>)
    ensures
        match r {
            Option::Some(i) => i < fields.len() && spec_field_index(fields@, name@)
                == Option::Some(i as int),
            Option::None => spec_field_index(fields@, name@) is None,
        },
{
    proof {
        lemma_field_index_char(fields@, name@);
    }
    let mut i: usize = 0;
    while i < fields.len()
        invariant
            i <= fields.len(),
            forall|j: int| 0 <= j < i ==> fields@[j].name@ != name@,
        decreases fields.len() - i,
    {
        if bytes_eq(&fields[i].name, name) {
            proof {
                lemma_field_index_char(fields@, name@);
            }
            return Option::Some(i);
        }
        i = i + 1;
    }
    Option::None
}

/// Folds literal arithmetic, refusing machine overflow.
pub fn const_val(e: &AExpr) -> (r: Option<i64>)
    ensures
        r == spec_const_val(*e),
    decreases *e,
{
    match e {
        AExpr::Num(n) => Option::Some(*n),
        AExpr::Add(a, b) => {
            let ra = const_val(&**a);
            let rb = const_val(&**b);
            match (ra, rb) {
                (Option::Some(x), Option::Some(y)) => {
                    if (y > 0 && x > i64::MAX - y) || (y < 0 && x < i64::MIN - y) {
                        Option::None
                    } else {
                        Option::Some(x + y)
                    }
                },
                _ => Option::None,
            }
        },
        AExpr::Sub(a, b) => {
            let ra = const_val(&**a);
            let rb = const_val(&**b);
            match (ra, rb) {
                (Option::Some(x), Option::Some(y)) => {
                    if (y >= 0 && x < i64::MIN + y) || (y < 0 && x > i64::MAX + y) {
                        Option::None
                    } else {
                        Option::Some(x - y)
                    }
                },
                _ => Option::None,
            }
        },
        _ => Option::None,
    }
}

/// Resolves and kinds one expression: whether every name resolves, and
/// the expression's kind if it is well-kinded.
pub fn wf_expr(e: &AExpr, fields: &Vec<AField>, param: &Vec<u8>) -> (r: (bool, Option<Kind>))
    ensures
        r.0 == spec_refs_expr(*e, fields@, param@),
        r.1 == spec_kind(*e, fields@, param@),
    decreases *e,
{
    match e {
        AExpr::Num(_) => (true, Option::Some(Kind::KNum)),
        AExpr::Var(n) => {
            match find_field(fields, n) {
                Option::Some(i) => {
                    let k = match fields[i].ty {
                        Ty::Num => Kind::KNum,
                        Ty::Bool => Kind::KBool,
                    };
                    (true, Option::Some(k))
                },
                Option::None => {
                    if bytes_eq(n, param) {
                        (true, Option::Some(Kind::KMsg))
                    } else {
                        (false, Option::None)
                    }
                },
            }
        },
        AExpr::Rand(a, b) => {
            let ra = wf_expr(&**a, fields, param);
            let rb = wf_expr(&**b, fields, param);
            let ca = const_val(&**a);
            let cb = const_val(&**b);
            let bounds_ok = match (ca, cb) {
                (Option::Some(x), Option::Some(y)) => x <= y,
                _ => true,
            };
            let num_ok = matches!(ra.1, Option::Some(Kind::KNum)) && matches!(
                rb.1,
                Option::Some(Kind::KNum),
            );
            let k = if num_ok && bounds_ok {
                Option::Some(Kind::KNum)
            } else {
                Option::None
            };
            (ra.0 && rb.0, k)
        },
        AExpr::ErrLit(_) => (true, Option::Some(Kind::KMsg)),
        AExpr::Lt(a, b) => {
            let ra = wf_expr(&**a, fields, param);
            let rb = wf_expr(&**b, fields, param);
            let num_ok = matches!(ra.1, Option::Some(Kind::KNum)) && matches!(
                rb.1,
                Option::Some(Kind::KNum),
            );
            let k = if num_ok {
                Option::Some(Kind::KBool)
            } else {
                Option::None
            };
            (ra.0 && rb.0, k)
        },
        AExpr::Gt(a, b) => {
            let ra = wf_expr(&**a, fields, param);
            let rb = wf_expr(&**b, fields, param);
            let num_ok = matches!(ra.1, Option::Some(Kind::KNum)) && matches!(
                rb.1,
                Option::Some(Kind::KNum),
            );
            let k = if num_ok {
                Option::Some(Kind::KBool)
            } else {
                Option::None
            };
            (ra.0 && rb.0, k)
        },
        AExpr::Add(a, b) => {
            let ra = wf_expr(&**a, fields, param);
            let rb = wf_expr(&**b, fields, param);
            let c = const_val(e);
            let k = if c.is_some() {
                Option::Some(Kind::KNum)
            } else {
                Option::None
            };
            (ra.0 && rb.0, k)
        },
        AExpr::Sub(a, b) => {
            let ra = wf_expr(&**a, fields, param);
            let rb = wf_expr(&**b, fields, param);
            let c = const_val(e);
            let k = if c.is_some() {
                Option::Some(Kind::KNum)
            } else {
                Option::None
            };
            (ra.0 && rb.0, k)
        },
    }
}

/// Resolves and kinds a statement list.
pub fn wf_stmts(ss: &Vec<AStmt>, fields: &Vec<AField>, param: &Vec<u8>) -> (r: (bool, bool))
    ensures
        r.0 == spec_refs_stmts(ss@, fields@, param@),
        r.1 == spec_kinds_stmts(ss@, fields@, param@),
    decreases ss@,
{
    let mut refs = true;
    let mut kinds = true;
    let mut i: usize = 0;
    while i < ss.len()
        invariant
            i <= ss.len(),
            refs == spec_refs_stmts(ss@.take(i as int), fields@, param@),
            kinds == spec_kinds_stmts(ss@.take(i as int), fields@, param@),
        decreases ss.len() - i,
    {
        proof {
            assert(decreases_to!(ss@ => ss@[i as int]));
        }
        let rs = wf_stmt(&ss[i], fields, param);
        proof {
            assert(ss@.take(i as int + 1).drop_last() =~= ss@.take(i as int));
            assert(ss@.take(i as int + 1).last() == ss@[i as int]);
        }
        refs = refs && rs.0;
        kinds = kinds && rs.1;
        i = i + 1;
    }
    proof {
        assert(ss@.take(ss@.len() as int) =~= ss@);
    }
    (refs, kinds)
}

/// Resolves and kinds one statement.
pub fn wf_stmt(s: &AStmt, fields: &Vec<AField>, param: &Vec<u8>) -> (r: (bool, bool))
    ensures
        r.0 == spec_refs_stmt(*s, fields@, param@),
        r.1 == spec_kinds_stmt(*s, fields@, param@),
    decreases *s,
{
    match s {
        AStmt::Assign(n, e) => {
            let fi = find_field(fields, n);
            let we = wf_expr(e, fields, param);
            match fi {
                Option::Some(i) => {
                    let tk = match fields[i].ty {
                        Ty::Num => Kind::KNum,
                        Ty::Bool => Kind::KBool,
                    };
                    let kok = match we.1 {
                        Option::Some(k) => k == tk,
                        Option::None => false,
                    };
                    (we.0, kok)
                },
                Option::None => {
                    let we0 = we.0;
                    (false && we0, false)
                },
            }
        },
        AStmt::Send(m, _) => {
            let wm = wf_expr(m, fields, param);
            (wm.0, matches!(wm.1, Option::Some(Kind::KMsg)))
        },
        AStmt::Match(sc, arms) => {
            let wsc = wf_expr(sc, fields, param);
            let scb = matches!(wsc.1, Option::Some(Kind::KBool));
            let mut refs = true;
            let mut kinds = true;
            let mut j: usize = 0;
            while j < arms.len()
                invariant
                    j <= arms.len(),
                    *s == AStmt::Match(*sc, *arms),
                    refs == spec_refs_arms(arms@.take(j as int), fields@, param@),
                    kinds == spec_kinds_arms(arms@.take(j as int), fields@, param@),
                decreases arms.len() - j,
            {
                proof {
                    assert(decreases_to!(*s => s->Match_1));
                    assert(s->Match_1 == *arms);
                    assert(decreases_to!(*arms => arms@));
                    assert(decreases_to!(arms@ => arms@[j as int]));
                    assert(decreases_to!(arms@[j as int] => arms@[j as int].body));
                    assert(decreases_to!(arms@[j as int].body => arms@[j as int].body@));
                    assert(decreases_to!(*s => arms@[j as int].body@));
                }
                let rb = wf_stmts(&arms[j].body, fields, param);
                proof {
                    assert(arms@.take(j as int + 1).drop_last() =~= arms@.take(j as int));
                    assert(arms@.take(j as int + 1).last() == arms@[j as int]);
                }
                refs = refs && rb.0;
                kinds = kinds && rb.1;
                j = j + 1;
            }
            proof {
                assert(arms@.take(arms@.len() as int) =~= arms@);
            }
            (wsc.0 && refs, scb && kinds)
        },
    }
}

/// Do one match's arms cover the boolean domain?
pub fn arms_cover(arms: &Vec<Arm>) -> (r: bool)
    ensures
        r == spec_arms_cover(arms@),
{
    let mut ht = false;
    let mut hf = false;
    let mut hw = false;
    let mut j: usize = 0;
    while j < arms.len()
        invariant
            j <= arms.len(),
            ht == exists|i: int| 0 <= i < j && arms@[i].pat == Pat::True,
            hf == exists|i: int| 0 <= i < j && arms@[i].pat == Pat::False,
            hw == exists|i: int| 0 <= i < j && arms@[i].pat == Pat::Wild,
        decreases arms.len() - j,
    {
        match arms[j].pat {
            Pat::True => {
                ht = true;
            },
            Pat::False => {
                hf = true;
            },
            Pat::Wild => {
                hw = true;
            },
        }
        j = j + 1;
    }
    (ht && hf) || hw
}

/// Checks every match in a statement list for exhaustiveness.
pub fn exh_stmts(ss: &Vec<AStmt>) -> (r: bool)
    ensures
        r == spec_exh_stmts(ss@),
    decreases ss@,
{
    let mut ok = true;
    let mut i: usize = 0;
    while i < ss.len()
        invariant
            i <= ss.len(),
            ok == spec_exh_stmts(ss@.take(i as int)),
        decreases ss.len() - i,
    {
        proof {
            assert(decreases_to!(ss@ => ss@[i as int]));
        }
        let rs = exh_stmt(&ss[i]);
        proof {
            assert(ss@.take(i as int + 1).drop_last() =~= ss@.take(i as int));
            assert(ss@.take(i as int + 1).last() == ss@[i as int]);
        }
        ok = ok && rs;
        i = i + 1;
    }
    proof {
        assert(ss@.take(ss@.len() as int) =~= ss@);
    }
    ok
}

/// Checks one statement for exhaustiveness.
pub fn exh_stmt(s: &AStmt) -> (r: bool)
    ensures
        r == spec_exh_stmt(*s),
    decreases *s,
{
    match s {
        AStmt::Assign(_, _) => true,
        AStmt::Send(_, _) => true,
        AStmt::Match(sc, arms) => {
            let cov = arms_cover(arms);
            let mut ok = true;
            let mut j: usize = 0;
            while j < arms.len()
                invariant
                    j <= arms.len(),
                    *s == AStmt::Match(*sc, *arms),
                    ok == spec_exh_arms(arms@.take(j as int)),
                decreases arms.len() - j,
            {
                proof {
                    assert(decreases_to!(*s => s->Match_1));
                    assert(s->Match_1 == *arms);
                    assert(decreases_to!(*arms => arms@));
                    assert(decreases_to!(arms@ => arms@[j as int]));
                    assert(decreases_to!(arms@[j as int] => arms@[j as int].body));
                    assert(decreases_to!(arms@[j as int].body => arms@[j as int].body@));
                    assert(decreases_to!(*s => arms@[j as int].body@));
                }
                let rb = exh_stmts(&arms[j].body);
                proof {
                    assert(arms@.take(j as int + 1).drop_last() =~= arms@.take(j as int));
                    assert(arms@.take(j as int + 1).last() == arms@[j as int]);
                }
                ok = ok && rb;
                j = j + 1;
            }
            proof {
                assert(arms@.take(arms@.len() as int) =~= arms@);
            }
            cov && ok
        },
    }
}

/// Least and greatest number of emissions over the paths through a
/// statement list, both capped at two.
pub fn emit_stmts(ss: &Vec<AStmt>) -> (r: (u8, u8))
    ensures
        r.0 as int == spec_send_lo(ss@),
        r.1 as int == spec_send_hi(ss@),
        r.0 <= 2 && r.1 <= 2,
    decreases ss@,
{
    let mut lo: u8 = 0;
    let mut hi: u8 = 0;
    let mut i: usize = 0;
    while i < ss.len()
        invariant
            i <= ss.len(),
            lo as int == spec_send_lo(ss@.take(i as int)),
            hi as int == spec_send_hi(ss@.take(i as int)),
            lo <= 2 && hi <= 2,
        decreases ss.len() - i,
    {
        proof {
            assert(decreases_to!(ss@ => ss@[i as int]));
        }
        let rs = emit_stmt(&ss[i]);
        proof {
            assert(ss@.take(i as int + 1).drop_last() =~= ss@.take(i as int));
            assert(ss@.take(i as int + 1).last() == ss@[i as int]);
        }
        let tl = lo + rs.0;
        lo = if tl > 2 {
            2
        } else {
            tl
        };
        let th = hi + rs.1;
        hi = if th > 2 {
            2
        } else {
            th
        };
        i = i + 1;
    }
    proof {
        assert(ss@.take(ss@.len() as int) =~= ss@);
    }
    (lo, hi)
}

/// Emission bounds of a single statement.
pub fn emit_stmt(s: &AStmt) -> (r: (u8, u8))
    ensures
        r.0 as int == spec_stmt_lo(*s),
        r.1 as int == spec_stmt_hi(*s),
        r.0 <= 2 && r.1 <= 2,
    decreases *s,
{
    match s {
        AStmt::Assign(_, _) => (0, 0),
        AStmt::Send(_, _) => (1, 1),
        AStmt::Match(sc, arms) => {
            if arms.len() == 0 {
                proof {
                    assert(arms@ =~= Seq::<Arm>::empty());
                }
                return (0, 0);
            }
            proof {
                assert(decreases_to!(*s => s->Match_1));
                assert(s->Match_1 == *arms);
                assert(decreases_to!(*arms => arms@));
                assert(decreases_to!(arms@ => arms@[0int]));
                assert(decreases_to!(arms@[0int] => arms@[0int].body));
                assert(decreases_to!(arms@[0int].body => arms@[0int].body@));
                assert(decreases_to!(*s => arms@[0int].body@));
            }
            let r0 = emit_stmts(&arms[0].body);
            let mut lo: u8 = r0.0;
            let mut hi: u8 = r0.1;
            let mut j: usize = 1;
            proof {
                assert(arms@.take(1int).len() == 1);
                assert(arms@.take(1int).last() == arms@[0int]);
            }
            while j < arms.len()
                invariant
                    1 <= j <= arms.len(),
                    *s == AStmt::Match(*sc, *arms),
                    lo as int == spec_arms_lo(arms@.take(j as int)),
                    hi as int == spec_arms_hi(arms@.take(j as int)),
                    lo <= 2 && hi <= 2,
                decreases arms.len() - j,
            {
                proof {
                    assert(decreases_to!(*s => s->Match_1));
                    assert(s->Match_1 == *arms);
                    assert(decreases_to!(*arms => arms@));
                    assert(decreases_to!(arms@ => arms@[j as int]));
                    assert(decreases_to!(arms@[j as int] => arms@[j as int].body));
                    assert(decreases_to!(arms@[j as int].body => arms@[j as int].body@));
                    assert(decreases_to!(*s => arms@[j as int].body@));
                }
                let rb = emit_stmts(&arms[j].body);
                proof {
                    assert(arms@.take(j as int + 1).drop_last() =~= arms@.take(j as int));
                    assert(arms@.take(j as int + 1).last() == arms@[j as int]);
                    assert(arms@.take(j as int + 1).len() == j + 1);
                }
                lo = if rb.0 < lo {
                    rb.0
                } else {
                    lo
                };
                hi = if rb.1 > hi {
                    rb.1
                } else {
                    hi
                };
                j = j + 1;
            }
            proof {
                assert(arms@.take(arms@.len() as int) =~= arms@);
            }
            (lo, hi)
        },
    }
}

/// Is the `init` body a flat list of assignments?
pub fn init_flat(ss: &Vec<AStmt>) -> (r: bool)
    ensures
        r == spec_init_flat(ss@),
{
    let mut i: usize = 0;
    while i < ss.len()
        invariant
            i <= ss.len(),
            forall|j: int| 0 <= j < i ==> ss@[j] is Assign,
        decreases ss.len() - i,
    {
        if !matches!(&ss[i], AStmt::Assign(_, _)) {
            return false;
        }
        i = i + 1;
    }
    true
}

/// Top-level assignment counts never go negative.
pub proof fn lemma_assign_count_nonneg(ss: Seq<AStmt>, name: Seq<u8>)
    ensures
        spec_assign_count(ss, name) >= 0,
    decreases ss,
{
    if ss.len() > 0 {
        lemma_assign_count_nonneg(ss.drop_last(), name);
    }
}

/// Counts top-level assignments to a name, capped at two.
pub fn count_assigns(ss: &Vec<AStmt>, name: &Vec<u8>) -> (r: u8)
    ensures
        r as int == cap2(spec_assign_count(ss@, name@)),
{
    let mut c: u8 = 0;
    let mut i: usize = 0;
    while i < ss.len()
        invariant
            i <= ss.len(),
            c as int == cap2(spec_assign_count(ss@.take(i as int), name@)),
            c <= 2,
        decreases ss.len() - i,
    {
        proof {
            lemma_assign_count_nonneg(ss@.take(i as int), name@);
            assert(ss@.take(i as int + 1).drop_last() =~= ss@.take(i as int));
            assert(ss@.take(i as int + 1).last() == ss@[i as int]);
        }
        let d: u8 = match &ss[i] {
            AStmt::Assign(n, _) => {
                if bytes_eq(n, name) {
                    1
                } else {
                    0
                }
            },
            _ => 0,
        };
        let t = c + d;
        c = if t > 2 {
            2
        } else {
            t
        };
        i = i + 1;
    }
    proof {
        assert(ss@.take(ss@.len() as int) =~= ss@);
    }
    c
}

/// The whole element validates.
pub open spec fn spec_validates(e: Element) -> bool {
    spec_fields_unique(e.fields@) && spec_handlers_unique(e.handlers@) && spec_handler_checks(
        e,
        HName::Init,
    ) && spec_handler_checks(e, HName::Req) && spec_handler_checks(e, HName::Resp) && spec_init_ok(
        e,
    ) && spec_emission_ok(e, HName::Req) && spec_emission_ok(e, HName::Resp)
}

/// A hook absent from every handler is not found.
pub proof fn lemma_find_none(hs: Seq<AHandler>, n: HName)
    requires
        forall|i: int| 0 <= i < hs.len() ==> hs[i].name != n,
    ensures
        spec_find_handler(hs, n) is None,
    decreases hs,
{
    if hs.len() > 0 {
        assert(forall|i: int| 0 <= i < hs.len() - 1 ==> hs.drop_last()[i] == hs[i]);
        lemma_find_none(hs.drop_last(), n);
    }
}

/// The first handler bound to a hook is the one found.
pub proof fn lemma_find_first(hs: Seq<AHandler>, n: HName, k: int)
    requires
        0 <= k < hs.len(),
        hs[k].name == n,
        forall|j: int| 0 <= j < k ==> hs[j].name != n,
    ensures
        spec_find_handler(hs, n) == Option::Some(hs[k]),
    decreases hs,
{
    assert(forall|i: int| 0 <= i < hs.len() - 1 ==> hs.drop_last()[i] == hs[i]);
    if k == hs.len() - 1 {
        lemma_find_none(hs.drop_last(), n);
    } else {
        lemma_find_first(hs.drop_last(), n, k);
    }
}

/// Scans the handler list once: first index of each hook, and whether two
/// handlers share a hook.
pub fn scan_handlers(hs: &Vec<AHandler>) -> (r: (Option<usize>, Option<usize>, Option<usize>, bool))
    ensures
        match r.0 {
            Option::Some(i) => i < hs.len() && spec_find_handler(hs@, HName::Init) == Option::Some(
                hs@[i as int],
            ),
            Option::None => spec_find_handler(hs@, HName::Init) is None,
        },
        match r.1 {
            Option::Some(i) => i < hs.len() && spec_find_handler(hs@, HName::Req) == Option::Some(
                hs@[i as int],
            ),
            Option::None => spec_find_handler(hs@, HName::Req) is None,
        },
        match r.2 {
            Option::Some(i) => i < hs.len() && spec_find_handler(hs@, HName::Resp) == Option::Some(
                hs@[i as int],
            ),
            Option::None => spec_find_handler(hs@, HName::Resp) is None,
        },
        r.3 == !spec_handlers_unique(hs@),
{
    let mut io: Option<usize> = Option::None;
    let mut ro: Option<usize> = Option::None;
    let mut po: Option<usize> = Option::None;
    let mut dup = false;
    let mut i: usize = 0;
    while i < hs.len()
        invariant
            i <= hs.len(),
            match io {
                Option::Some(k) => k < i && hs@[k as int].name == HName::Init && (forall|j: int|
                    0 <= j < k ==> hs@[j].name != HName::Init),
                Option::None => forall|j: int| 0 <= j < i ==> hs@[j].name != HName::Init,
            },
            match ro {
                Option::Some(k) => k < i && hs@[k as int].name == HName::Req && (forall|j: int|
                    0 <= j < k ==> hs@[j].name != HName::Req),
                Option::None => forall|j: int| 0 <= j < i ==> hs@[j].name != HName::Req,
            },
            match po {
                Option::Some(k) => k < i && hs@[k as int].name == HName::Resp && (forall|j: int|
                    0 <= j < k ==> hs@[j].name != HName::Resp),
                Option::None => forall|j: int| 0 <= j < i ==> hs@[j].name != HName::Resp,
            },
            dup == exists|a: int, b: int| 0 <= a < b < i && hs@[a].name == hs@[b].name,
        decreases hs.len() - i,
    {
        match hs[i].name {
            HName::Init => {
                if io.is_some() {
                    dup = true;
                } else {
                    io = Option::Some(i);
                }
            },
            HName::Req => {
                if ro.is_some() {
                    dup = true;
                } else {
                    ro = Option::Some(i);
                }
            },
            HName::Resp => {
                if po.is_some() {
                    dup = true;
                } else {
                    po = Option::Some(i);
                }
            },
        }
        i = i + 1;
    }
    proof {
        match io {
            Option::Some(k) => lemma_find_first(hs@, HName::Init, k as int),
            Option::None => lemma_find_none(hs@, HName::Init),
        }
        match ro {
            Option::Some(k) => lemma_find_first(hs@, HName::Req, k as int),
            Option::None => lemma_find_none(hs@, HName::Req),
        }
        match po {
            Option::Some(k) => lemma_find_first(hs@, HName::Resp, k as int),
            Option::None => lemma_find_none(hs@, HName::Resp),
        }
    }
    (io, ro, po, dup)
}

/// Checks that no two state fields share a name.
pub fn fields_unique(fs: &Vec<AField>) -> (r: bool)
    ensures
        r == spec_fields_unique(fs@),
{
    let mut i: usize = 0;
    while i < fs.len()
        invariant
            i <= fs.len(),
            forall|a: int, b: int| 0 <= a < b < i ==> fs@[a].name@ != fs@[b].name@,
        decreases fs.len() - i,
    {
        let mut j: usize = 0;
        while j < i
            invariant
                j <= i < fs.len(),
                forall|a: int, b: int| 0 <= a < b < i ==> fs@[a].name@ != fs@[b].name@,
                forall|a: int| 0 <= a < j ==> fs@[a].name@ != fs@[i as int].name@,
            decreases i - j,
        {
            if bytes_eq(&fs[j].name, &fs[i].name) {
                return false;
            }
            j = j + 1;
        }
        i = i + 1;
    }
    true
}

/// Does the list hold a non-exhaustive-match error?
pub open spec fn has_err_nonexh(s: Seq<SemanticError>) -> bool {
    exists|i: int| 0 <= i < s.len() && s[i] is NonExhaustiveMatch
}

/// Does the list hold an emission-path error?
pub open spec fn has_err_emission(s: Seq<SemanticError>) -> bool {
    exists|i: int| 0 <= i < s.len() && s[i] is EmissionPath
}

pub open spec fn has_err_dup_field(s: Seq<SemanticError>) -> bool {
    exists|i: int| 0 <= i < s.len() && s[i] is DuplicateField
}

pub open spec fn has_err_dup_handler(s: Seq<SemanticError>) -> bool {
    exists|i: int| 0 <= i < s.len() && s[i] is DuplicateHandler
}

pub open spec fn has_err_undeclared(s: Seq<SemanticError>) -> bool {
    exists|i: int| 0 <= i < s.len() && s[i] is UndeclaredName
}

pub open spec fn has_err_kind(s: Seq<SemanticError>) -> bool {
    exists|i: int| 0 <= i < s.len() && s[i] is KindMismatch
}

pub open spec fn has_err_init_shape(s: Seq<SemanticError>) -> bool {
    exists|i: int| 0 <= i < s.len() && s[i] is InitShape
}

pub open spec fn has_err_init_missing(s: Seq<SemanticError>) -> bool {
    exists|i: int| 0 <= i < s.len() && s[i] is InitAssignMissing
}

pub open spec fn has_err_init_dup(s: Seq<SemanticError>) -> bool {
    exists|i: int| 0 <= i < s.len() && s[i] is InitAssignDuplicate
}

/// How one more error changes what the list holds.
pub proof fn lemma_err_push(s: Seq<SemanticError>, v: SemanticError)
    ensures
        has_err_nonexh(s.push(v)) == (has_err_nonexh(s) || v is NonExhaustiveMatch),
        has_err_emission(s.push(v)) == (has_err_emission(s) || v is EmissionPath),
        has_err_dup_field(s.push(v)) == (has_err_dup_field(s) || v is DuplicateField),
        has_err_dup_handler(s.push(v)) == (has_err_dup_handler(s) || v is DuplicateHandler),
        has_err_undeclared(s.push(v)) == (has_err_undeclared(s) || v is UndeclaredName),
        has_err_kind(s.push(v)) == (has_err_kind(s) || v is KindMismatch),
        has_err_init_shape(s.push(v)) == (has_err_init_shape(s) || v is InitShape),
        has_err_init_missing(s.push(v)) == (has_err_init_missing(s) || v is InitAssignMissing),
        has_err_init_dup(s.push(v)) == (has_err_init_dup(s) || v is InitAssignDuplicate),
{
    assert(forall|i: int| 0 <= i < s.len() ==> s.push(v)[i] == s[i]);
    assert(s.push(v)[s.len() as int] == v);
    if has_err_nonexh(s) {
        let i = choose|i: int| 0 <= i < s.len() && s[i] is NonExhaustiveMatch;
        assert(s.push(v)[i] is NonExhaustiveMatch);
    }
    if has_err_nonexh(s.push(v)) {
        let i = choose|i: int| 0 <= i < s.push(v).len() && s.push(v)[i] is NonExhaustiveMatch;
        if i < s.len() {
            assert(s[i] is NonExhaustiveMatch);
        }
    }
    if has_err_emission(s) {
        let i = choose|i: int| 0 <= i < s.len() && s[i] is EmissionPath;
        assert(s.push(v)[i] is EmissionPath);
    }
    if has_err_emission(s.push(v)) {
        let i = choose|i: int| 0 <= i < s.push(v).len() && s.push(v)[i] is EmissionPath;
        if i < s.len() {
            assert(s[i] is EmissionPath);
        }
    }
}

/// The checks a present handler gets; a missing handler passes them all.
fn check_handler(
    e: &Element,
    ix: Option<usize>,
    Ghost(n): Ghost<HName>,
) -> (r: (bool, bool, bool, (u8, u8)))
    requires
        match ix {
            Option::Some(i) => i < e.handlers@.len() && spec_find_handler(e.handlers@, n)
                == Option::Some(e.handlers@[i as int]),
            Option::None => spec_find_handler(e.handlers@, n) is None,
        },
    ensures
        r.0 == spec_handler_refs(*e, n),
        r.1 == spec_handler_kinds(*e, n),
        r.2 == spec_handler_exh(*e, n),
        match spec_find_handler(e.handlers@, n) {
            Option::Some(h) => r.3.0 as int == spec_send_lo(h.body@) && r.3.1 as int
                == spec_send_hi(h.body@),
            Option::None => r.3 == (1u8, 1u8),
        },
{
    match ix {
        Option::Some(i) => {
            let h = &e.handlers[i];
            let w = wf_stmts(&h.body, &e.fields, &h.param);
            let x = exh_stmts(&h.body);
            let em = emit_stmts(&h.body);
            (w.0, w.1, x, em)
        },
        Option::None => (true, true, true, (1u8, 1u8)),
    }
}

/// Turns the outcome of every check into the error batch.
#[verifier::rlimit(60)]
fn assemble_errors(
    fu: bool,
    dup: bool,
    ci: (bool, bool, bool),
    cr: (bool, bool, bool),
    cp: (bool, bool, bool),
    em_req_ok: bool,
    em_resp_ok: bool,
    fl: bool,
    missing: bool,
    dupa: bool,
) -> (r: Vec<SemanticError>)
    ensures
        (r@.len() == 0) == (fu && !dup && ci.0 && ci.1 && ci.2 && cr.0 && cr.1 && cr.2 && cp.0
            && cp.1 && cp.2 && em_req_ok && em_resp_ok && fl && !missing && !dupa),
        has_err_nonexh(r@) == !(ci.2 && cr.2 && cp.2),
        has_err_emission(r@) == !(em_req_ok && em_resp_ok),
        has_err_dup_field(r@) == !fu,
        has_err_dup_handler(r@) == dup,
        has_err_undeclared(r@) == !(ci.0 && cr.0 && cp.0),
        has_err_kind(r@) == !(ci.1 && cr.1 && cp.1),
        has_err_init_shape(r@) == !fl,
        has_err_init_missing(r@) == missing,
        has_err_init_dup(r@) == dupa,
{
    let mut r: Vec<SemanticError> = Vec::new();
    if !fu {
        let ghost r0 = r@;
        r.push(SemanticError::DuplicateField);
        proof {
            lemma_err_push(r0, SemanticError::DuplicateField);
        }
    }
    if dup {
        let ghost r0 = r@;
        r.push(SemanticError::DuplicateHandler);
        proof {
            lemma_err_push(r0, SemanticError::DuplicateHandler);
        }
    }
    if !ci.0 {
        let ghost r0 = r@;
        r.push(SemanticError::UndeclaredName(HName::Init));
        proof {
            lemma_err_push(r0, SemanticError::UndeclaredName(HName::Init));
        }
    }
    if !ci.1 {
        let ghost r0 = r@;
        r.push(SemanticError::KindMismatch(HName::Init));
        proof {
            lemma_err_push(r0, SemanticError::KindMismatch(HName::Init));
        }
    }
    if !ci.2 {
        let ghost r0 = r@;
        r.push(SemanticError::NonExhaustiveMatch(HName::Init));
        proof {
            lemma_err_push(r0, SemanticError::NonExhaustiveMatch(HName::Init));
        }
    }
    if !cr.0 {
        let ghost r0 = r@;
        r.push(SemanticError::UndeclaredName(HName::Req));
        proof {
            lemma_err_push(r0, SemanticError::UndeclaredName(HName::Req));
        }
    }
    if !cr.1 {
        let ghost r0 = r@;
        r.push(SemanticError::KindMismatch(HName::Req));
        proof {
            lemma_err_push(r0, SemanticError::KindMismatch(HName::Req));
        }
    }
    if !cr.2 {
        let ghost r0 = r@;
        r.push(SemanticError::NonExhaustiveMatch(HName::Req));
        proof {
            lemma_err_push(r0, SemanticError::NonExhaustiveMatch(HName::Req));
        }
    }
    if !em_req_ok {
        let ghost r0 = r@;
        r.push(SemanticError::EmissionPath(HName::Req));
        proof {
            lemma_err_push(r0, SemanticError::EmissionPath(HName::Req));
        }
    }
    if !cp.0 {
        let ghost r0 = r@;
        r.push(SemanticError::UndeclaredName(HName::Resp));
        proof {
            lemma_err_push(r0, SemanticError::UndeclaredName(HName::Resp));
        }
    }
    if !cp.1 {
        let ghost r0 = r@;
        r.push(SemanticError::KindMismatch(HName::Resp));
        proof {
            lemma_err_push(r0, SemanticError::KindMismatch(HName::Resp));
        }
    }
    if !cp.2 {
        let ghost r0 = r@;
        r.push(SemanticError::NonExhaustiveMatch(HName::Resp));
        proof {
            lemma_err_push(r0, SemanticError::NonExhaustiveMatch(HName::Resp));
        }
    }
    if !em_resp_ok {
        let ghost r0 = r@;
        r.push(SemanticError::EmissionPath(HName::Resp));
        proof {
            lemma_err_push(r0, SemanticError::EmissionPath(HName::Resp));
        }
    }
    if !fl {
        let ghost r0 = r@;
        r.push(SemanticError::InitShape);
        proof {
            lemma_err_push(r0, SemanticError::InitShape);
        }
    }
    if missing {
        let ghost r0 = r@;
        r.push(SemanticError::InitAssignMissing);
        proof {
            lemma_err_push(r0, SemanticError::InitAssignMissing);
        }
    }
    if dupa {
        let ghost r0 = r@;
        r.push(SemanticError::InitAssignDuplicate);
        proof {
            lemma_err_push(r0, SemanticError::InitAssignDuplicate);
        }
    }
    r
}

/// Validates a whole element, collecting one error per failed check so a
/// single build reports the full batch.
#[verifier::rlimit(60)]
pub fn validate(e: &Element) -> (r: Vec<SemanticError>)
    ensures
        (r@.len() == 0) == spec_validates(*e),
        has_err_nonexh(r@) == !(spec_handler_exh(*e, HName::Init) && spec_handler_exh(
            *e,
            HName::Req,
        ) && spec_handler_exh(*e, HName::Resp)),
        has_err_emission(r@) == !(spec_emission_ok(*e, HName::Req) && spec_emission_ok(
            *e,
            HName::Resp,
        )),
        has_err_dup_field(r@) == !spec_fields_unique(e.fields@),
        has_err_dup_handler(r@) == !spec_handlers_unique(e.handlers@),
        has_err_undeclared(r@) == !(spec_handler_refs(*e, HName::Init) && spec_handler_refs(
            *e,
            HName::Req,
        ) && spec_handler_refs(*e, HName::Resp)),
        has_err_kind(r@) == !(spec_handler_kinds(*e, HName::Init) && spec_handler_kinds(
            *e,
            HName::Req,
        ) && spec_handler_kinds(*e, HName::Resp)),
        has_err_init_shape(r@) == !spec_init_flat_ok(*e),
        has_err_init_missing(r@) == spec_init_missing(*e),
        has_err_init_dup(r@) == spec_init_duplicate(*e),
{
    let fu = fields_unique(&e.fields);
    let sc = scan_handlers(&e.handlers);
    let ci = check_handler(e, sc.0, Ghost(HName::Init));
    let cr = check_handler(e, sc.1, Ghost(HName::Req));
    let cp = check_handler(e, sc.2, Ghost(HName::Resp));
    let em_req_ok = cr.3.0 == 1 && cr.3.1 == 1;
    let em_resp_ok = cp.3.0 == 1 && cp.3.1 == 1;
    proof {
        assert(em_req_ok == spec_emission_ok(*e, HName::Req));
        assert(em_resp_ok == spec_emission_ok(*e, HName::Resp));
    }
    // the init body gives every field a value exactly once, by plain
    // assignment
    let mut fl = true;
    let mut missing = false;
    let mut dupa = false;
    match sc.0 {
        Option::Some(ix) => {
            let h = &e.handlers[ix];
            fl = init_flat(&h.body);
            let mut k: usize = 0;
            while k < e.fields.len()
                invariant
                    k <= e.fields.len(),
                    spec_find_handler(e.handlers@, HName::Init) == Option::Some(*h),
                    missing == exists|i: int|
                        0 <= i < k && spec_assign_count(h.body@, e.fields@[i].name@) == 0,
                    dupa == exists|i: int|
                        0 <= i < k && spec_assign_count(h.body@, e.fields@[i].name@) >= 2,
                decreases e.fields.len() - k,
            {
                proof {
                    lemma_assign_count_nonneg(h.body@, e.fields@[k as int].name@);
                }
                let c = count_assigns(&h.body, &e.fields[k].name);
                if c == 0 {
                    missing = true;
                } else if c >= 2 {
                    dupa = true;
                }
                k = k + 1;
            }
            proof {
                assert forall|i: int| 0 <= i < e.fields@.len() implies spec_assign_count(
                    h.body@,
                    e.fields@[i].name@,
                ) >= 0 by {
                    lemma_assign_count_nonneg(h.body@, e.fields@[i].name@);
                }
                assert((fl && !missing && !dupa) == spec_init_ok(*e));
                assert(spec_init_body(*e) == h.body@);
                assert(fl == spec_init_flat_ok(*e));
                assert(missing == spec_init_missing(*e));
                assert(dupa == spec_init_duplicate(*e));
            }
        },
        Option::None => {
            if e.fields.len() > 0 {
                missing = true;
            }
            proof {
                assert(spec_init_body(*e) =~= Seq::<AStmt>::empty());
                assert forall|i: int| 0 <= i < e.fields@.len() implies spec_assign_count(
                    spec_init_body(*e),
                    e.fields@[i].name@,
                ) == 0 by {
                    assert(spec_assign_count(Seq::empty(), e.fields@[i].name@) == 0);
                }
                assert(fl == spec_init_flat_ok(*e));
                assert(!spec_init_duplicate(*e));
                if e.fields@.len() > 0 {
                    assert(spec_assign_count(spec_init_body(*e), e.fields@[0].name@) == 0);
                    assert(spec_init_missing(*e));
                    assert(!spec_init_ok(*e));
                } else {
                    assert(!spec_init_missing(*e));
                    assert(spec_init_ok(*e));
                }
            }
        },
    }
    let r = assemble_errors(
        fu,
        sc.3,
        (ci.0, ci.1, ci.2),
        (cr.0, cr.1, cr.2),
        (cp.0, cp.1, cp.2),
        em_req_ok,
        em_resp_ok,
        fl,
        missing,
        dupa,
    );
    r
}


/// Some match in the list means the whole list fails exhaustiveness when
/// that match does.
pub proof fn lemma_exh_index(ss: Seq<AStmt>, i: int)
    requires
        0 <= i < ss.len(),
        spec_exh_stmts(ss),
    ensures
        spec_exh_stmt(ss[i]),
    decreases ss,
{
    if i < ss.len() - 1 {
        lemma_exh_index(ss.drop_last(), i);
    }
}

/// Exhaustiveness law: an element one of whose handlers contains a
/// boolean match with a single non-wildcard arm does not validate.
pub proof fn lemma_single_arm_match_rejected(e: Element, n: HName, i: int)
    requires
        spec_find_handler(e.handlers@, n) is Some,
        0 <= i < spec_find_handler(e.handlers@, n)->Some_0.body@.len(),
        spec_find_handler(e.handlers@, n)->Some_0.body@[i] matches AStmt::Match(_, arms)
            && arms@.len() == 1 && arms@[0].pat != Pat::Wild,
    ensures
        !spec_validates(e),
{
    let h = spec_find_handler(e.handlers@, n)->Some_0;
    let s = h.body@[i];
    match s {
        AStmt::Match(_, arms) => {
            assert(!spec_arms_cover(arms@));
            assert(!spec_exh_stmt(s));
            if spec_exh_stmts(h.body@) {
                lemma_exh_index(h.body@, i);
                assert(false);
            }
            match n {
                HName::Init => assert(!spec_handler_exh(e, HName::Init)),
                HName::Req => assert(!spec_handler_exh(e, HName::Req)),
                HName::Resp => assert(!spec_handler_exh(e, HName::Resp)),
            }
        },
        _ => {},
    }
}

/// Emission law: a request or response handler with a control path that
/// emits no message, or one that emits more than one, does not validate.
pub proof fn lemma_emission_path_rejected(e: Element, n: HName)
    requires
        n == HName::Req || n == HName::Resp,
        spec_find_handler(e.handlers@, n) is Some,
        !spec_emits_once(spec_find_handler(e.handlers@, n)->Some_0.body@),
    ensures
        !spec_validates(e),
{
    match n {
        HName::Init => {},
        HName::Req => assert(!spec_emission_ok(e, HName::Req)),
        HName::Resp => assert(!spec_emission_ok(e, HName::Resp)),
    }
}

} // verus!
