//! Lowering a validated element to canonical IR: names become field
//! indices or the handler input, literal arithmetic is folded, `>` is
//! reoriented to `<`, every boolean match becomes a two-armed
//! conditional, and each field is classified constant or mutable by
//! whether a request/response handler reassigns it.
use vstd::prelude::*;
use crate::ast::{copy_bytes, bytes_eq, AExpr, AField, Arm, AStmt, Element, HName, Pat};
use crate::ir::{
    expr_view, stmt_view, stmts_view, field_view, fields_view, body_view, elem_view,
    lemma_stmts_view_push, IExpr, IStmt, IrElement, IrField, SpecElem, SpecExpr, SpecField,
    SpecStmt,
};
use crate::validate::{
    spec_assign_count, spec_const_val, spec_field_index, spec_find_handler, spec_kind,
    spec_kinds_arms, spec_kinds_stmt, spec_kinds_stmts, spec_validates, spec_handler_kinds,
    spec_init_ok, find_field, const_val, scan_handlers,
};

verus! {

broadcast use vstd::seq::axiom_seq_index_decreases, vstd::std_specs::vec::group_vec_axioms;

/// Canonical form of one expression: indices for names, literals for
/// literal arithmetic, `<` for either comparison order.
pub open spec fn spec_lower_expr(e: AExpr, fields: Seq<AField>, param: Seq<u8>) -> SpecExpr
    decreases e,
{
    match e {
        AExpr::Num(n) => SpecExpr::Num(n),
        AExpr::Var(n) => match spec_field_index(fields, n@) {
            Option::Some(i) => SpecExpr::Field(i as u64),
            Option::None => SpecExpr::Input,
        },
        AExpr::Rand(a, b) => SpecExpr::Rand(
            Box::new(spec_lower_expr(*a, fields, param)),
            Box::new(spec_lower_expr(*b, fields, param)),
        ),
        AExpr::ErrLit(m) => SpecExpr::ErrLit(m@),
        AExpr::Lt(a, b) => SpecExpr::Lt(
            Box::new(spec_lower_expr(*a, fields, param)),
            Box::new(spec_lower_expr(*b, fields, param)),
        ),
        AExpr::Gt(a, b) => SpecExpr::Lt(
            Box::new(spec_lower_expr(*b, fields, param)),
            Box::new(spec_lower_expr(*a, fields, param)),
        ),
        AExpr::Add(_, _) => match spec_const_val(e) {
            Option::Some(v) => SpecExpr::Num(v),
            Option::None => SpecExpr::Num(0),
        },
        AExpr::Sub(_, _) => match spec_const_val(e) {
            Option::Some(v) => SpecExpr::Num(v),
            Option::None => SpecExpr::Num(0),
        },
    }
}

/// A reordered comparison lowers to the same canonical node.
pub proof fn lemma_comparison_orientation(
    a: AExpr,
    b: AExpr,
    fields: Seq<AField>,
    param: Seq<u8>,
)
    ensures
        spec_lower_expr(AExpr::Gt(Box::new(a), Box::new(b)), fields, param) == spec_lower_expr(
            AExpr::Lt(Box::new(b), Box::new(a)),
            fields,
            param,
        ),
{
}

pub open spec fn spec_lower_stmts(ss: Seq<AStmt>, fields: Seq<AField>, param: Seq<u8>) -> Seq<
    SpecStmt,
>
    decreases ss,
{
    if ss.len() == 0 {
        Seq::empty()
    } else {
        spec_lower_stmts(ss.drop_last(), fields, param) + seq![
            spec_lower_stmt(ss.last(), fields, param),
        ]
    }
}

pub open spec fn spec_lower_stmt(s: AStmt, fields: Seq<AField>, param: Seq<u8>) -> SpecStmt
    decreases s,
{
    match s {
        AStmt::Assign(n, e) => SpecStmt::Assign(
            match spec_field_index(fields, n@) {
                Option::Some(i) => i as u64,
                Option::None => 0,
            },
            spec_lower_expr(e, fields, param),
        ),
        AStmt::Send(m, d) => SpecStmt::Send(spec_lower_expr(m, fields, param), d),
        AStmt::Match(sc, arms) => SpecStmt::If(
            spec_lower_expr(sc, fields, param),
            spec_lower_arm(arms@, Pat::True, fields, param),
            spec_lower_arm(arms@, Pat::False, fields, param),
        ),
    }
}

/// The body the scrutinee value selects: the first arm whose pattern is
/// the value or a wildcard, lowered.
pub open spec fn spec_lower_arm(arms: Seq<Arm>, want: Pat, fields: Seq<AField>, param: Seq<u8>) -> Seq<
    SpecStmt,
>
    decreases arms,
{
    if arms.len() == 0 {
        Seq::empty()
    } else if arms[0].pat == want || arms[0].pat == Pat::Wild {
        spec_lower_stmts(arms[0].body@, fields, param)
    } else {
        spec_lower_arm(arms.drop_first(), want, fields, param)
    }
}

/// Does some statement in the list assign to the field, anywhere down the
/// match arms?
pub open spec fn spec_assigns_stmts(ss: Seq<AStmt>, name: Seq<u8>) -> bool
    decreases ss,
{
    if ss.len() == 0 {
        false
    } else {
        spec_assigns_stmts(ss.drop_last(), name) || spec_assigns_stmt(ss.last(), name)
    }
}

pub open spec fn spec_assigns_stmt(s: AStmt, name: Seq<u8>) -> bool
    decreases s,
{
    match s {
        AStmt::Assign(n, _) => n@ == name,
        AStmt::Send(_, _) => false,
        AStmt::Match(_, arms) => spec_assigns_arms(arms@, name),
    }
}

pub open spec fn spec_assigns_arms(arms: Seq<Arm>, name: Seq<u8>) -> bool
    decreases arms,
{
    if arms.len() == 0 {
        false
    } else {
        spec_assigns_arms(arms.drop_last(), name) || spec_assigns_stmts(arms.last().body@, name)
    }
}

/// The body of a hook, or the empty body when the hook is absent.
pub open spec fn spec_handler_body(e: Element, n: HName) -> Seq<AStmt> {
    match spec_find_handler(e.handlers@, n) {
        Option::Some(h) => h.body@,
        Option::None => Seq::empty(),
    }
}

/// A field is mutable when a request or response handler reassigns it.
pub open spec fn spec_mutable(e: Element, name: Seq<u8>) -> bool {
    spec_assigns_stmts(spec_handler_body(e, HName::Req), name) || spec_assigns_stmts(
        spec_handler_body(e, HName::Resp),
        name,
    )
}

/// The right-hand side of the first `init` assignment to the field.
pub open spec fn spec_init_rhs(ss: Seq<AStmt>, name: Seq<u8>) -> AExpr
    decreases ss,
{
    if ss.len() == 0 {
        AExpr::Num(0)
    } else {
        match ss[0] {
            AStmt::Assign(n, x) => if n@ == name {
                x
            } else {
                spec_init_rhs(ss.drop_first(), name)
            },
            _ => spec_init_rhs(ss.drop_first(), name),
        }
    }
}

pub open spec fn spec_init_param(e: Element) -> Seq<u8> {
    match spec_find_handler(e.handlers@, HName::Init) {
        Option::Some(h) => h.param@,
        Option::None => Seq::empty(),
    }
}

pub open spec fn spec_lower_field(e: Element, f: AField) -> SpecField {
    SpecField {
        name: f.name@,
        mutable: spec_mutable(e, f.name@),
        init: spec_lower_expr(
            spec_init_rhs(spec_handler_body(e, HName::Init), f.name@),
            e.fields@,
            spec_init_param(e),
        ),
    }
}

pub open spec fn spec_lower_body(e: Element, n: HName) -> Option<Seq<SpecStmt>> {
    match spec_find_handler(e.handlers@, n) {
        Option::Some(h) => Option::Some(spec_lower_stmts(h.body@, e.fields@, h.param@)),
        Option::None => Option::None,
    }
}

/// The whole element, lowered.
pub open spec fn spec_lower_elem(e: Element) -> SpecElem {
    SpecElem {
        name: e.name@,
        fields: e.fields@.map_values(|f: AField| spec_lower_field(e, f)),
        req: spec_lower_body(e, HName::Req),
        resp: spec_lower_body(e, HName::Resp),
    }
}

/// State-classification law: the lowered classification of a field is
/// exactly whether some request or response statement reassigns it — a
/// field written only during `init` is constant.
pub proof fn lemma_state_classification(e: Element, i: int)
    requires
        0 <= i < e.fields@.len(),
    ensures
        spec_lower_elem(e).fields[i].mutable == spec_mutable(e, e.fields@[i].name@),
        !spec_assigns_stmts(spec_handler_body(e, HName::Req), e.fields@[i].name@)
            && !spec_assigns_stmts(spec_handler_body(e, HName::Resp), e.fields@[i].name@)
            ==> !spec_lower_elem(e).fields[i].mutable,
{
}

/// A well-kinded list is well-kinded at each member.
pub proof fn lemma_kinds_index(ss: Seq<AStmt>, fields: Seq<AField>, param: Seq<u8>, i: int)
    requires
        0 <= i < ss.len(),
        spec_kinds_stmts(ss, fields, param),
    ensures
        spec_kinds_stmt(ss[i], fields, param),
    decreases ss,
{
    if i < ss.len() - 1 {
        lemma_kinds_index(ss.drop_last(), fields, param, i);
    }
}

/// Well-kinded arms have well-kinded bodies.
pub proof fn lemma_kinds_arms_index(arms: Seq<Arm>, fields: Seq<AField>, param: Seq<u8>, i: int)
    requires
        0 <= i < arms.len(),
        spec_kinds_arms(arms, fields, param),
    ensures
        spec_kinds_stmts(arms[i].body@, fields, param),
    decreases arms,
{
    if i < arms.len() - 1 {
        lemma_kinds_arms_index(arms.drop_last(), fields, param, i);
    }
}

/// Lowers one well-kinded expression.
pub fn lower_expr(e: &AExpr, fields: &Vec<AField>, param: &Vec<u8>) -> (r: IExpr)
    requires
        spec_kind(*e, fields@, param@) is Some,
    ensures
        expr_view(r) == spec_lower_expr(*e, fields@, param@),
    decreases *e,
{
    match e {
        AExpr::Num(n) => IExpr::Num(*n),
        AExpr::Var(n) => {
            match find_field(fields, n) {
                Option::Some(i) => IExpr::Field(i as u64),
                Option::None => IExpr::Input,
            }
        },
        AExpr::Rand(a, b) => {
            let la = lower_expr(&**a, fields, param);
            let lb = lower_expr(&**b, fields, param);
            IExpr::Rand(Box::new(la), Box::new(lb))
        },
        AExpr::ErrLit(m) => IExpr::ErrLit(copy_bytes(m)),
        AExpr::Lt(a, b) => {
            let la = lower_expr(&**a, fields, param);
            let lb = lower_expr(&**b, fields, param);
            IExpr::Lt(Box::new(la), Box::new(lb))
        },
        AExpr::Gt(a, b) => {
            let la = lower_expr(&**a, fields, param);
            let lb = lower_expr(&**b, fields, param);
            IExpr::Lt(Box::new(lb), Box::new(la))
        },
        AExpr::Add(_, _) => {
            match const_val(e) {
                Option::Some(v) => IExpr::Num(v),
                Option::None => IExpr::Num(0),
            }
        },
        AExpr::Sub(_, _) => {
            match const_val(e) {
                Option::Some(v) => IExpr::Num(v),
                Option::None => IExpr::Num(0),
            }
        },
    }
}

/// Lowers a well-kinded statement list.
pub fn lower_stmts(ss: &Vec<AStmt>, fields: &Vec<AField>, param: &Vec<u8>) -> (r: Vec<IStmt>)
    requires
        spec_kinds_stmts(ss@, fields@, param@),
    ensures
        stmts_view(r@) == spec_lower_stmts(ss@, fields@, param@),
    decreases ss@,
{
    let mut r: Vec<IStmt> = Vec::new();
    let mut i: usize = 0;
    while i < ss.len()
        invariant
            i <= ss.len(),
            spec_kinds_stmts(ss@, fields@, param@),
            stmts_view(r@) == spec_lower_stmts(ss@.take(i as int), fields@, param@),
        decreases ss.len() - i,
    {
        proof {
            assert(decreases_to!(ss@ => ss@[i as int]));
            lemma_kinds_index(ss@, fields@, param@, i as int);
        }
        let ls = lower_stmt(&ss[i], fields, param);
        proof {
            lemma_stmts_view_push(r@, ls);
            assert(ss@.take(i as int + 1).drop_last() =~= ss@.take(i as int));
            assert(ss@.take(i as int + 1).last() == ss@[i as int]);
        }
        r.push(ls);
        i = i + 1;
    }
    proof {
        assert(ss@.take(ss@.len() as int) =~= ss@);
    }
    r
}

/// Lowers one well-kinded statement.
pub fn lower_stmt(s: &AStmt, fields: &Vec<AField>, param: &Vec<u8>) -> (r: IStmt)
    requires
        spec_kinds_stmt(*s, fields@, param@),
    ensures
        stmt_view(r) == spec_lower_stmt(*s, fields@, param@),
    decreases *s, 1int,
{
    match s {
        AStmt::Assign(n, e) => {
            let ix: u64 = match find_field(fields, n) {
                Option::Some(i) => i as u64,
                Option::None => 0,
            };
            IStmt::Assign(ix, lower_expr(e, fields, param))
        },
        AStmt::Send(m, d) => IStmt::Send(lower_expr(m, fields, param), *d),
        AStmt::Match(sc, arms) => {
            let c = lower_expr(sc, fields, param);
            let tb = lower_arm(s, arms, Pat::True, fields, param);
            let fb = lower_arm(s, arms, Pat::False, fields, param);
            IStmt::If(c, tb, fb)
        },
    }
}

/// Lowers the body that a boolean scrutinee value selects.
fn lower_arm(
    s: &AStmt,
    arms: &Vec<Arm>,
    want: Pat,
    fields: &Vec<AField>,
    param: &Vec<u8>,
) -> (r: Vec<IStmt>)
    requires
        *s matches AStmt::Match(_, a) && a == *arms,
        spec_kinds_arms(arms@, fields@, param@),
    ensures
        stmts_view(r@) == spec_lower_arm(arms@, want, fields@, param@),
    decreases *s, 0int,
{
    proof {
        assert(arms@.skip(0int) =~= arms@);
    }
    let mut i: usize = 0;
    while i < arms.len()
        invariant
            i <= arms.len(),
            *s matches AStmt::Match(_, a) && a == *arms,
            spec_kinds_arms(arms@, fields@, param@),
            spec_lower_arm(arms@, want, fields@, param@) == spec_lower_arm(
                arms@.skip(i as int),
                want,
                fields@,
                param@,
            ),
        decreases arms.len() - i,
    {
        let hit = arms[i].pat == want || arms[i].pat == Pat::Wild;
        proof {
            assert(arms@.skip(i as int)[0] == arms@[i as int]);
            assert(arms@.skip(i as int).drop_first() =~= arms@.skip(i as int + 1));
        }
        if hit {
            proof {
                lemma_kinds_arms_index(arms@, fields@, param@, i as int);
                assert(decreases_to!(*s => s->Match_1));
                assert(s->Match_1 == *arms);
                assert(decreases_to!(*arms => arms@));
                assert(decreases_to!(arms@ => arms@[i as int]));
                assert(decreases_to!(arms@[i as int] => arms@[i as int].body));
                assert(decreases_to!(arms@[i as int].body => arms@[i as int].body@));
                assert(decreases_to!(*s => arms@[i as int].body@));
            }
            let b = lower_stmts(&arms[i].body, fields, param);
            return b;
        }
        i = i + 1;
    }
    proof {
        assert(arms@.skip(arms@.len() as int) =~= Seq::<Arm>::empty());
    }
    Vec::new()
}

/// Does some statement in the list assign to the field?
pub fn assigns_stmts(ss: &Vec<AStmt>, name: &Vec<u8>) -> (r: bool)
    ensures
        r == spec_assigns_stmts(ss@, name@),
    decreases ss@,
{
    let mut found = false;
    let mut i: usize = 0;
    while i < ss.len()
        invariant
            i <= ss.len(),
            found == spec_assigns_stmts(ss@.take(i as int), name@),
        decreases ss.len() - i,
    {
        proof {
            assert(decreases_to!(ss@ => ss@[i as int]));
        }
        let a = assigns_stmt(&ss[i], name);
        proof {
            assert(ss@.take(i as int + 1).drop_last() =~= ss@.take(i as int));
            assert(ss@.take(i as int + 1).last() == ss@[i as int]);
        }
        found = found || a;
        i = i + 1;
    }
    proof {
        assert(ss@.take(ss@.len() as int) =~= ss@);
    }
    found
}

fn assigns_stmt(s: &AStmt, name: &Vec<u8>) -> (r: bool)
    ensures
        r == spec_assigns_stmt(*s, name@),
    decreases *s,
{
    match s {
        AStmt::Assign(n, _) => bytes_eq(n, name),
        AStmt::Send(_, _) => false,
        AStmt::Match(sc, arms) => {
            let mut found = false;
            let mut j: usize = 0;
            while j < arms.len()
                invariant
                    j <= arms.len(),
                    *s == AStmt::Match(*sc, *arms),
                    found == spec_assigns_arms(arms@.take(j as int), name@),
                decreases arms.len() - j,
            {
                proof {
                    assert(decreases_to!(*s => s->Match_1));
                    assert(s->Match_1 == *arms);
                    assert(decreases_to!(*arms => arms@));
                    assert(decreases_to!(arms@ => arms@[j as int]));
                    assert(decreases_to!(arms@[j as int] => arms@[j as int].body));
                    assert(decreases_to!(arms@[j as int].body => arms@[j as int].body@));
                    assert(decreases_to!(*s => arms@[j as int].body@));
                }
                let a = assigns_stmts(&arms[j].body, name);
                proof {
                    assert(arms@.take(j as int + 1).drop_last() =~= arms@.take(j as int));
                    assert(arms@.take(j as int + 1).last() == arms@[j as int]);
                }
                found = found || a;
                j = j + 1;
            }
            proof {
                assert(arms@.take(arms@.len() as int) =~= arms@);
            }
            found
        },
    }
}

/// Lowers the initializer of one field: the right-hand side of its unique
/// `init` assignment, folded.
fn lower_init_rhs(e: &Element, ii: usize, name: &Vec<u8>) -> (r: IExpr)
    requires
        spec_validates(*e),
        ii < e.handlers@.len(),
        spec_find_handler(e.handlers@, HName::Init) == Option::Some(e.handlers@[ii as int]),
        exists|k: int| 0 <= k < e.fields@.len() && e.fields@[k].name@ == name@,
    ensures
        expr_view(r) == spec_lower_expr(
            spec_init_rhs(spec_handler_body(*e, HName::Init), name@),
            e.fields@,
            spec_init_param(*e),
        ),
{
    let h = &e.handlers[ii];
    proof {
        assert(spec_handler_body(*e, HName::Init) == h.body@);
        assert(spec_init_param(*e) == h.param@);
        assert(spec_kinds_stmts(h.body@, e.fields@, h.param@));
        assert(h.body@.skip(0int) =~= h.body@);
        assert(h.body@.take(0int) =~= Seq::<AStmt>::empty());
    }
    let mut j: usize = 0;
    while j < h.body.len()
        invariant
            j <= h.body.len(),
            spec_kinds_stmts(h.body@, e.fields@, h.param@),
            spec_handler_body(*e, HName::Init) == h.body@,
            spec_init_param(*e) == h.param@,
            spec_init_rhs(h.body@, name@) == spec_init_rhs(h.body@.skip(j as int), name@),
            spec_assign_count(h.body@.take(j as int), name@) == 0,
        decreases h.body.len() - j,
    {
        proof {
            assert(h.body@.skip(j as int)[0] == h.body@[j as int]);
            assert(h.body@.skip(j as int).drop_first() =~= h.body@.skip(j as int + 1));
            assert(h.body@.take(j as int + 1).drop_last() =~= h.body@.take(j as int));
            assert(h.body@.take(j as int + 1).last() == h.body@[j as int]);
        }
        let hit = match &h.body[j] {
            AStmt::Assign(n, _) => bytes_eq(n, name),
            _ => false,
        };
        if hit {
            proof {
                lemma_kinds_index(h.body@, e.fields@, h.param@, j as int);
            }
            match &h.body[j] {
                AStmt::Assign(_, x) => {
                    return lower_expr(x, &e.fields, &h.param);
                },
                _ => {},
            }
        }
        j = j + 1;
    }
    proof {
        assert(h.body@.take(h.body@.len() as int) =~= h.body@);
        let k = choose|k: int| 0 <= k < e.fields@.len() && e.fields@[k].name@ == name@;
        assert(spec_assign_count(h.body@, e.fields@[k].name@) == 1);
        assert(false);
    }
    IExpr::Num(0)
}

/// Lowers one declared field: name kept, classification computed,
/// initializer folded.
fn lower_field_at(e: &Element, k: usize) -> (r: IrField)
    requires
        spec_validates(*e),
        k < e.fields@.len(),
    ensures
        field_view(r) == spec_lower_field(*e, e.fields@[k as int]),
{
    let f = &e.fields[k];
    let sc = scan_handlers(&e.handlers);
    let mut m = false;
    match sc.1 {
        Option::Some(ri) => {
            m = assigns_stmts(&e.handlers[ri].body, &f.name);
        },
        Option::None => {},
    }
    match sc.2 {
        Option::Some(pi) => {
            let m2 = assigns_stmts(&e.handlers[pi].body, &f.name);
            m = m || m2;
        },
        Option::None => {},
    }
    proof {
        assert(m == spec_mutable(*e, f.name@));
    }
    let init = match sc.0 {
        Option::Some(ii) => lower_init_rhs(e, ii, &f.name),
        Option::None => {
            proof {
                assert(spec_assign_count(Seq::empty(), e.fields@[k as int].name@) == 0);
                assert(!spec_init_ok(*e));
                assert(false);
            }
            IExpr::Num(0)
        },
    };
    IrField { name: copy_bytes(&f.name), mutable: m, init }
}

/// Lowers a validated element whole.
pub fn lower_element(e: &Element) -> (r: IrElement)
    requires
        spec_validates(*e),
    ensures
        elem_view(r) == spec_lower_elem(*e),
{
    let mut fields: Vec<IrField> = Vec::new();
    let mut k: usize = 0;
    while k < e.fields.len()
        invariant
            k <= e.fields.len(),
            spec_validates(*e),
            fields@.len() == k,
            forall|j: int|
                0 <= j < k ==> field_view(fields@[j]) == spec_lower_field(*e, e.fields@[j]),
        decreases e.fields.len() - k,
    {
        let fd = lower_field_at(e, k);
        fields.push(fd);
        k = k + 1;
    }
    proof {
        assert(fields_view(fields@) =~= e.fields@.map_values(|f: AField| spec_lower_field(*e, f)));
    }
    let sc = scan_handlers(&e.handlers);
    let req: Option<Vec<IStmt>> = match sc.1 {
        Option::Some(ri) => {
            let h = &e.handlers[ri];
            proof {
                assert(spec_handler_kinds(*e, HName::Req));
            }
            Option::Some(lower_stmts(&h.body, &e.fields, &h.param))
        },
        Option::None => Option::None,
    };
    let resp: Option<Vec<IStmt>> = match sc.2 {
        Option::Some(pi) => {
            let h = &e.handlers[pi];
            proof {
                assert(spec_handler_kinds(*e, HName::Resp));
            }
            Option::Some(lower_stmts(&h.body, &e.fields, &h.param))
        },
        Option::None => Option::None,
    };
    let r = IrElement { name: copy_bytes(&e.name), fields, req, resp };
    proof {
        assert(elem_view(r).fields =~= spec_lower_elem(*e).fields);
        assert(elem_view(r).req == spec_lower_elem(*e).req);
        assert(elem_view(r).resp == spec_lower_elem(*e).resp);
        assert(elem_view(r) == spec_lower_elem(*e));
    }
    r
}

} // verus!
