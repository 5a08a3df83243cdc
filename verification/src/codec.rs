//! Byte serialization of the canonical IR: variable-length integers,
//! length-prefixed byte strings, and a tag per node. The embedded-logic
//! fallback serializes a whole element this way, and the decoder returns
//! it unchanged.
use vstd::prelude::*;
use crate::ast::Dir;
use crate::ir::{
    expr_view, stmt_view, stmts_view, field_view, fields_view, body_view, elem_view, IExpr, IStmt,
    IrElement, IrField, SpecElem, SpecExpr, SpecField, SpecStmt,
};

verus! {

broadcast use vstd::seq::axiom_seq_index_decreases, vstd::std_specs::vec::group_vec_axioms;

/// Signed-to-unsigned folding: small magnitudes get small codes.
pub open spec fn zigzag(n: i64) -> u64 {
    if n >= 0 {
        ((n as int) * 2) as u64
    } else {
        ((-(n as int)) * 2 - 1) as u64
    }
}

/// Little-endian base-128 code of an unsigned number, minimal length.
pub open spec fn enc_u64(n: u64) -> Seq<u8>
    decreases n,
{
    if n < 128 {
        seq![n as u8]
    } else {
        seq![(n % 128 + 128) as u8] + enc_u64(n / 128)
    }
}

pub open spec fn enc_i64(n: i64) -> Seq<u8> {
    enc_u64(zigzag(n))
}

/// Length-prefixed raw bytes.
pub open spec fn enc_bytes(b: Seq<u8>) -> Seq<u8> {
    enc_u64(b.len() as u64) + b
}

pub open spec fn dir_byte(d: Dir) -> u8 {
    match d {
        Dir::Net => 0u8,
        Dir::App => 1u8,
    }
}

pub open spec fn enc_expr(x: SpecExpr) -> Seq<u8>
    decreases x,
{
    match x {
        SpecExpr::Num(n) => seq![0u8] + enc_i64(n),
        SpecExpr::Field(i) => seq![1u8] + enc_u64(i),
        SpecExpr::Input => seq![2u8],
        SpecExpr::Rand(a, b) => seq![3u8] + enc_expr(*a) + enc_expr(*b),
        SpecExpr::ErrLit(m) => seq![4u8] + enc_bytes(m),
        SpecExpr::Lt(a, b) => seq![5u8] + enc_expr(*a) + enc_expr(*b),
    }
}

pub open spec fn enc_stmt(s: SpecStmt) -> Seq<u8>
    decreases s,
{
    match s {
        SpecStmt::Assign(i, x) => seq![0u8] + enc_u64(i) + enc_expr(x),
        SpecStmt::Send(x, d) => seq![1u8] + enc_expr(x) + seq![dir_byte(d)],
        SpecStmt::If(c, a, b) => seq![2u8] + enc_expr(c) + enc_stmts(a) + enc_stmts(b),
    }
}

pub open spec fn enc_items(ss: Seq<SpecStmt>) -> Seq<u8>
    decreases ss, 0int,
{
    if ss.len() == 0 {
        Seq::empty()
    } else {
        enc_items(ss.drop_last()) + enc_stmt(ss.last())
    }
}

/// A statement list: its count, then each statement.
pub open spec fn enc_stmts(ss: Seq<SpecStmt>) -> Seq<u8>
    decreases ss, 1int,
{
    enc_u64(ss.len() as u64) + enc_items(ss)
}

pub open spec fn enc_field(f: SpecField) -> Seq<u8> {
    enc_bytes(f.name) + seq![
        if f.mutable {
            1u8
        } else {
            0u8
        },
    ] + enc_expr(f.init)
}

pub open spec fn enc_fitems(fs: Seq<SpecField>) -> Seq<u8>
    decreases fs,
{
    if fs.len() == 0 {
        Seq::empty()
    } else {
        enc_fitems(fs.drop_last()) + enc_field(fs.last())
    }
}

pub open spec fn enc_opt(b: Option<Seq<SpecStmt>>) -> Seq<u8> {
    match b {
        Option::None => seq![0u8],
        Option::Some(ss) => seq![1u8] + enc_stmts(ss),
    }
}

/// A whole element: name, field count and fields, then the two handler
/// bodies.
pub open spec fn enc_elem(v: SpecElem) -> Seq<u8> {
    enc_bytes(v.name) + enc_u64(v.fields.len() as u64) + enc_fitems(v.fields) + enc_opt(v.req)
        + enc_opt(v.resp)
}

/// Appends the code of an unsigned number.
pub fn write_u64(out: &mut Vec<u8>, n: u64)
    ensures
        final(out)@ == old(out)@ + enc_u64(n),
    decreases n,
{
    if n < 128 {
        out.push(n as u8);
        proof {
            assert(out@ =~= old(out)@ + enc_u64(n));
        }
    } else {
        let ghost pre = out@;
        out.push((n % 128 + 128) as u8);
        write_u64(out, n / 128);
        proof {
            assert(out@ =~= pre + enc_u64(n));
        }
    }
}

/// Appends the code of a signed number.
pub fn write_i64(out: &mut Vec<u8>, n: i64)
    ensures
        final(out)@ == old(out)@ + enc_i64(n),
{
    let z: u64 = if n >= 0 {
        (n as u64) * 2
    } else {
        ((-(n + 1)) as u64) * 2 + 1
    };
    proof {
        assert(z == zigzag(n));
    }
    write_u64(out, z);
}

/// Appends a length-prefixed byte string.
pub fn write_bytes(out: &mut Vec<u8>, b: &Vec<u8>)
    ensures
        final(out)@ == old(out)@ + enc_bytes(b@),
{
    let ghost pre = out@;
    write_u64(out, b.len() as u64);
    let mut i: usize = 0;
    while i < b.len()
        invariant
            i <= b.len(),
            out@ =~= pre + enc_u64(b@.len() as u64) + b@.take(i as int),
        decreases b.len() - i,
    {
        out.push(b[i]);
        proof {
            assert(b@.take(i as int + 1) =~= b@.take(i as int).push(b@[i as int]));
            assert(out@ =~= pre + enc_u64(b@.len() as u64) + b@.take(i as int + 1));
        }
        i = i + 1;
    }
    proof {
        assert(b@.take(b@.len() as int) =~= b@);
        assert(out@ =~= pre + enc_bytes(b@));
    }
}

/// Appends the code of one expression.
pub fn write_expr(out: &mut Vec<u8>, x: &IExpr)
    ensures
        final(out)@ == old(out)@ + enc_expr(expr_view(*x)),
    decreases *x,
{
    let ghost pre = out@;
    match x {
        IExpr::Num(n) => {
            out.push(0u8);
            write_i64(out, *n);
            proof {
                assert(out@ =~= pre + enc_expr(expr_view(*x)));
            }
        },
        IExpr::Field(i) => {
            out.push(1u8);
            write_u64(out, *i);
            proof {
                assert(out@ =~= pre + enc_expr(expr_view(*x)));
            }
        },
        IExpr::Input => {
            out.push(2u8);
            proof {
                assert(out@ =~= pre + enc_expr(expr_view(*x)));
            }
        },
        IExpr::Rand(a, b) => {
            out.push(3u8);
            write_expr(out, &**a);
            write_expr(out, &**b);
            proof {
                assert(out@ =~= pre + enc_expr(expr_view(*x)));
            }
        },
        IExpr::ErrLit(m) => {
            out.push(4u8);
            write_bytes(out, m);
            proof {
                assert(out@ =~= pre + enc_expr(expr_view(*x)));
            }
        },
        IExpr::Lt(a, b) => {
            out.push(5u8);
            write_expr(out, &**a);
            write_expr(out, &**b);
            proof {
                assert(out@ =~= pre + enc_expr(expr_view(*x)));
            }
        },
    }
}

/// Appends the code of one statement.
pub fn write_stmt(out: &mut Vec<u8>, s: &IStmt)
    ensures
        final(out)@ == old(out)@ + enc_stmt(stmt_view(*s)),
    decreases *s, 1int,
{
    let ghost pre = out@;
    match s {
        IStmt::Assign(i, x) => {
            out.push(0u8);
            write_u64(out, *i);
            write_expr(out, x);
            proof {
                assert(out@ =~= pre + enc_stmt(stmt_view(*s)));
            }
        },
        IStmt::Send(x, d) => {
            out.push(1u8);
            write_expr(out, x);
            let db: u8 = match d {
                Dir::Net => 0u8,
                Dir::App => 1u8,
            };
            out.push(db);
            proof {
                assert(out@ =~= pre + enc_stmt(stmt_view(*s)));
            }
        },
        IStmt::If(c, a, b) => {
            out.push(2u8);
            write_expr(out, c);
            proof {
                assert(decreases_to!(*s => s->If_1));
                assert(s->If_1 == *a);
            }
            write_stmts(out, a);
            proof {
                assert(decreases_to!(*s => s->If_2));
                assert(s->If_2 == *b);
            }
            write_stmts(out, b);
            proof {
                assert(out@ =~= pre + enc_stmt(stmt_view(*s)));
            }
        },
    }
}

/// Appends the code of a statement list.
pub fn write_stmts(out: &mut Vec<u8>, ss: &Vec<IStmt>)
    ensures
        final(out)@ == old(out)@ + enc_stmts(stmts_view(ss@)),
    decreases *ss, 0int,
{
    let ghost pre = out@;
    proof {
        crate::ir::lemma_stmts_view_index(ss@);
    }
    write_u64(out, ss.len() as u64);
    let mut i: usize = 0;
    while i < ss.len()
        invariant
            i <= ss.len(),
            stmts_view(ss@).len() == ss@.len(),
            out@ =~= pre + enc_u64(ss@.len() as u64) + enc_items(stmts_view(ss@).take(i as int)),
        decreases ss.len() - i,
    {
        proof {
            assert(decreases_to!(*ss => ss@));
            assert(decreases_to!(ss@ => ss@[i as int]));
            crate::ir::lemma_stmts_view_index(ss@);
        }
        write_stmt(out, &ss[i]);
        proof {
            let sv = stmts_view(ss@);
            assert(sv.take(i as int + 1).drop_last() =~= sv.take(i as int));
            assert(sv.take(i as int + 1).last() == sv[i as int]);
            assert(sv[i as int] == stmt_view(ss@[i as int]));
            assert(out@ =~= pre + enc_u64(ss@.len() as u64) + enc_items(sv.take(i as int + 1)));
        }
        i = i + 1;
    }
    proof {
        let sv = stmts_view(ss@);
        assert(sv.take(sv.len() as int) =~= sv);
        assert(out@ =~= pre + enc_stmts(stmts_view(ss@)));
    }
}

/// Appends the code of one field.
pub fn write_field(out: &mut Vec<u8>, f: &IrField)
    ensures
        final(out)@ == old(out)@ + enc_field(field_view(*f)),
{
    let ghost pre = out@;
    write_bytes(out, &f.name);
    out.push(if f.mutable {
        1u8
    } else {
        0u8
    });
    write_expr(out, &f.init);
    proof {
        assert(out@ =~= pre + enc_field(field_view(*f)));
    }
}

/// Appends the code of an optional handler body.
pub fn write_opt(out: &mut Vec<u8>, b: &Option<Vec<IStmt>>)
    ensures
        final(out)@ == old(out)@ + enc_opt(body_view(*b)),
{
    let ghost pre = out@;
    match b {
        Option::None => {
            out.push(0u8);
            proof {
                assert(out@ =~= pre + enc_opt(body_view(*b)));
            }
        },
        Option::Some(ss) => {
            out.push(1u8);
            write_stmts(out, ss);
            proof {
                assert(out@ =~= pre + enc_opt(body_view(*b)));
            }
        },
    }
}

/// Appends the code of a whole element.
pub fn write_elem(out: &mut Vec<u8>, ir: &IrElement)
    ensures
        final(out)@ == old(out)@ + enc_elem(elem_view(*ir)),
{
    let ghost start = out@;
    write_bytes(out, &ir.name);
    write_u64(out, ir.fields.len() as u64);
    let ghost pre = out@;
    let mut i: usize = 0;
    while i < ir.fields.len()
        invariant
            i <= ir.fields.len(),
            out@ =~= pre + enc_fitems(fields_view(ir.fields@).take(i as int)),
        decreases ir.fields.len() - i,
    {
        write_field(out, &ir.fields[i]);
        proof {
            let fv = fields_view(ir.fields@);
            assert(fv.take(i as int + 1).drop_last() =~= fv.take(i as int));
            assert(fv.take(i as int + 1).last() == fv[i as int]);
            assert(fv[i as int] == field_view(ir.fields@[i as int]));
            assert(out@ =~= pre + enc_fitems(fv.take(i as int + 1)));
        }
        i = i + 1;
    }
    proof {
        let fv = fields_view(ir.fields@);
        assert(fv.take(fv.len() as int) =~= fv);
    }
    write_opt(out, &ir.req);
    write_opt(out, &ir.resp);
    proof {
        assert(out@ =~= start + enc_elem(elem_view(*ir)));
    }
}

/// Serializes a whole element.
pub fn encode_element(ir: &IrElement) -> (r: Vec<u8>)
    ensures
        r@ == enc_elem(elem_view(*ir)),
{
    let mut out: Vec<u8> = Vec::new();
    write_elem(&mut out, ir);
    proof {
        assert(out@ =~= enc_elem(elem_view(*ir)));
    }
    out
}

/// Decodes one unsigned number; rejects non-minimal codes.
pub open spec fn dec_u64(s: Seq<u8>) -> Option<(u64, Seq<u8>)>
    decreases s.len(),
{
    if s.len() == 0 {
        Option::None
    } else {
        let b = s[0];
        if b < 128 {
            Option::Some((b as u64, s.drop_first()))
        } else {
            match dec_u64(s.drop_first()) {
                Option::Some((m, r)) => {
                    let v: int = (m as int) * 128 + (b - 128);
                    if m > 0 && v <= u64::MAX {
                        Option::Some((v as u64, r))
                    } else {
                        Option::None
                    }
                },
                Option::None => Option::None,
            }
        }
    }
}

/// Decoding inverts encoding for unsigned numbers, whatever follows.
pub proof fn rt_u64(n: u64, rest: Seq<u8>)
    ensures
        dec_u64(enc_u64(n) + rest) == Option::Some((n, rest)),
    decreases n,
{
    if n < 128 {
        assert((enc_u64(n) + rest)[0] == n as u8);
        assert((enc_u64(n) + rest).drop_first() =~= rest);
    } else {
        let b = (n % 128 + 128) as u8;
        assert(enc_u64(n) + rest =~= seq![b] + (enc_u64(n / 128) + rest));
        assert((enc_u64(n) + rest)[0] == b);
        assert((enc_u64(n) + rest).drop_first() =~= enc_u64(n / 128) + rest);
        rt_u64(n / 128, rest);
        assert((n / 128) as int * 128 + (b - 128) == n as int) by {
            vstd::arithmetic::div_mod::lemma_fundamental_div_mod(n as int, 128);
        }
    }
}

/// Decodes one signed number.
pub open spec fn dec_i64(s: Seq<u8>) -> Option<(i64, Seq<u8>)> {
    match dec_u64(s) {
        Option::Some((z, r)) => {
            let v: int = if z % 2 == 0 {
                (z / 2) as int
            } else {
                -((z / 2) as int) - 1
            };
            Option::Some((v as i64, r))
        },
        Option::None => Option::None,
    }
}

/// Decoding inverts encoding for signed numbers.
pub proof fn rt_i64(n: i64, rest: Seq<u8>)
    ensures
        dec_i64(enc_i64(n) + rest) == Option::Some((n, rest)),
{
    rt_u64(zigzag(n), rest);
}

/// Decodes one length-prefixed byte string.
pub open spec fn dec_bytes(s: Seq<u8>) -> Option<(Seq<u8>, Seq<u8>)> {
    match dec_u64(s) {
        Option::Some((n, r)) => if r.len() >= n {
            Option::Some((r.take(n as int), r.skip(n as int)))
        } else {
            Option::None
        },
        Option::None => Option::None,
    }
}

/// Decoding inverts encoding for byte strings of machine length.
pub proof fn rt_bytes(b: Seq<u8>, rest: Seq<u8>)
    requires
        b.len() <= u64::MAX,
    ensures
        dec_bytes(enc_bytes(b) + rest) == Option::Some((b, rest)),
{
    assert(enc_bytes(b) + rest =~= enc_u64(b.len() as u64) + (b + rest));
    rt_u64(b.len() as u64, b + rest);
    assert((b + rest).take(b.len() as int) =~= b);
    assert((b + rest).skip(b.len() as int) =~= rest);
}

/// Decodes one expression; the fuel bounds the nesting examined.
pub open spec fn dec_expr(s: Seq<u8>, fuel: nat) -> Option<(SpecExpr, Seq<u8>)>
    decreases fuel, 0int, 0int,
{
    if fuel == 0 || s.len() == 0 {
        Option::None
    } else {
        let t = s[0];
        let s1 = s.drop_first();
        if t == 0 {
            match dec_i64(s1) {
                Option::Some((n, r)) => Option::Some((SpecExpr::Num(n), r)),
                Option::None => Option::None,
            }
        } else if t == 1 {
            match dec_u64(s1) {
                Option::Some((i, r)) => Option::Some((SpecExpr::Field(i), r)),
                Option::None => Option::None,
            }
        } else if t == 2 {
            Option::Some((SpecExpr::Input, s1))
        } else if t == 3 {
            match dec_expr(s1, (fuel - 1) as nat) {
                Option::Some((a, r1)) => match dec_expr(r1, (fuel - 1) as nat) {
                    Option::Some((b, r2)) => Option::Some(
                        (SpecExpr::Rand(Box::new(a), Box::new(b)), r2),
                    ),
                    Option::None => Option::None,
                },
                Option::None => Option::None,
            }
        } else if t == 4 {
            match dec_bytes(s1) {
                Option::Some((m, r)) => Option::Some((SpecExpr::ErrLit(m), r)),
                Option::None => Option::None,
            }
        } else if t == 5 {
            match dec_expr(s1, (fuel - 1) as nat) {
                Option::Some((a, r1)) => match dec_expr(r1, (fuel - 1) as nat) {
                    Option::Some((b, r2)) => Option::Some(
                        (SpecExpr::Lt(Box::new(a), Box::new(b)), r2),
                    ),
                    Option::None => Option::None,
                },
                Option::None => Option::None,
            }
        } else {
            Option::None
        }
    }
}

/// Decodes one statement.
pub open spec fn dec_stmt(s: Seq<u8>, fuel: nat) -> Option<(SpecStmt, Seq<u8>)>
    decreases fuel, 1int, 0int,
{
    if fuel == 0 || s.len() == 0 {
        Option::None
    } else {
        let t = s[0];
        let s1 = s.drop_first();
        if t == 0 {
            match dec_u64(s1) {
                Option::Some((i, r1)) => match dec_expr(r1, fuel) {
                    Option::Some((x, r2)) => Option::Some((SpecStmt::Assign(i, x), r2)),
                    Option::None => Option::None,
                },
                Option::None => Option::None,
            }
        } else if t == 1 {
            match dec_expr(s1, fuel) {
                Option::Some((x, r1)) => if r1.len() > 0 && r1[0] <= 1 {
                    let d = if r1[0] == 0 {
                        Dir::Net
                    } else {
                        Dir::App
                    };
                    Option::Some((SpecStmt::Send(x, d), r1.drop_first()))
                } else {
                    Option::None
                },
                Option::None => Option::None,
            }
        } else if t == 2 {
            match dec_expr(s1, fuel) {
                Option::Some((c, r1)) => match dec_stmts(r1, (fuel - 1) as nat) {
                    Option::Some((a, r2)) => match dec_stmts(r2, (fuel - 1) as nat) {
                        Option::Some((b, r3)) => Option::Some((SpecStmt::If(c, a, b), r3)),
                        Option::None => Option::None,
                    },
                    Option::None => Option::None,
                },
                Option::None => Option::None,
            }
        } else {
            Option::None
        }
    }
}

/// Decodes a known number of statements.
pub open spec fn dec_items(s: Seq<u8>, n: nat, fuel: nat) -> Option<(Seq<SpecStmt>, Seq<u8>)>
    decreases fuel, 2int, n,
{
    if n == 0 {
        Option::Some((Seq::empty(), s))
    } else {
        match dec_stmt(s, fuel) {
            Option::Some((st, r1)) => match dec_items(r1, (n - 1) as nat, fuel) {
                Option::Some((ss, r2)) => Option::Some((seq![st] + ss, r2)),
                Option::None => Option::None,
            },
            Option::None => Option::None,
        }
    }
}

/// Decodes a count-prefixed statement list.
pub open spec fn dec_stmts(s: Seq<u8>, fuel: nat) -> Option<(Seq<SpecStmt>, Seq<u8>)>
    decreases fuel, 3int, 0int,
{
    match dec_u64(s) {
        Option::Some((n, r)) => dec_items(r, n as nat, fuel),
        Option::None => Option::None,
    }
}

/// Decodes one field.
pub open spec fn dec_field(s: Seq<u8>, fuel: nat) -> Option<(SpecField, Seq<u8>)>
    decreases fuel, 1int, 0int,
{
    match dec_bytes(s) {
        Option::Some((name, r1)) => if r1.len() > 0 && r1[0] <= 1 {
            match dec_expr(r1.drop_first(), fuel) {
                Option::Some((x, r2)) => Option::Some(
                    (SpecField { name, mutable: r1[0] == 1, init: x }, r2),
                ),
                Option::None => Option::None,
            }
        } else {
            Option::None
        },
        Option::None => Option::None,
    }
}

/// Decodes a known number of fields.
pub open spec fn dec_fields(s: Seq<u8>, n: nat, fuel: nat) -> Option<(Seq<SpecField>, Seq<u8>)>
    decreases fuel, 2int, n,
{
    if n == 0 {
        Option::Some((Seq::empty(), s))
    } else {
        match dec_field(s, fuel) {
            Option::Some((f, r1)) => match dec_fields(r1, (n - 1) as nat, fuel) {
                Option::Some((fs, r2)) => Option::Some((seq![f] + fs, r2)),
                Option::None => Option::None,
            },
            Option::None => Option::None,
        }
    }
}

/// Decodes an optional handler body.
pub open spec fn dec_opt(s: Seq<u8>, fuel: nat) -> Option<(Option<Seq<SpecStmt>>, Seq<u8>)>
    decreases fuel, 4int, 0int,
{
    if s.len() == 0 || s[0] > 1 {
        Option::None
    } else if s[0] == 0 {
        Option::Some((Option::None, s.drop_first()))
    } else {
        match dec_stmts(s.drop_first(), fuel) {
            Option::Some((ss, r)) => Option::Some((Option::Some(ss), r)),
            Option::None => Option::None,
        }
    }
}

/// Decodes a whole element.
pub open spec fn dec_elem(s: Seq<u8>, fuel: nat) -> Option<(SpecElem, Seq<u8>)>
    decreases fuel, 5int, 0int,
{
    match dec_bytes(s) {
        Option::Some((name, r1)) => match dec_u64(r1) {
            Option::Some((nf, r2)) => match dec_fields(r2, nf as nat, fuel) {
                Option::Some((fs, r3)) => match dec_opt(r3, fuel) {
                    Option::Some((req, r4)) => match dec_opt(r4, fuel) {
                        Option::Some((resp, r5)) => Option::Some(
                            (SpecElem { name, fields: fs, req, resp }, r5),
                        ),
                        Option::None => Option::None,
                    },
                    Option::None => Option::None,
                },
                Option::None => Option::None,
            },
            Option::None => Option::None,
        },
        Option::None => Option::None,
    }
}

/// Every byte string and list in the value has machine length, so its
/// length prefix is faithful.
pub open spec fn wf_expr(x: SpecExpr) -> bool
    decreases x,
{
    match x {
        SpecExpr::Num(_) => true,
        SpecExpr::Field(_) => true,
        SpecExpr::Input => true,
        SpecExpr::Rand(a, b) => wf_expr(*a) && wf_expr(*b),
        SpecExpr::ErrLit(m) => m.len() <= u64::MAX,
        SpecExpr::Lt(a, b) => wf_expr(*a) && wf_expr(*b),
    }
}

pub open spec fn wf_stmt(s: SpecStmt) -> bool
    decreases s,
{
    match s {
        SpecStmt::Assign(_, x) => wf_expr(x),
        SpecStmt::Send(x, _) => wf_expr(x),
        SpecStmt::If(c, a, b) => wf_expr(c) && wf_stmts(a) && wf_stmts(b),
    }
}

pub open spec fn wf_sitems(ss: Seq<SpecStmt>) -> bool
    decreases ss, 0int,
{
    forall|i: int| 0 <= i < ss.len() ==> wf_stmt(#[trigger] ss[i])
}

pub open spec fn wf_stmts(ss: Seq<SpecStmt>) -> bool
    decreases ss, 1int,
{
    ss.len() <= u64::MAX && wf_sitems(ss)
}

pub open spec fn wf_field(f: SpecField) -> bool {
    f.name.len() <= u64::MAX && wf_expr(f.init)
}

pub open spec fn wf_fitems(fs: Seq<SpecField>) -> bool {
    forall|i: int| 0 <= i < fs.len() ==> wf_field(#[trigger] fs[i])
}

pub open spec fn wf_opt(b: Option<Seq<SpecStmt>>) -> bool {
    match b {
        Option::None => true,
        Option::Some(ss) => wf_stmts(ss),
    }
}

pub open spec fn wf_elem(v: SpecElem) -> bool {
    v.name.len() <= u64::MAX && v.fields.len() <= u64::MAX && wf_fitems(v.fields) && wf_opt(v.req)
        && wf_opt(v.resp)
}

/// Item codes read one statement at a time from the front.
pub proof fn lemma_items_front(ss: Seq<SpecStmt>)
    requires
        ss.len() > 0,
    ensures
        enc_items(ss) == enc_stmt(ss[0]) + enc_items(ss.drop_first()),
    decreases ss,
{
    if ss.len() == 1 {
        assert(ss.drop_last() =~= Seq::<SpecStmt>::empty());
        assert(ss.drop_first() =~= Seq::<SpecStmt>::empty());
        assert(enc_items(ss) =~= enc_stmt(ss[0]) + enc_items(ss.drop_first()));
    } else {
        lemma_items_front(ss.drop_last());
        assert(ss.drop_last()[0] == ss[0]);
        assert(ss.drop_last().drop_first() =~= ss.drop_first().drop_last());
        assert(ss.drop_first().last() == ss.last());
        assert(enc_items(ss.drop_first()) == enc_items(ss.drop_first().drop_last()) + enc_stmt(
            ss.last(),
        ));
        assert(enc_items(ss) =~= enc_stmt(ss[0]) + enc_items(ss.drop_first()));
    }
}

/// Field codes read one field at a time from the front.
pub proof fn lemma_fitems_front(fs: Seq<SpecField>)
    requires
        fs.len() > 0,
    ensures
        enc_fitems(fs) == enc_field(fs[0]) + enc_fitems(fs.drop_first()),
    decreases fs,
{
    if fs.len() == 1 {
        assert(fs.drop_last() =~= Seq::<SpecField>::empty());
        assert(fs.drop_first() =~= Seq::<SpecField>::empty());
        assert(enc_fitems(fs) =~= enc_field(fs[0]) + enc_fitems(fs.drop_first()));
    } else {
        lemma_fitems_front(fs.drop_last());
        assert(fs.drop_last()[0] == fs[0]);
        assert(fs.drop_last().drop_first() =~= fs.drop_first().drop_last());
        assert(fs.drop_first().last() == fs.last());
        assert(enc_fitems(fs.drop_first()) == enc_fitems(fs.drop_first().drop_last()) + enc_field(
            fs.last(),
        ));
        assert(enc_fitems(fs) =~= enc_field(fs[0]) + enc_fitems(fs.drop_first()));
    }
}

/// Decoding inverts encoding for expressions, whatever follows.
pub proof fn rt_expr(x: SpecExpr, rest: Seq<u8>, fuel: nat)
    requires
        wf_expr(x),
        fuel > enc_expr(x).len(),
    ensures
        dec_expr(enc_expr(x) + rest, fuel) == Option::Some((x, rest)),
    decreases x,
{
    let s = enc_expr(x) + rest;
    match x {
        SpecExpr::Num(n) => {
            assert(s =~= seq![0u8] + (enc_i64(n) + rest));
            assert(s[0] == 0u8);
            assert(s.drop_first() =~= enc_i64(n) + rest);
            rt_i64(n, rest);
        },
        SpecExpr::Field(i) => {
            assert(s =~= seq![1u8] + (enc_u64(i) + rest));
            assert(s[0] == 1u8);
            assert(s.drop_first() =~= enc_u64(i) + rest);
            rt_u64(i, rest);
        },
        SpecExpr::Input => {
            assert(s[0] == 2u8);
            assert(s.drop_first() =~= rest);
        },
        SpecExpr::Rand(a, b) => {
            let ea = enc_expr(*a);
            let eb = enc_expr(*b);
            assert(s =~= seq![3u8] + (ea + (eb + rest)));
            assert(s[0] == 3u8);
            assert(s.drop_first() =~= ea + (eb + rest));
            rt_expr(*a, eb + rest, (fuel - 1) as nat);
            rt_expr(*b, rest, (fuel - 1) as nat);
        },
        SpecExpr::ErrLit(m) => {
            assert(s =~= seq![4u8] + (enc_bytes(m) + rest));
            assert(s[0] == 4u8);
            assert(s.drop_first() =~= enc_bytes(m) + rest);
            rt_bytes(m, rest);
        },
        SpecExpr::Lt(a, b) => {
            let ea = enc_expr(*a);
            let eb = enc_expr(*b);
            assert(s =~= seq![5u8] + (ea + (eb + rest)));
            assert(s[0] == 5u8);
            assert(s.drop_first() =~= ea + (eb + rest));
            rt_expr(*a, eb + rest, (fuel - 1) as nat);
            rt_expr(*b, rest, (fuel - 1) as nat);
        },
    }
}

/// Decoding inverts encoding for an assignment statement.
proof fn rt_stmt_assign(i: u64, x: SpecExpr, rest: Seq<u8>, fuel: nat)
    requires
        wf_expr(x),
        fuel > enc_stmt(SpecStmt::Assign(i, x)).len(),
    ensures
        dec_stmt(enc_stmt(SpecStmt::Assign(i, x)) + rest, fuel) == Option::Some(
            (SpecStmt::Assign(i, x), rest),
        ),
{
    let s = enc_stmt(SpecStmt::Assign(i, x)) + rest;
    assert(s =~= seq![0u8] + (enc_u64(i) + (enc_expr(x) + rest)));
    assert(s[0] == 0u8);
    assert(s.drop_first() =~= enc_u64(i) + (enc_expr(x) + rest));
    rt_u64(i, enc_expr(x) + rest);
    rt_expr(x, rest, fuel);
}

/// Decoding inverts encoding for a send statement.
proof fn rt_stmt_send(x: SpecExpr, d: Dir, rest: Seq<u8>, fuel: nat)
    requires
        wf_expr(x),
        fuel > enc_stmt(SpecStmt::Send(x, d)).len(),
    ensures
        dec_stmt(enc_stmt(SpecStmt::Send(x, d)) + rest, fuel) == Option::Some(
            (SpecStmt::Send(x, d), rest),
        ),
{
    let s = enc_stmt(SpecStmt::Send(x, d)) + rest;
    assert(s =~= seq![1u8] + (enc_expr(x) + (seq![dir_byte(d)] + rest)));
    assert(s[0] == 1u8);
    assert(s.drop_first() =~= enc_expr(x) + (seq![dir_byte(d)] + rest));
    rt_expr(x, seq![dir_byte(d)] + rest, fuel);
    assert((seq![dir_byte(d)] + rest)[0] == dir_byte(d));
    assert((seq![dir_byte(d)] + rest).drop_first() =~= rest);
}

/// Decoding inverts encoding for a conditional statement.
#[verifier::rlimit(60)]
proof fn rt_stmt_if(
    c: SpecExpr,
    a: Seq<SpecStmt>,
    b: Seq<SpecStmt>,
    rest: Seq<u8>,
    fuel: nat,
)
    requires
        wf_expr(c),
        wf_stmts(a),
        wf_stmts(b),
        fuel > enc_stmt(SpecStmt::If(c, a, b)).len(),
        dec_stmts(enc_stmts(a) + (enc_stmts(b) + rest), (fuel - 1) as nat) == Option::Some(
            (a, enc_stmts(b) + rest),
        ),
        dec_stmts(enc_stmts(b) + rest, (fuel - 1) as nat) == Option::Some((b, rest)),
    ensures
        dec_stmt(enc_stmt(SpecStmt::If(c, a, b)) + rest, fuel) == Option::Some(
            (SpecStmt::If(c, a, b), rest),
        ),
{
    let s = enc_stmt(SpecStmt::If(c, a, b)) + rest;
    let ec = enc_expr(c);
    let ta = enc_stmts(a);
    let tb = enc_stmts(b);
    assert(s =~= seq![2u8] + (ec + (ta + (tb + rest))));
    assert(s[0] == 2u8);
    assert(s.drop_first() =~= ec + (ta + (tb + rest)));
    rt_expr(c, ta + (tb + rest), fuel);
}

/// Decoding inverts encoding for statements.
pub proof fn rt_stmt(st: SpecStmt, rest: Seq<u8>, fuel: nat)
    requires
        wf_stmt(st),
        fuel > enc_stmt(st).len(),
    ensures
        dec_stmt(enc_stmt(st) + rest, fuel) == Option::Some((st, rest)),
    decreases st, 2int,
{
    match st {
        SpecStmt::Assign(i, x) => {
            rt_stmt_assign(i, x, rest, fuel);
        },
        SpecStmt::Send(x, d) => {
            rt_stmt_send(x, d, rest, fuel);
        },
        SpecStmt::If(c, a, b) => {
            rt_stmts(a, enc_stmts(b) + rest, (fuel - 1) as nat);
            rt_stmts(b, rest, (fuel - 1) as nat);
            rt_stmt_if(c, a, b, rest, fuel);
        },
    }
}

/// Decoding inverts encoding for a run of statements.
pub proof fn rt_items(ss: Seq<SpecStmt>, rest: Seq<u8>, fuel: nat)
    requires
        wf_sitems(ss),
        fuel > enc_items(ss).len(),
    ensures
        dec_items(enc_items(ss) + rest, ss.len(), fuel) == Option::Some((ss, rest)),
    decreases ss, 0int,
{
    if ss.len() == 0 {
        assert(enc_items(ss) + rest =~= rest);
        assert(Seq::<SpecStmt>::empty() + ss =~= ss);
    } else {
        lemma_items_front(ss);
        assert(forall|i: int| 0 <= i < ss.len() - 1 ==> ss.drop_first()[i] == ss[i + 1]);
        let e0 = enc_stmt(ss[0]);
        let etail = enc_items(ss.drop_first());
        assert(enc_items(ss) + rest =~= e0 + (etail + rest));
        rt_stmt(ss[0], etail + rest, fuel);
        rt_items(ss.drop_first(), rest, fuel);
        assert(seq![ss[0]] + ss.drop_first() =~= ss);
    }
}

/// Decoding inverts encoding for statement lists.
pub proof fn rt_stmts(ss: Seq<SpecStmt>, rest: Seq<u8>, fuel: nat)
    requires
        wf_stmts(ss),
        fuel > enc_stmts(ss).len(),
    ensures
        dec_stmts(enc_stmts(ss) + rest, fuel) == Option::Some((ss, rest)),
    decreases ss, 1int,
{
    assert(enc_stmts(ss) + rest =~= enc_u64(ss.len() as u64) + (enc_items(ss) + rest));
    rt_u64(ss.len() as u64, enc_items(ss) + rest);
    rt_items(ss, rest, fuel);
}

/// Decoding inverts encoding for fields.
pub proof fn rt_field(f: SpecField, rest: Seq<u8>, fuel: nat)
    requires
        wf_field(f),
        fuel > enc_field(f).len(),
    ensures
        dec_field(enc_field(f) + rest, fuel) == Option::Some((f, rest)),
    decreases f,
{
    let mb: u8 = if f.mutable {
        1u8
    } else {
        0u8
    };
    assert(enc_field(f) + rest =~= enc_bytes(f.name) + (seq![mb] + (enc_expr(f.init) + rest)));
    rt_bytes(f.name, seq![mb] + (enc_expr(f.init) + rest));
    assert((seq![mb] + (enc_expr(f.init) + rest))[0] == mb);
    assert((seq![mb] + (enc_expr(f.init) + rest)).drop_first() =~= enc_expr(f.init) + rest);
    rt_expr(f.init, rest, fuel);
}

/// Decoding inverts encoding for a run of fields.
pub proof fn rt_fields(fs: Seq<SpecField>, rest: Seq<u8>, fuel: nat)
    requires
        wf_fitems(fs),
        fuel > enc_fitems(fs).len(),
    ensures
        dec_fields(enc_fitems(fs) + rest, fs.len(), fuel) == Option::Some((fs, rest)),
    decreases fs,
{
    if fs.len() == 0 {
        assert(enc_fitems(fs) + rest =~= rest);
        assert(Seq::<SpecField>::empty() + fs =~= fs);
    } else {
        lemma_fitems_front(fs);
        assert(forall|i: int| 0 <= i < fs.len() - 1 ==> fs.drop_first()[i] == fs[i + 1]);
        let e0 = enc_field(fs[0]);
        let etail = enc_fitems(fs.drop_first());
        assert(enc_fitems(fs) + rest =~= e0 + (etail + rest));
        rt_field(fs[0], etail + rest, fuel);
        rt_fields(fs.drop_first(), rest, fuel);
        assert(seq![fs[0]] + fs.drop_first() =~= fs);
    }
}

/// Decoding inverts encoding for an optional handler body.
pub proof fn rt_opt(b: Option<Seq<SpecStmt>>, rest: Seq<u8>, fuel: nat)
    requires
        wf_opt(b),
        fuel > enc_opt(b).len(),
    ensures
        dec_opt(enc_opt(b) + rest, fuel) == Option::Some((b, rest)),
    decreases b,
{
    match b {
        Option::None => {
            assert((enc_opt(b) + rest)[0] == 0u8);
            assert((enc_opt(b) + rest).drop_first() =~= rest);
        },
        Option::Some(ss) => {
            assert(enc_opt(b) + rest =~= seq![1u8] + (enc_stmts(ss) + rest));
            assert((enc_opt(b) + rest)[0] == 1u8);
            assert((enc_opt(b) + rest).drop_first() =~= enc_stmts(ss) + rest);
            rt_stmts(ss, rest, fuel);
        },
    }
}

/// Round-trip law of the embedded-logic payload: decoding the code of any
/// well-formed element reproduces that element exactly — the fallback
/// loses nothing.
#[verifier::rlimit(60)]
pub proof fn rt_elem(v: SpecElem, rest: Seq<u8>, fuel: nat)
    requires
        wf_elem(v),
        fuel > enc_elem(v).len(),
    ensures
        dec_elem(enc_elem(v) + rest, fuel) == Option::Some((v, rest)),
{
    let e1 = enc_u64(v.fields.len() as u64);
    let e2 = enc_fitems(v.fields);
    let e3 = enc_opt(v.req);
    let e4 = enc_opt(v.resp);
    assert(enc_elem(v) + rest =~= enc_bytes(v.name) + (e1 + (e2 + (e3 + (e4 + rest)))));
    rt_bytes(v.name, e1 + (e2 + (e3 + (e4 + rest))));
    rt_u64(v.fields.len() as u64, e2 + (e3 + (e4 + rest)));
    rt_fields(v.fields, e3 + (e4 + rest), fuel);
    rt_opt(v.req, e4 + rest, fuel);
    rt_opt(v.resp, rest, fuel);
}

/// Values built from machine vectors are well formed.
pub proof fn lemma_wf_expr(e: IExpr)
    ensures
        wf_expr(expr_view(e)),
    decreases e,
{
    match e {
        IExpr::ErrLit(m) => {
            assert(vstd::std_specs::vec::spec_vec_len(&m) == m@.len());
        },
        IExpr::Rand(a, b) => {
            lemma_wf_expr(*a);
            lemma_wf_expr(*b);
        },
        IExpr::Lt(a, b) => {
            lemma_wf_expr(*a);
            lemma_wf_expr(*b);
        },
        _ => {},
    }
}

pub proof fn lemma_wf_stmt(s: IStmt)
    ensures
        wf_stmt(stmt_view(s)),
    decreases s,
{
    match s {
        IStmt::Assign(_, x) => {
            lemma_wf_expr(x);
        },
        IStmt::Send(x, _) => {
            lemma_wf_expr(x);
        },
        IStmt::If(c, a, b) => {
            lemma_wf_expr(c);
            lemma_wf_vec_stmts(a);
            lemma_wf_vec_stmts(b);
        },
    }
}

pub proof fn lemma_wf_vec_stmts(v: Vec<IStmt>)
    ensures
        wf_stmts(stmts_view(v@)),
    decreases v,
{
    crate::ir::lemma_stmts_view_index(v@);
    assert(vstd::std_specs::vec::spec_vec_len(&v) == v@.len());
    assert forall|i: int| 0 <= i < stmts_view(v@).len() implies wf_stmt(
        #[trigger] stmts_view(v@)[i],
    ) by {
        assert(decreases_to!(v => v@[i]));
        lemma_wf_stmt(v@[i]);
    }
}

pub proof fn lemma_wf_elem(ir: IrElement)
    ensures
        wf_elem(elem_view(ir)),
{
    assert(vstd::std_specs::vec::spec_vec_len(&ir.name) == ir.name@.len());
    assert(vstd::std_specs::vec::spec_vec_len(&ir.fields) == ir.fields@.len());
    assert forall|i: int| 0 <= i < fields_view(ir.fields@).len() implies wf_field(
        #[trigger] fields_view(ir.fields@)[i],
    ) by {
        let f = ir.fields@[i];
        assert(vstd::std_specs::vec::spec_vec_len(&f.name) == f.name@.len());
        lemma_wf_expr(f.init);
        assert(fields_view(ir.fields@)[i] == field_view(f));
    }
    match ir.req {
        Option::Some(v) => lemma_wf_vec_stmts(v),
        Option::None => {},
    }
    match ir.resp {
        Option::Some(v) => lemma_wf_vec_stmts(v),
        Option::None => {},
    }
}

/// Fallback-safety law, byte level: the embedded payload of any element
/// decodes back to exactly that element's IR — the fallback loses
/// nothing.
pub proof fn lemma_embedded_round_trip(ir: IrElement, fuel: nat)
    requires
        fuel > enc_elem(elem_view(ir)).len(),
    ensures
        dec_elem(enc_elem(elem_view(ir)), fuel) == Option::Some(
            (elem_view(ir), Seq::<u8>::empty()),
        ),
{
    lemma_wf_elem(ir);
    rt_elem(elem_view(ir), Seq::empty(), fuel);
    assert(enc_elem(elem_view(ir)) + Seq::<u8>::empty() =~= enc_elem(elem_view(ir)));
}

} // verus!
