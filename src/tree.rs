//! The syntax tree of a module, as far as the rewriter reads it, and the
//! walk over it: which statements and expressions are entered, in which
//! order, and the events that the walk meets there.
use vstd::prelude::*;
use crate::rewrite::{Arg, Callee, Event, Span};

verus! {

/// An expression.
#[allow(inconsistent_fields)]
pub enum Expr {
    Call { range: Span, callee: Callee, args: Vec<Expr>, keywords: Vec<Expr> },
    /// A string literal, without interpolation.
    Str { range: Span, value: String },
    /// An interpolated string (an f-string).
    Interpolated,
    Name { range: Span, id: String },
    BinOp { left: Box<Expr>, right: Box<Expr> },
    UnaryOp { operand: Box<Expr> },
    /// A lambda, by its body.
    Lambda { body: Box<Expr> },
    /// `body if test else orelse`
    IfExp { test: Box<Expr>, body: Box<Expr>, orelse: Box<Expr> },
    List { elts: Vec<Expr> },
    Tuple { elts: Vec<Expr> },
    SetDisplay { elts: Vec<Expr> },
    /// A dictionary display, as its `DictItem`s.
    Dict { items: Vec<Expr> },
    /// One entry of a dictionary display; `key` is `Other` for `**value`.
    DictItem { key: Box<Expr>, value: Box<Expr> },
    /// A list comprehension, by its element.
    ListComp { elt: Box<Expr> },
    /// A set comprehension, by its element.
    SetComp { elt: Box<Expr> },
    /// A dictionary comprehension, by its key and value.
    DictComp { key: Box<Expr>, value: Box<Expr> },
    /// Anything else.
    Other,
}

/// One name of an import statement.
pub struct Alias {
    pub name: String,
    pub asname: Option<String>,
}

/// A statement.
#[allow(inconsistent_fields)]
pub enum Stmt {
    Import { names: Vec<Alias> },
    /// `from module import ...`; `module` is `None` for a relative import
    /// without one.
    ImportFrom { module: Option<String>, names: Vec<Alias> },
    FunctionDef { name: String, body: Vec<Stmt> },
    ClassDef { name: String, body: Vec<Stmt> },
    Expr { value: Expr },
    Assign { targets: Vec<Expr>, value: Expr },
    AnnAssign { target: Expr, value: Option<Expr> },
    /// An `if`; an `elif` chain is an `If` in `orelse`.
    If { test: Expr, body: Vec<Stmt>, orelse: Vec<Stmt> },
    While { test: Expr, body: Vec<Stmt>, orelse: Vec<Stmt> },
    For { iter: Expr, body: Vec<Stmt>, orelse: Vec<Stmt> },
    With { items: Vec<Expr>, body: Vec<Stmt> },
    /// A `try`; each of `handlers` is an `ExceptHandler`.
    Try { body: Vec<Stmt>, handlers: Vec<Stmt>, orelse: Vec<Stmt>, finalbody: Vec<Stmt> },
    /// One `except` clause of a `try`.
    ExceptHandler { body: Vec<Stmt> },
    /// Anything else.
    Other,
}

/// An expression seen as a call's argument or an assigned value.
pub open spec fn arg_of(e: Expr) -> Arg {
    match e {
        Expr::Str { range, value } => Arg::Str { range, value },
        Expr::Interpolated => Arg::Interpolated,
        Expr::Name { range, id } => Arg::Name { range, id },
        _ => Arg::Other,
    }
}

/// The events of a walk of an expression.
pub open spec fn expr_events(e: Expr) -> Seq<Event>
    decreases e,
{
    match e {
        Expr::Call { range, callee, args, keywords } => {
            let sub = exprs_events(args@, args@.len() as int) + exprs_events(keywords@, keywords@.len() as int);
            seq![Event::Call {
                range,
                callee,
                first_arg: if args@.len() > 0 { Some(arg_of(args@[0])) } else { None },
                inner: sub.len() as usize,
            }] + sub
        },
        Expr::BinOp { left, right } => expr_events(*left) + expr_events(*right),
        Expr::UnaryOp { operand } => expr_events(*operand),
        Expr::Lambda { body } => expr_events(*body),
        Expr::IfExp { test, body, orelse } => expr_events(*test) + expr_events(*body) + expr_events(*orelse),
        Expr::List { elts } => exprs_events(elts@, elts@.len() as int),
        Expr::Tuple { elts } => exprs_events(elts@, elts@.len() as int),
        Expr::SetDisplay { elts } => exprs_events(elts@, elts@.len() as int),
        Expr::Dict { items } => exprs_events(items@, items@.len() as int),
        Expr::DictItem { key, value } => expr_events(*key) + expr_events(*value),
        Expr::ListComp { elt } => expr_events(*elt),
        Expr::SetComp { elt } => expr_events(*elt),
        Expr::DictComp { key, value } => expr_events(*key) + expr_events(*value),
        _ => Seq::empty(),
    }
}

/// The events of the first `n` expressions, in order.
pub open spec fn exprs_events(es: Seq<Expr>, n: int) -> Seq<Event>
    decreases es, n,
{
    if n <= 0 || n > es.len() {
        Seq::empty()
    } else {
        exprs_events(es, n - 1) + expr_events(es[n - 1])
    }
}

pub open spec fn import_events(names: Seq<Alias>) -> Seq<Event> {
    names.map_values(|a: Alias| Event::Import { module: a.name, asname: a.asname })
}

pub open spec fn import_from_events(module: String, names: Seq<Alias>) -> Seq<Event> {
    names.map_values(|a: Alias| Event::ImportFrom { module, name: a.name, asname: a.asname })
}

/// The assignment of `value` to a bare name, where `target` is one.
pub open spec fn assign_event(target: Expr, value: Expr) -> Seq<Event> {
    match target {
        Expr::Name { id, .. } => seq![Event::Assign { target: id, value: arg_of(value) }],
        _ => Seq::empty(),
    }
}

/// The events of a walk of a statement.
pub open spec fn stmt_events(s: Stmt) -> Seq<Event>
    decreases s,
{
    match s {
        Stmt::Import { names } => import_events(names@),
        Stmt::ImportFrom { module, names } => match module {
            Some(m) => import_from_events(m, names@),
            None => Seq::empty(),
        },
        Stmt::FunctionDef { name, body } => seq![Event::Define { name }] + stmts_events(body@, body@.len() as int)
            + seq![Event::EndDefine],
        Stmt::ClassDef { name, body } => seq![Event::Define { name }] + stmts_events(body@, body@.len() as int)
            + seq![Event::EndDefine],
        Stmt::Expr { value } => expr_events(value),
        Stmt::Assign { targets, value } => (if targets@.len() == 1 {
            assign_event(targets@[0], value)
        } else {
            Seq::empty()
        }) + expr_events(value),
        Stmt::AnnAssign { target, value } => match value {
            Some(v) => assign_event(target, v) + expr_events(v),
            None => Seq::empty(),
        },
        Stmt::If { test, body, orelse } => expr_events(test) + stmts_events(body@, body@.len() as int)
            + stmts_events(orelse@, orelse@.len() as int),
        Stmt::While { test, body, orelse } => expr_events(test) + stmts_events(body@, body@.len() as int)
            + stmts_events(orelse@, orelse@.len() as int),
        Stmt::For { iter, body, orelse } => expr_events(iter) + stmts_events(body@, body@.len() as int)
            + stmts_events(orelse@, orelse@.len() as int),
        Stmt::With { items, body } => exprs_events(items@, items@.len() as int) + stmts_events(
            body@,
            body@.len() as int,
        ),
        Stmt::Try { body, handlers, orelse, finalbody } => stmts_events(body@, body@.len() as int)
            + stmts_events(handlers@, handlers@.len() as int) + stmts_events(orelse@, orelse@.len() as int)
            + stmts_events(finalbody@, finalbody@.len() as int),
        Stmt::ExceptHandler { body } => stmts_events(body@, body@.len() as int),
        Stmt::Other => Seq::empty(),
    }
}

/// The events of the first `n` statements, in order.
pub open spec fn stmts_events(ss: Seq<Stmt>, n: int) -> Seq<Event>
    decreases ss, n,
{
    if n <= 0 || n > ss.len() {
        Seq::empty()
    } else {
        stmts_events(ss, n - 1) + stmt_events(ss[n - 1])
    }
}

/// An expression seen as a call's argument or an assigned value.
pub fn arg_from(e: &Expr) -> (r: Arg)
    ensures
        r == arg_of(*e),
{
    match e {
        Expr::Str { range, value } => Arg::Str { range: *range, value: value.clone() },
        Expr::Interpolated => Arg::Interpolated,
        Expr::Name { range, id } => Arg::Name { range: *range, id: id.clone() },
        _ => Arg::Other,
    }
}

/// Appends the events of a walk of `e`.
pub fn visit_expr(e: Expr, out: &mut Vec<Event>)
    ensures
        final(out)@ == old(out)@ + expr_events(e),
    decreases e,
{
    let ghost e0 = e;
    match e {
        Expr::Call { range, callee, args, keywords } => {
            let first_arg = if args.len() > 0 {
                Some(arg_from(&args[0]))
            } else {
                None
            };
            let mut sub: Vec<Event> = Vec::new();
            visit_exprs(args, &mut sub);
            visit_exprs(keywords, &mut sub);
            let n = sub.len();
            out.push(Event::Call { range, callee, first_arg, inner: n });
            out.append(&mut sub);
        },
        Expr::BinOp { left, right } => {
            visit_expr(*left, out);
            visit_expr(*right, out);
        },
        Expr::UnaryOp { operand } => visit_expr(*operand, out),
        Expr::Lambda { body } => visit_expr(*body, out),
        Expr::IfExp { test, body, orelse } => {
            visit_expr(*test, out);
            visit_expr(*body, out);
            visit_expr(*orelse, out);
        },
        Expr::List { elts } => visit_exprs(elts, out),
        Expr::Tuple { elts } => visit_exprs(elts, out),
        Expr::SetDisplay { elts } => visit_exprs(elts, out),
        Expr::Dict { items } => visit_exprs(items, out),
        Expr::DictItem { key, value } => {
            visit_expr(*key, out);
            visit_expr(*value, out);
        },
        Expr::ListComp { elt } => visit_expr(*elt, out),
        Expr::SetComp { elt } => visit_expr(*elt, out),
        Expr::DictComp { key, value } => {
            visit_expr(*key, out);
            visit_expr(*value, out);
        },
        _ => {},
    }
    assert(final(out)@ =~= old(out)@ + expr_events(e0));
}

/// Appends the events of a walk of each expression, in order.
pub fn visit_exprs(es: Vec<Expr>, out: &mut Vec<Event>)
    ensures
        final(out)@ == old(out)@ + exprs_events(es@, es@.len() as int),
    decreases es,
{
    let ghost all = es@;
    let ghost es0 = es;
    let ghost start = out@;
    let mut rest = es;
    let mut i: usize = 0;
    let n = rest.len();
    assert(all.skip(0) =~= all);
    while i < n
        invariant
            n == all.len(),
            all == es0@,
            es0 == es,
            i <= n,
            rest@ == all.skip(i as int),
            out@ == start + exprs_events(all, i as int),
        decreases n - i,
    {
        let x = rest.remove(0);
        assert(x == all[i as int]);
        assert(rest@ =~= all.skip(i as int + 1));
        proof {
            vstd::std_specs::vec::axiom_vec_index_decreases(es0, i as int);
            assert(x == es0[i as int]);
        }
        visit_expr(x, out);
        assert(out@ =~= start + exprs_events(all, i as int + 1));
        i = i + 1;
    }
}

fn visit_imports(names: Vec<Alias>, out: &mut Vec<Event>)
    ensures
        final(out)@ == old(out)@ + import_events(names@),
{
    let ghost all = names@;
    let ghost start = out@;
    let mut rest = names;
    let n = rest.len();
    let mut i: usize = 0;
    assert(all.skip(0) =~= all);
    while i < n
        invariant
            n == all.len(),
            i <= n,
            rest@ == all.skip(i as int),
            out@ == start + import_events(all.take(i as int)),
        decreases n - i,
    {
        let a = rest.remove(0);
        assert(a == all[i as int]);
        assert(rest@ =~= all.skip(i as int + 1));
        out.push(Event::Import { module: a.name, asname: a.asname });
        assert(all.take(i as int + 1) =~= all.take(i as int).push(a));
        assert(out@ =~= start + import_events(all.take(i as int + 1)));
        i = i + 1;
    }
    assert(all.take(n as int) =~= all);
}

fn visit_imports_from(module: String, names: Vec<Alias>, out: &mut Vec<Event>)
    ensures
        final(out)@ == old(out)@ + import_from_events(module, names@),
{
    let ghost all = names@;
    let ghost start = out@;
    let mut rest = names;
    let n = rest.len();
    let mut i: usize = 0;
    assert(all.skip(0) =~= all);
    while i < n
        invariant
            n == all.len(),
            i <= n,
            rest@ == all.skip(i as int),
            out@ == start + import_from_events(module, all.take(i as int)),
        decreases n - i,
    {
        let a = rest.remove(0);
        assert(a == all[i as int]);
        assert(rest@ =~= all.skip(i as int + 1));
        out.push(Event::ImportFrom { module: module.clone(), name: a.name, asname: a.asname });
        assert(all.take(i as int + 1) =~= all.take(i as int).push(a));
        assert(out@ =~= start + import_from_events(module, all.take(i as int + 1)));
        i = i + 1;
    }
    assert(all.take(n as int) =~= all);
}

fn visit_assign(target: &Expr, value: &Expr, out: &mut Vec<Event>)
    ensures
        final(out)@ == old(out)@ + assign_event(*target, *value),
{
    match target {
        Expr::Name { id, .. } => {
            out.push(Event::Assign { target: id.clone(), value: arg_from(value) });
        },
        _ => {},
    }
    assert(final(out)@ =~= old(out)@ + assign_event(*target, *value));
}

/// Appends the events of a walk of `s`.
pub fn visit_stmt(s: Stmt, out: &mut Vec<Event>)
    ensures
        final(out)@ == old(out)@ + stmt_events(s),
    decreases s,
{
    let ghost s0 = s;
    match s {
        Stmt::Import { names } => visit_imports(names, out),
        Stmt::ImportFrom { module, names } => match module {
            Some(m) => visit_imports_from(m, names, out),
            None => {},
        },
        Stmt::FunctionDef { name, body } => {
            out.push(Event::Define { name });
            visit_stmts(body, out);
            out.push(Event::EndDefine);
        },
        Stmt::ClassDef { name, body } => {
            out.push(Event::Define { name });
            visit_stmts(body, out);
            out.push(Event::EndDefine);
        },
        Stmt::Expr { value } => visit_expr(value, out),
        Stmt::Assign { targets, value } => {
            if targets.len() == 1 {
                visit_assign(&targets[0], &value, out);
            }
            visit_expr(value, out);
        },
        Stmt::AnnAssign { target, value } => match value {
            Some(v) => {
                visit_assign(&target, &v, out);
                visit_expr(v, out);
            },
            None => {},
        },
        Stmt::If { test, body, orelse } => {
            visit_expr(test, out);
            visit_stmts(body, out);
            visit_stmts(orelse, out);
        },
        Stmt::While { test, body, orelse } => {
            visit_expr(test, out);
            visit_stmts(body, out);
            visit_stmts(orelse, out);
        },
        Stmt::For { iter, body, orelse } => {
            visit_expr(iter, out);
            visit_stmts(body, out);
            visit_stmts(orelse, out);
        },
        Stmt::With { items, body } => {
            visit_exprs(items, out);
            visit_stmts(body, out);
        },
        Stmt::Try { body, handlers, orelse, finalbody } => {
            visit_stmts(body, out);
            visit_stmts(handlers, out);
            visit_stmts(orelse, out);
            visit_stmts(finalbody, out);
        },
        Stmt::ExceptHandler { body } => visit_stmts(body, out),
        Stmt::Other => {},
    }
    assert(final(out)@ =~= old(out)@ + stmt_events(s0));
}

/// Appends the events of a walk of each statement, in order.
pub fn visit_stmts(ss: Vec<Stmt>, out: &mut Vec<Event>)
    ensures
        final(out)@ == old(out)@ + stmts_events(ss@, ss@.len() as int),
    decreases ss,
{
    let ghost all = ss@;
    let ghost ss0 = ss;
    let ghost start = out@;
    let mut rest = ss;
    let mut i: usize = 0;
    let n = rest.len();
    assert(all.skip(0) =~= all);
    while i < n
        invariant
            n == all.len(),
            all == ss0@,
            ss0 == ss,
            i <= n,
            rest@ == all.skip(i as int),
            out@ == start + stmts_events(all, i as int),
        decreases n - i,
    {
        let x = rest.remove(0);
        assert(x == all[i as int]);
        assert(rest@ =~= all.skip(i as int + 1));
        proof {
            vstd::std_specs::vec::axiom_vec_index_decreases(ss0, i as int);
            assert(x == ss0[i as int]);
        }
        visit_stmt(x, out);
        assert(out@ =~= start + stmts_events(all, i as int + 1));
        i = i + 1;
    }
}

/// The events of a walk of a module's statements.
pub fn module_events(body: Vec<Stmt>) -> (r: Vec<Event>)
    ensures
        r@ == stmts_events(body@, body@.len() as int),
{
    let mut out: Vec<Event> = Vec::new();
    visit_stmts(body, &mut out);
    assert(out@ =~= stmts_events(body@, body@.len() as int));
    out
}

} // verus!
