//! What toylang programs mean, as they are written and as they are typed.
//!
//! A program works on places in memory, which its variables name. Integers are
//! numbers without bounds. What functions do is given from outside.
use crate::names::{find, put};
use crate::toylang::ast::{BinOp, BlockView, ExprView, StmtView};
use crate::toylang::registry::ToyParamView;
use crate::toylang::typed_ast::{demote_all, ResolvedTypeView, SourceTypeView, TypedBlockView, TypedExprKindView, TypedExprView, TypedStmtView};
use vstd::prelude::*;

verus! {

broadcast use vstd::seq::group_seq_axioms;

/// A value.
pub enum Value {
    Unit,
    Int(int),
    Bool(bool),
    Text(Seq<char>),
    Bytes(Seq<u8>),
    Record { name: Seq<char>, fields: Seq<(Seq<char>, Value)> },
    Ref(Place),
    /// A value of a Rust type.
    Foreign(int),
}

/// A place in memory: a whole value, or a field of one.
pub struct Place {
    pub base: nat,
    pub path: Seq<Seq<char>>,
}

/// What an expression comes to: a value, or the place where it is.
pub enum Outcome {
    Value(Value),
    Place(Place),
}

/// What a program works on.
pub struct State {
    /// The places that the variables name.
    pub vars: Seq<(Seq<char>, Place)>,
    pub memory: Seq<Value>,
    /// Whatever else functions of the Rust side work on.
    pub outside: int,
}

/// What is called.
pub enum Callee {
    Function { name: Seq<char>, type_args: Seq<SourceTypeView> },
    Path { ty: Seq<char>, method: Seq<char>, type_args: Seq<SourceTypeView> },
    Method { method: Seq<char> },
}

/// What a program runs in.
pub struct World {
    /// What calls do: from the arguments, the memory and the outside to the
    /// result and to what these are then.
    pub calls: spec_fn(Callee, Seq<Value>, Seq<Value>, int) -> Option<(Value, Seq<Value>, int)>,
    /// Whether a typed program comes to nothing where a field is read of a
    /// value that is not of the type that it has.
    pub checked: bool,
}

/// The part of a value at a path.
pub open spec fn part(v: Value, path: Seq<Seq<char>>) -> Option<Value>
    decreases path.len(),
{
    if path.len() == 0 {
        Some(v)
    } else {
        match v {
            Value::Record { name, fields } => match find(fields, path[0]) {
                Some(inner) => part(inner, path.drop_first()),
                None => None,
            },
            _ => None,
        }
    }
}

/// A value with another part at a path.
pub open spec fn with_part(v: Value, path: Seq<Seq<char>>, new: Value) -> Option<Value>
    decreases path.len(),
{
    if path.len() == 0 {
        Some(new)
    } else {
        match v {
            Value::Record { name, fields } => match find(fields, path[0]) {
                Some(inner) => match with_part(inner, path.drop_first(), new) {
                    Some(w) => Some(Value::Record { name, fields: put(fields, path[0], w) }),
                    None => None,
                },
                None => None,
            },
            _ => None,
        }
    }
}

/// What is at a place.
pub open spec fn read(memory: Seq<Value>, p: Place) -> Option<Value> {
    if p.base < memory.len() {
        part(memory[p.base as int], p.path)
    } else {
        None
    }
}

/// The memory with another value at a place.
pub open spec fn put_at(memory: Seq<Value>, p: Place, v: Value) -> Option<Seq<Value>> {
    if p.base < memory.len() {
        match with_part(memory[p.base as int], p.path, v) {
            Some(w) => Some(memory.update(p.base as int, w)),
            None => None,
        }
    } else {
        None
    }
}

/// The value of what an expression came to.
pub open spec fn value_of(o: Outcome, st: State) -> Option<Value> {
    match o {
        Outcome::Value(v) => Some(v),
        Outcome::Place(p) => read(st.memory, p),
    }
}

/// A place that holds what an expression came to: a new one for a value.
pub open spec fn place_of(o: Outcome, st: State) -> (Place, State) {
    match o {
        Outcome::Place(p) => (p, st),
        Outcome::Value(v) => (
            Place { base: st.memory.len(), path: Seq::empty() },
            State { memory: st.memory.push(v), ..st },
        ),
    }
}

/// A variable that names the place of what an expression came to.
pub open spec fn bind(name: Seq<char>, o: Outcome, st: State) -> State {
    let (p, s1) = place_of(o, st);
    State { vars: put(s1.vars, name, p), ..s1 }
}

/// The state in which the body of a function starts: each parameter, from the
/// one of argument `at` on, names a new place that holds its argument.
pub open spec fn called(
    params: Seq<ToyParamView>,
    args: Seq<Value>,
    at: nat,
    st: State,
) -> State
    decreases params.len(),
{
    if params.len() == 0 {
        st
    } else {
        called(
            params.drop_first(),
            args,
            at + 1,
            bind(params[0].name, Outcome::Value(args[at as int]), st),
        )
    }
}

/// A division that cuts off towards zero.
pub open spec fn quotient(a: int, b: int) -> int {
    if b > 0 {
        if a >= 0 {
            a / b
        } else {
            -((-a) / b)
        }
    } else {
        if a >= 0 {
            -(a / (-b))
        } else {
            (-a) / (-b)
        }
    }
}

/// What an operator gives: arithmetic and order on numbers, logic on truth
/// values. Nothing is divided by zero.
pub open spec fn operate(op: BinOp, a: Value, b: Value) -> Option<Value> {
    match (a, b) {
        (Value::Int(x), Value::Int(y)) => match op {
            BinOp::Add => Some(Value::Int(x + y)),
            BinOp::Sub => Some(Value::Int(x - y)),
            BinOp::Mul => Some(Value::Int(x * y)),
            BinOp::Div => if y == 0 {
                None
            } else {
                Some(Value::Int(quotient(x, y)))
            },
            BinOp::Eq => Some(Value::Bool(x == y)),
            BinOp::Ne => Some(Value::Bool(x != y)),
            BinOp::Lt => Some(Value::Bool(x < y)),
            BinOp::Le => Some(Value::Bool(x <= y)),
            BinOp::Gt => Some(Value::Bool(x > y)),
            BinOp::Ge => Some(Value::Bool(x >= y)),
            _ => None,
        },
        (Value::Bool(x), Value::Bool(y)) => match op {
            BinOp::Eq => Some(Value::Bool(x == y)),
            BinOp::Ne => Some(Value::Bool(x != y)),
            BinOp::And => Some(Value::Bool(x && y)),
            BinOp::Or => Some(Value::Bool(x || y)),
            _ => None,
        },
        _ => None,
    }
}

/// The field of what an expression came to, or of what that refers to. A
/// struct or a value of a Rust type stays in its place.
pub open spec fn access(o: Outcome, field: Seq<char>, st: State) -> Option<(Outcome, State)> {
    match value_of(o, st) {
        None => None,
        Some(v) => {
            let (p, s1) = match v {
                Value::Ref(p) => (p, st),
                _ => place_of(o, st),
            };
            let q = Place { base: p.base, path: p.path.push(field) };
            match read(s1.memory, q) {
                None => None,
                Some(w) => if w is Record || w is Foreign {
                    Some((Outcome::Place(q), s1))
                } else {
                    Some((Outcome::Value(w), s1))
                },
            }
        },
    }
}

/// Whether a value is a struct of that name.
pub open spec fn is_struct(v: Option<Value>, name: Seq<char>) -> bool {
    match v {
        Some(Value::Record { name: n, fields }) => n == name,
        _ => false,
    }
}

/// Whether what an expression of type `ty` came to is of that type, as far as
/// the access to a field of type `field_ty` depends on it.
pub open spec fn access_checks(
    o: Outcome,
    ty: ResolvedTypeView,
    field: Seq<char>,
    field_ty: ResolvedTypeView,
    st: State,
) -> bool {
    let owner = match ty {
        ResolvedTypeView::Struct { name, type_args, field_types } => is_struct(
            value_of(o, st),
            name,
        ),
        ResolvedTypeView::Ref { inner } => match (*inner, value_of(o, st)) {
            (ResolvedTypeView::Struct { name, type_args, field_types }, Some(Value::Ref(p))) =>
                is_struct(read(st.memory, p), name),
            _ => false,
        },
        _ => false,
    };
    owner && match access(o, field, st) {
        Some((r, _)) => (r is Place) == (field_ty is Struct || field_ty is RustType),
        None => true,
    }
}

/// A call.
pub open spec fn call(c: Callee, args: Seq<Value>, st: State, w: World) -> Option<
    (Outcome, State),
> {
    match (w.calls)(c, args, st.memory, st.outside) {
        None => None,
        Some((v, memory, outside)) => Some(
            (Outcome::Value(v), State { memory, outside, ..st }),
        ),
    }
}

/// A struct without its fields.
pub open spec fn begin(name: Seq<char>, st: State) -> State {
    State { memory: st.memory.push(Value::Record { name, fields: Seq::empty() }), ..st }
}

/// The struct `owner` at `base` with one more field.
pub open spec fn fill(
    owner: Seq<char>,
    base: nat,
    field: Seq<char>,
    v: Value,
    st: State,
) -> Option<State> {
    if base < st.memory.len() {
        match st.memory[base as int] {
            Value::Record { name, fields } => if name == owner {
                Some(
                    State {
                        memory: st.memory.update(
                            base as int,
                            Value::Record { name, fields: put(fields, field, v) },
                        ),
                        ..st
                    },
                )
            } else {
                None
            },
            _ => None,
        }
    } else {
        None
    }
}

/// The memory once the variables that were rebound are written to the places
/// that they named before, one after the other.
pub open spec fn restore(
    before: Seq<(Seq<char>, Place)>,
    after: Seq<(Seq<char>, Place)>,
    memory: Seq<Value>,
) -> Option<Seq<Value>>
    decreases before.len(),
{
    if before.len() == 0 {
        Some(memory)
    } else {
        let (name, old_place) = before[0];
        let written = match find(after, name) {
            Some(p) if p != old_place => match read(memory, p) {
                Some(v) => put_at(memory, old_place, v),
                None => None,
            },
            _ => Some(memory),
        };
        match written {
            None => None,
            Some(m) => restore(before.drop_first(), after, m),
        }
    }
}

/// The state behind one round of a loop.
pub open spec fn round(before: State, after: State) -> Option<State> {
    match restore(before.vars, after.vars, after.memory) {
        None => None,
        Some(memory) => Some(State { vars: before.vars, memory, ..after }),
    }
}

/// The value of a branch that may have none. What it binds ends with it.
pub open spec fn branch_end(
    r: Option<(Option<Value>, State)>,
    vars: Seq<(Seq<char>, Place)>,
    both: bool,
) -> Option<(Outcome, State)> {
    match r {
        None => None,
        Some((v, st)) => Some(
            (
                Outcome::Value(
                    match v {
                        Some(v) if both => v,
                        _ => Value::Unit,
                    },
                ),
                State { vars, ..st },
            ),
        ),
    }
}

/// What an expression means as it is written: what it comes to and the state
/// behind it, if it comes to something with at most `fuel` rounds of a loop.
pub open spec fn eval(e: ExprView, st: State, fuel: nat, w: World) -> Option<(Outcome, State)>
    decreases fuel, e, 0int,
{
    match e {
        ExprView::IntLit(n, _) => Some((Outcome::Value(Value::Int(n as int)), st)),
        ExprView::BoolLit(b) => Some((Outcome::Value(Value::Bool(b)), st)),
        ExprView::StringLit(s) => Some((Outcome::Value(Value::Text(s)), st)),
        ExprView::ByteStringLit(b) => Some((Outcome::Value(Value::Bytes(b)), st)),
        ExprView::Var(name) => match find(st.vars, name) {
            None => None,
            Some(p) => Some((Outcome::Place(p), st)),
        },
        ExprView::UnaryNeg(inner) => match eval_value(*inner, st, fuel, w) {
            Some((Value::Int(n), s1)) => Some((Outcome::Value(Value::Int(-n)), s1)),
            _ => None,
        },
        ExprView::BinaryOp { op, left, right } => match eval_value(*left, st, fuel, w) {
            None => None,
            Some((a, s1)) => match eval_value(*right, s1, fuel, w) {
                None => None,
                Some((b, s2)) => match operate(op, a, b) {
                    None => None,
                    Some(v) => Some((Outcome::Value(v), s2)),
                },
            },
        },
        ExprView::Ref(inner) => match eval(*inner, st, fuel, w) {
            None => None,
            Some((o, s1)) => {
                let (p, s2) = place_of(o, s1);
                Some((Outcome::Value(Value::Ref(p)), s2))
            },
        },
        ExprView::FieldAccess { receiver, field } => match eval(*receiver, st, fuel, w) {
            None => None,
            Some((o, s1)) => access(o, field, s1),
        },
        ExprView::StructLit { name, type_args, fields } => match eval_fields(
            fields,
            name,
            st.memory.len(),
            begin(name, st),
            fuel,
            w,
        ) {
            None => None,
            Some(s1) => Some(
                (Outcome::Place(Place { base: st.memory.len(), path: Seq::empty() }), s1),
            ),
        },
        ExprView::FnCall { name, type_args, args } => match eval_all(args, st, fuel, w) {
            None => None,
            Some((vs, s1)) => call(Callee::Function { name, type_args }, vs, s1, w),
        },
        ExprView::StaticCall { ty, method, type_args, args } => match eval_all(args, st, fuel, w) {
            None => None,
            Some((vs, s1)) => call(Callee::Path { ty, method, type_args }, vs, s1, w),
        },
        ExprView::MethodCall { receiver, method, args } => match eval_value(
            *receiver,
            st,
            fuel,
            w,
        ) {
            None => None,
            Some((v, s1)) => match eval_all(args, s1, fuel, w) {
                None => None,
                Some((vs, s2)) => call(Callee::Method { method }, seq![v] + vs, s2, w),
            },
        },
        ExprView::If { cond, then_body, else_body } => match eval_value(*cond, st, fuel, w) {
            Some((Value::Bool(b), s1)) => match else_body {
                None => if b {
                    branch_end(eval_branch(*then_body, s1, fuel, w), s1.vars, false)
                } else {
                    Some((Outcome::Value(Value::Unit), s1))
                },
                Some(else_body) => {
                    let both = then_body.ret is Some && else_body.ret is Some;
                    if b {
                        branch_end(eval_branch(*then_body, s1, fuel, w), s1.vars, both)
                    } else {
                        branch_end(eval_branch(*else_body, s1, fuel, w), s1.vars, both)
                    }
                },
            },
            _ => None,
        },
    }
}

/// The value of an expression as it is written.
pub open spec fn eval_value(e: ExprView, st: State, fuel: nat, w: World) -> Option<(Value, State)>
    decreases fuel, e, 1int,
{
    match eval(e, st, fuel, w) {
        None => None,
        Some((o, s1)) => match value_of(o, s1) {
            None => None,
            Some(v) => Some((v, s1)),
        },
    }
}

/// The values of some expressions, one after the other.
pub open spec fn eval_all(es: Seq<ExprView>, st: State, fuel: nat, w: World) -> Option<
    (Seq<Value>, State),
>
    decreases fuel, es, 2int,
{
    if es.len() == 0 {
        Some((Seq::empty(), st))
    } else {
        match eval_value(es[0], st, fuel, w) {
            None => None,
            Some((v, s1)) => match eval_all(es.drop_first(), s1, fuel, w) {
                None => None,
                Some((vs, s2)) => Some((seq![v] + vs, s2)),
            },
        }
    }
}

/// The struct `owner` at `base` filled with some fields, one after the other.
pub open spec fn eval_fields(
    fields: Seq<(Seq<char>, ExprView)>,
    owner: Seq<char>,
    base: nat,
    st: State,
    fuel: nat,
    w: World,
) -> Option<State>
    decreases fuel, fields, 2int,
{
    if fields.len() == 0 {
        Some(st)
    } else {
        match eval_value(fields[0].1, st, fuel, w) {
            None => None,
            Some((v, s1)) => match fill(owner, base, fields[0].0, v, s1) {
                None => None,
                Some(s2) => eval_fields(fields.drop_first(), owner, base, s2, fuel, w),
            },
        }
    }
}

/// What a statement does as it is written.
pub open spec fn exec(s: StmtView, st: State, fuel: nat, w: World) -> Option<State>
    decreases fuel, s, 0int,
{
    match s {
        StmtView::Let { name, expr } => match eval(expr, st, fuel, w) {
            None => None,
            Some((o, s1)) => Some(bind(name, o, s1)),
        },
        StmtView::ExprStmt(expr) => match eval(expr, st, fuel, w) {
            None => None,
            Some((_, s1)) => Some(s1),
        },
        StmtView::Assign { name, expr } => match find(st.vars, name) {
            None => None,
            Some(p) => match eval_value(expr, st, fuel, w) {
                None => None,
                Some((v, s1)) => match put_at(s1.memory, p, v) {
                    None => None,
                    Some(memory) => Some(State { memory, ..s1 }),
                },
            },
        },
        StmtView::While { cond, body } => if fuel == 0 {
            None
        } else {
            match eval_value(cond, st, fuel, w) {
                Some((Value::Bool(true), s1)) => match eval_block(*body, s1, fuel, w) {
                    None => None,
                    Some((_, s2)) => match round(st, s2) {
                        None => None,
                        Some(s3) => exec(s, s3, (fuel - 1) as nat, w),
                    },
                },
                Some((Value::Bool(false), s1)) => Some(s1),
                _ => None,
            }
        },
    }
}

/// What some statements do, one after the other.
pub open spec fn exec_all(ss: Seq<StmtView>, st: State, fuel: nat, w: World) -> Option<State>
    decreases fuel, ss, 2int,
{
    if ss.len() == 0 {
        Some(st)
    } else {
        match exec(ss[0], st, fuel, w) {
            None => None,
            Some(s1) => exec_all(ss.drop_first(), s1, fuel, w),
        }
    }
}

/// What a block comes to as it is written.
pub open spec fn eval_block(b: BlockView, st: State, fuel: nat, w: World) -> Option<
    (Option<Outcome>, State),
>
    decreases fuel, b, 3int,
{
    match exec_all(b.stmts, st, fuel, w) {
        None => None,
        Some(s1) => match b.ret {
            None => Some((None, s1)),
            Some(e) => match eval(e, s1, fuel, w) {
                None => None,
                Some((o, s2)) => Some((Some(o), s2)),
            },
        },
    }
}

/// The value of a branch as it is written.
pub open spec fn eval_branch(b: BlockView, st: State, fuel: nat, w: World) -> Option<
    (Option<Value>, State),
>
    decreases fuel, b, 3int,
{
    match exec_all(b.stmts, st, fuel, w) {
        None => None,
        Some(s1) => match b.ret {
            None => Some((None, s1)),
            Some(e) => match eval_value(e, s1, fuel, w) {
                None => None,
                Some((v, s2)) => Some((Some(v), s2)),
            },
        },
    }
}

/// What an expression means as it is typed.
pub open spec fn typed_eval(e: TypedExprView, st: State, fuel: nat, w: World) -> Option<
    (Outcome, State),
>
    decreases fuel, e, 0int,
{
    match e.kind {
        TypedExprKindView::IntLit(n) => Some((Outcome::Value(Value::Int(n as int)), st)),
        TypedExprKindView::BoolLit(b) => Some((Outcome::Value(Value::Bool(b)), st)),
        TypedExprKindView::StringLit(s) => Some((Outcome::Value(Value::Text(s)), st)),
        TypedExprKindView::ByteStringLit(b) => Some((Outcome::Value(Value::Bytes(b)), st)),
        TypedExprKindView::Var(name) => match find(st.vars, name) {
            None => None,
            Some(p) => Some((Outcome::Place(p), st)),
        },
        TypedExprKindView::BinaryOp { op, left, right } => match typed_value(*left, st, fuel, w) {
            None => None,
            Some((a, s1)) => match typed_value(*right, s1, fuel, w) {
                None => None,
                Some((b, s2)) => match operate(op, a, b) {
                    None => None,
                    Some(v) => Some((Outcome::Value(v), s2)),
                },
            },
        },
        TypedExprKindView::Ref(inner) => match typed_eval(*inner, st, fuel, w) {
            None => None,
            Some((o, s1)) => {
                let (p, s2) = place_of(o, s1);
                Some((Outcome::Value(Value::Ref(p)), s2))
            },
        },
        TypedExprKindView::FieldAccess { receiver, field } => match typed_eval(
            *receiver,
            st,
            fuel,
            w,
        ) {
            None => None,
            Some((o, s1)) => if w.checked && !access_checks(o, receiver.ty, field, e.ty, s1) {
                None
            } else {
                access(o, field, s1)
            },
        },
        TypedExprKindView::StructLit { name, fields } => match typed_fields(
            fields,
            name,
            st.memory.len(),
            begin(name, st),
            fuel,
            w,
        ) {
            None => None,
            Some(s1) => Some(
                (Outcome::Place(Place { base: st.memory.len(), path: Seq::empty() }), s1),
            ),
        },
        TypedExprKindView::FnCall { name, type_args, args } => match typed_all(args, st, fuel, w) {
            None => None,
            Some((vs, s1)) => call(
                Callee::Function { name, type_args: demote_all(type_args) },
                vs,
                s1,
                w,
            ),
        },
        TypedExprKindView::StaticCall { ty, method, type_args, args } => match typed_all(
            args,
            st,
            fuel,
            w,
        ) {
            None => None,
            Some((vs, s1)) => call(
                Callee::Path { ty, method, type_args: demote_all(type_args) },
                vs,
                s1,
                w,
            ),
        },
        TypedExprKindView::MethodCall { receiver, method, args } => match typed_value(
            *receiver,
            st,
            fuel,
            w,
        ) {
            None => None,
            Some((v, s1)) => match typed_all(args, s1, fuel, w) {
                None => None,
                Some((vs, s2)) => call(Callee::Method { method }, seq![v] + vs, s2, w),
            },
        },
        TypedExprKindView::If { cond, then_stmts, then_expr, else_stmts, else_expr } =>
            match typed_value(*cond, st, fuel, w) {
            Some((Value::Bool(b), s1)) => {
                let both = then_expr is Some && else_expr is Some;
                if b {
                    match typed_exec_all(then_stmts, s1, fuel, w) {
                        None => None,
                        Some(s2) => branch_end(
                            typed_opt(then_expr, s2, fuel, w),
                            s1.vars,
                            both,
                        ),
                    }
                } else {
                    match typed_exec_all(else_stmts, s1, fuel, w) {
                        None => None,
                        Some(s2) => branch_end(
                            typed_opt(else_expr, s2, fuel, w),
                            s1.vars,
                            both,
                        ),
                    }
                }
            },
            _ => None,
        },
    }
}

/// The value of an expression as it is typed.
pub open spec fn typed_value(e: TypedExprView, st: State, fuel: nat, w: World) -> Option<
    (Value, State),
>
    decreases fuel, e, 1int,
{
    match typed_eval(e, st, fuel, w) {
        None => None,
        Some((o, s1)) => match value_of(o, s1) {
            None => None,
            Some(v) => Some((v, s1)),
        },
    }
}

/// The value of an expression that may be missing.
pub open spec fn typed_opt(
    e: Option<Box<TypedExprView>>,
    st: State,
    fuel: nat,
    w: World,
) -> Option<(Option<Value>, State)>
    decreases fuel, e, 2int,
{
    match e {
        None => Some((None, st)),
        Some(e) => match typed_value(*e, st, fuel, w) {
            None => None,
            Some((v, s1)) => Some((Some(v), s1)),
        },
    }
}

/// The values of some expressions, one after the other.
pub open spec fn typed_all(es: Seq<TypedExprView>, st: State, fuel: nat, w: World) -> Option<
    (Seq<Value>, State),
>
    decreases fuel, es, 2int,
{
    if es.len() == 0 {
        Some((Seq::empty(), st))
    } else {
        match typed_value(es[0], st, fuel, w) {
            None => None,
            Some((v, s1)) => match typed_all(es.drop_first(), s1, fuel, w) {
                None => None,
                Some((vs, s2)) => Some((seq![v] + vs, s2)),
            },
        }
    }
}

/// The struct `owner` at `base` filled with some fields, one after the other.
pub open spec fn typed_fields(
    fields: Seq<(Seq<char>, TypedExprView)>,
    owner: Seq<char>,
    base: nat,
    st: State,
    fuel: nat,
    w: World,
) -> Option<State>
    decreases fuel, fields, 2int,
{
    if fields.len() == 0 {
        Some(st)
    } else {
        match typed_value(fields[0].1, st, fuel, w) {
            None => None,
            Some((v, s1)) => match fill(owner, base, fields[0].0, v, s1) {
                None => None,
                Some(s2) => typed_fields(fields.drop_first(), owner, base, s2, fuel, w),
            },
        }
    }
}

/// What a statement does as it is typed.
pub open spec fn typed_exec(s: TypedStmtView, st: State, fuel: nat, w: World) -> Option<State>
    decreases fuel, s, 0int,
{
    match s {
        TypedStmtView::Let { name, expr } => match typed_eval(expr, st, fuel, w) {
            None => None,
            Some((o, s1)) => Some(bind(name, o, s1)),
        },
        TypedStmtView::ExprStmt(expr) => match typed_eval(expr, st, fuel, w) {
            None => None,
            Some((_, s1)) => Some(s1),
        },
        TypedStmtView::Assign { name, expr } => match find(st.vars, name) {
            None => None,
            Some(p) => match typed_value(expr, st, fuel, w) {
                None => None,
                Some((v, s1)) => match put_at(s1.memory, p, v) {
                    None => None,
                    Some(memory) => Some(State { memory, ..s1 }),
                },
            },
        },
        TypedStmtView::While { cond, body } => if fuel == 0 {
            None
        } else {
            match typed_value(cond, st, fuel, w) {
                Some((Value::Bool(true), s1)) => match typed_block(body, s1, fuel, w) {
                    None => None,
                    Some((_, s2)) => match round(st, s2) {
                        None => None,
                        Some(s3) => typed_exec(s, s3, (fuel - 1) as nat, w),
                    },
                },
                Some((Value::Bool(false), s1)) => Some(s1),
                _ => None,
            }
        },
    }
}

/// What some statements do, one after the other.
pub open spec fn typed_exec_all(ss: Seq<TypedStmtView>, st: State, fuel: nat, w: World) -> Option<
    State,
>
    decreases fuel, ss, 2int,
{
    if ss.len() == 0 {
        Some(st)
    } else {
        match typed_exec(ss[0], st, fuel, w) {
            None => None,
            Some(s1) => typed_exec_all(ss.drop_first(), s1, fuel, w),
        }
    }
}

/// What a block comes to as it is typed.
pub open spec fn typed_block(b: TypedBlockView, st: State, fuel: nat, w: World) -> Option<
    (Option<Outcome>, State),
>
    decreases fuel, b, 3int,
{
    match typed_exec_all(b.stmts, st, fuel, w) {
        None => None,
        Some(s1) => match b.ret {
            None => Some((None, s1)),
            Some(e) => match typed_eval(e, s1, fuel, w) {
                None => None,
                Some((o, s2)) => Some((Some(o), s2)),
            },
        },
    }
}

} // verus!
