//! What holds of structs between typing and lowering: the structs and fields
//! that a typed body names are there when the body is lowered.
use crate::llvm_gen::abi::{ask_abi, llvm_type, llvm_types, AbiParamView, CodeFactsView, LowerStopView};
use crate::llvm_gen::code::{declare, emit, enter, find_decl, next, to_ptr, to_value, CodeView, ExtentView, InstView, LoweredView, OperandView, SlotView};
use crate::llvm_gen::functions::{bind_params, block_type, internal_function, param_types, start, typing_of, ModuleView};
use crate::llvm_gen::lower::{
    abi_decl, field_place, internal_decl, internal_return, internal_sret, lower_arg, lower_args, lower_block, lower_expr, lower_fn_call,
    lower_if, lower_internal_call, lower_lit_fields, lower_method_call, lower_opt, lower_rust_fn_call, lower_static_call, lower_stmt,
    lower_stmts, lower_values, lower_while, receiver_ops, receiver_ptr, return_room, struct_behind, types_of, use_method, use_methods,
    LowerCx,
};
use crate::llvm_gen::types::LlvmTypeView;
use crate::names::{find, put};
use crate::oracle::{resolve, resolve_all};
use crate::toylang::answers::ask_trait;
use crate::toylang::ast::{BlockView, ExprView, StmtView};
use crate::toylang::callbacks_impl::{internal_symbol, RustDepView};
use crate::toylang::deps::{rust_deps_in_block, RustMethodDepView};
use crate::toylang::registry::{ToyFieldView, ToyFunctionView, ToyParamView, ToyStructView};
use crate::toylang::type_resolve::{
    access_type, call_signature, field_index, field_owner, if_expr, param_scope, return_type, rust_receiver, static_call, type_block,
    type_call_args, type_expr, type_exprs, type_fields, type_fn_body, type_stmt, type_stmts, ScopeView, TypeResolveErrorView, Typing,
};
use crate::toylang::typed_ast::{ResolvedTypeView, TypedBlockView, TypedExprKindView, TypedExprView, TypedStmtView};
use vstd::prelude::*;

verus! {

broadcast use vstd::seq::group_seq_axioms;

/// Struct definitions by their names.
pub type Structs = Seq<(Seq<char>, ToyStructView)>;

/// Whether a field of a value of this type is known.
pub open spec fn field_known(ty: ResolvedTypeView, field: Seq<char>, structs: Structs) -> bool {
    match field_owner(ty) {
        ResolvedTypeView::Struct { name, type_args, field_types } => match find(structs, name) {
            None => false,
            Some(def) => match field_index(def.fields, field) {
                None => false,
                Some(i) => i < field_types.len(),
            },
        },
        _ => false,
    }
}

/// Whether the structs and fields that an expression names are known.
pub open spec fn known(e: TypedExprView, structs: Structs) -> bool
    decreases e,
{
    match e.kind {
        TypedExprKindView::StructLit { name, fields } => match e.ty {
            ResolvedTypeView::Struct { name: _, type_args, field_types } => match find(
                structs,
                name,
            ) {
                None => false,
                Some(def) => lit_known(fields, def.fields, field_types.len(), structs),
            },
            _ => false,
        },
        TypedExprKindView::FnCall { name, type_args, args } => all_known(args, structs),
        TypedExprKindView::BinaryOp { op, left, right } => known(*left, structs) && known(
            *right,
            structs,
        ),
        TypedExprKindView::StaticCall { ty, method, type_args, args } => all_known(args, structs),
        TypedExprKindView::MethodCall { receiver, method, args } => known(*receiver, structs)
            && all_known(args, structs),
        TypedExprKindView::FieldAccess { receiver, field } => known(*receiver, structs)
            && field_known(receiver.ty, field, structs),
        TypedExprKindView::If { cond, then_stmts, then_expr, else_stmts, else_expr } => {
            &&& known(*cond, structs)
            &&& stmts_known(then_stmts, structs)
            &&& then_expr matches Some(x) ==> known(*x, structs)
            &&& stmts_known(else_stmts, structs)
            &&& else_expr matches Some(x) ==> known(*x, structs)
        },
        TypedExprKindView::Ref(inner) => known(*inner, structs),
        _ => true,
    }
}

/// Whether the structs and fields that some expressions name are known.
pub open spec fn all_known(es: Seq<TypedExprView>, structs: Structs) -> bool
    decreases es,
{
    es.len() == 0 || known(es[0], structs) && all_known(es.drop_first(), structs)
}

/// Whether the fields of a literal are among those defined and among the `n`
/// that have a type, and what their values name is known.
pub open spec fn lit_known(
    fs: Seq<(Seq<char>, TypedExprView)>,
    defs: Seq<ToyFieldView>,
    n: nat,
    structs: Structs,
) -> bool
    decreases fs,
{
    fs.len() == 0 || {
        &&& field_index(defs, fs[0].0) matches Some(i) && i < n
        &&& known(fs[0].1, structs)
        &&& lit_known(fs.drop_first(), defs, n, structs)
    }
}

/// Whether the structs and fields that a statement names are known.
pub open spec fn stmt_known(s: TypedStmtView, structs: Structs) -> bool
    decreases s,
{
    match s {
        TypedStmtView::Let { name, expr } => known(expr, structs),
        TypedStmtView::ExprStmt(expr) => known(expr, structs),
        TypedStmtView::While { cond, body } => known(cond, structs) && block_known(body, structs),
        TypedStmtView::Assign { name, expr } => known(expr, structs),
    }
}

/// Whether the structs and fields that some statements name are known.
pub open spec fn stmts_known(ss: Seq<TypedStmtView>, structs: Structs) -> bool
    decreases ss,
{
    ss.len() == 0 || stmt_known(ss[0], structs) && stmts_known(ss.drop_first(), structs)
}

/// Whether the structs and fields that a block names are known.
pub open spec fn block_known(b: TypedBlockView, structs: Structs) -> bool
    decreases b,
{
    &&& stmts_known(b.stmts, structs)
    &&& b.ret matches Some(e) ==> known(e, structs)
}

/// Whether it is for want of a struct or a field that lowering stopped.
pub open spec fn field_stop(e: LowerStopView) -> bool {
    e is NotAStruct || e is StructNotFound || e is FieldNotFound
}

/// Typing finds out every struct and every field that is not defined:
/// lowering finds them all.
pub proof fn lemma_fields_found(
    f: ToyFunctionView,
    symbol: Seq<char>,
    cx: LowerCx,
    m: ModuleView,
)
    ensures
        internal_function(f, symbol, cx, m) matches Err(e) ==> !field_stop(e),
{
    if let Some(body) = f.body {
        if let Ok(b) = type_fn_body(f, body, typing_of(cx)) {
            let tcx = typing_of(cx);
            let scope = param_scope(f.params, Seq::empty(), tcx)->Ok_0;
            let ret = return_type(f, tcx)->Ok_0;
            lemma_typed_block(body, ret, scope, tcx);
            lemma_methods(rust_deps_in_block(b), cx, start(m));
            if let Ok(s1) = use_methods(rust_deps_in_block(b), cx, start(m)) {
                lemma_param_types(f.params, cx);
                lemma_type_stop(block_type(b), cx.facts);
                if let Ok(types) = param_types(f.params, cx) {
                    if let Ok(rt) = internal_return(block_type(b), cx) {
                        let decls = declare(s1.decls, internal_decl(symbol, types, block_type(b), rt));
                        if let Some(decl) = find_decl(decls, symbol) {
                            let at: nat = if internal_sret(block_type(b)) {
                                1
                            } else {
                                0
                            };
                            let s2 = CodeView { decls, ..s1 };
                            lemma_bound(f.params, at, decl.params, symbol, s2);
                            if let Ok(s3) = bind_params(f.params, at, decl.params, symbol, s2) {
                                lemma_block(b, cx, s3);
                            }
                        }
                    }
                }
            }
        }
    }
}

/// What typing has found, it knows the structs and fields of.
#[verifier::spinoff_prover]
#[verifier::rlimit(60)]
proof fn lemma_typed_expr(e: ExprView, expected: ResolvedTypeView, scope: ScopeView, cx: Typing)
    requires
        type_expr(e, expected, scope, cx) is Ok,
    ensures
        known(type_expr(e, expected, scope, cx)->Ok_0, cx.registry.structs),
    decreases e, 1int,
{
    let void = ResolvedTypeView::Void;
    match e {
        ExprView::StructLit { name, type_args, fields } => {
            let ty = type_expr(e, expected, scope, cx)->Ok_0.ty;
            if let ResolvedTypeView::Struct { name: _, type_args: _, field_types } = ty {
                let def = find(cx.registry.structs, name)->Some_0;
                lemma_typed_fields(fields, name, def.fields, field_types, scope, cx);
            }
        },
        ExprView::FnCall { name, type_args, args } => {
            let sig = call_signature(name, type_args, cx)->Ok_0;
            lemma_typed_args(args, 0, name, sig.params, scope, cx);
        },
        ExprView::BinaryOp { op, left, right } => {
            lemma_typed_expr(*left, void, scope, cx);
            let l = type_expr(*left, void, scope, cx)->Ok_0;
            lemma_typed_expr(*right, l.ty, scope, cx);
        },
        ExprView::StaticCall { ty, method, type_args, args } => {
            let resolved = resolve_all(type_args, cx.registry.structs)->Ok_0;
            let typed = type_exprs(args, scope, cx)->Ok_0;
            assert(static_call(ty, method, type_args, resolved, typed, cx) is Ok);
            lemma_typed_exprs(args, scope, cx);
        },
        ExprView::FieldAccess { receiver, field } => {
            lemma_typed_expr(*receiver, void, scope, cx);
            let r = type_expr(*receiver, void, scope, cx)->Ok_0;
            assert(access_type(r.ty, field, cx) is Ok);
        },
        ExprView::MethodCall { receiver, method, args } => {
            lemma_typed_expr(*receiver, void, scope, cx);
            lemma_typed_exprs(args, scope, cx);
        },
        ExprView::UnaryNeg(inner) => {
            let r = type_expr(*inner, expected, scope, cx)->Ok_0;
            let zero = TypedExprView { kind: TypedExprKindView::IntLit(0), ty: r.ty };
            assert(known(zero, cx.registry.structs));
            lemma_typed_expr(*inner, expected, scope, cx);
        },
        ExprView::Ref(inner) => {
            lemma_typed_expr(*inner, void, scope, cx);
        },
        ExprView::If { cond, then_body, else_body } => {
            lemma_typed_expr(*cond, void, scope, cx);
            let c = type_expr(*cond, void, scope, cx)->Ok_0;
            lemma_typed_block(*then_body, void, scope, cx);
            let (then_block, _) = type_block(*then_body, void, scope, cx)->Ok_0;
            match else_body {
                None => {
                    let else_block = TypedBlockView { stmts: Seq::empty(), ret: None };
                    lemma_if_whole(c, then_block, else_block, cx.registry.structs);
                },
                Some(b) => {
                    lemma_typed_block(*b, void, scope, cx);
                    let (else_block, _) = type_block(*b, void, scope, cx)->Ok_0;
                    lemma_if_whole(c, then_block, else_block, cx.registry.structs);
                },
            }
        },
        _ => {},
    }
}

proof fn lemma_if_whole(
    cond: TypedExprView,
    then_block: TypedBlockView,
    else_block: TypedBlockView,
    structs: Structs,
)
    requires
        if_expr(cond, then_block, else_block) is Ok,
        known(cond, structs),
        block_known(then_block, structs),
        else_block.stmts.len() == 0 && else_block.ret is None || block_known(else_block, structs),
    ensures
        known(if_expr(cond, then_block, else_block)->Ok_0, structs),
{
}

proof fn lemma_typed_exprs(es: Seq<ExprView>, scope: ScopeView, cx: Typing)
    requires
        type_exprs(es, scope, cx) is Ok,
    ensures
        all_known(type_exprs(es, scope, cx)->Ok_0, cx.registry.structs),
    decreases es, 0int,
{
    if es.len() > 0 {
        let first = type_expr(es[0], ResolvedTypeView::Void, scope, cx)->Ok_0;
        let rest = type_exprs(es.drop_first(), scope, cx)->Ok_0;
        assert((seq![first] + rest).drop_first() =~= rest);
        lemma_typed_expr(es[0], ResolvedTypeView::Void, scope, cx);
        lemma_typed_exprs(es.drop_first(), scope, cx);
    }
}

proof fn lemma_typed_args(
    args: Seq<ExprView>,
    i: nat,
    func_name: Seq<char>,
    params: Seq<Result<ResolvedTypeView, TypeResolveErrorView>>,
    scope: ScopeView,
    cx: Typing,
)
    requires
        type_call_args(args, i, func_name, params, scope, cx) is Ok,
    ensures
        all_known(
            type_call_args(args, i, func_name, params, scope, cx)->Ok_0,
            cx.registry.structs,
        ),
    decreases args, 0int,
{
    if args.len() > 0 {
        let want: ResolvedTypeView = if i < params.len() {
            params[i as int]->Ok_0
        } else {
            ResolvedTypeView::Void
        };
        let first = type_expr(args[0], want, scope, cx)->Ok_0;
        let rest = type_call_args(args.drop_first(), i + 1, func_name, params, scope, cx)->Ok_0;
        assert((seq![first] + rest).drop_first() =~= rest);
        lemma_typed_expr(args[0], want, scope, cx);
        lemma_typed_args(args.drop_first(), i + 1, func_name, params, scope, cx);
    }
}

proof fn lemma_typed_fields(
    fields: Seq<(Seq<char>, ExprView)>,
    name: Seq<char>,
    def: Seq<ToyFieldView>,
    field_types: Seq<ResolvedTypeView>,
    scope: ScopeView,
    cx: Typing,
)
    requires
        type_fields(fields, name, def, field_types, scope, cx) is Ok,
    ensures
        lit_known(
            type_fields(fields, name, def, field_types, scope, cx)->Ok_0,
            def,
            field_types.len(),
            cx.registry.structs,
        ),
    decreases fields, 0int,
{
    if fields.len() > 0 {
        let k = field_index(def, fields[0].0)->Some_0;
        let first = type_expr(fields[0].1, field_types[k as int], scope, cx)->Ok_0;
        let rest = type_fields(fields.drop_first(), name, def, field_types, scope, cx)->Ok_0;
        assert((seq![(fields[0].0, first)] + rest).drop_first() =~= rest);
        lemma_typed_expr(fields[0].1, field_types[k as int], scope, cx);
        lemma_typed_fields(fields.drop_first(), name, def, field_types, scope, cx);
    }
}

proof fn lemma_typed_stmt(s: StmtView, scope: ScopeView, cx: Typing)
    requires
        type_stmt(s, scope, cx) is Ok,
    ensures
        stmt_known(type_stmt(s, scope, cx)->Ok_0.0, cx.registry.structs),
    decreases s, 0int,
{
    let void = ResolvedTypeView::Void;
    match s {
        StmtView::Let { name, expr } => {
            lemma_typed_expr(expr, void, scope, cx);
        },
        StmtView::ExprStmt(expr) => {
            lemma_typed_expr(expr, void, scope, cx);
        },
        StmtView::While { cond, body } => {
            lemma_typed_expr(cond, void, scope, cx);
            lemma_typed_block(*body, void, scope, cx);
        },
        StmtView::Assign { name, expr } => {
            let ty = find(scope, name)->Some_0;
            lemma_typed_expr(expr, ty, scope, cx);
        },
    }
}

proof fn lemma_typed_stmts(ss: Seq<StmtView>, scope: ScopeView, cx: Typing)
    requires
        type_stmts(ss, scope, cx) is Ok,
    ensures
        stmts_known(type_stmts(ss, scope, cx)->Ok_0.0, cx.registry.structs),
    decreases ss, 0int,
{
    if ss.len() > 0 {
        let (typed, last) = type_stmts(ss, scope, cx)->Ok_0;
        let (first, next) = type_stmt(ss[0], scope, cx)->Ok_0;
        let (rest, _) = type_stmts(ss.drop_first(), next, cx)->Ok_0;
        assert(typed.drop_first() =~= rest);
        assert(typed[0] == first);
        lemma_typed_stmt(ss[0], scope, cx);
        lemma_typed_stmts(ss.drop_first(), next, cx);
    }
}

proof fn lemma_typed_block(b: BlockView, expected: ResolvedTypeView, scope: ScopeView, cx: Typing)
    requires
        type_block(b, expected, scope, cx) is Ok,
    ensures
        block_known(type_block(b, expected, scope, cx)->Ok_0.0, cx.registry.structs),
    decreases b, 0int,
{
    lemma_typed_stmts(b.stmts, scope, cx);
    let (stmts, after) = type_stmts(b.stmts, scope, cx)->Ok_0;
    if let Some(e) = b.ret {
        lemma_typed_expr(e, expected, after, cx);
    }
}

proof fn lemma_type_stop(t: ResolvedTypeView, facts: CodeFactsView)
    ensures
        llvm_type(t, facts) matches Err(e) ==> !field_stop(e),
    decreases t,
{
    if let ResolvedTypeView::Struct { name, type_args, field_types } = t {
        lemma_types_stop(field_types, facts);
    }
}

proof fn lemma_types_stop(ts: Seq<ResolvedTypeView>, facts: CodeFactsView)
    ensures
        match llvm_types(ts, facts) {
            Ok(types) => types.len() == ts.len(),
            Err(e) => !field_stop(e),
        },
    decreases ts,
{
    if ts.len() > 0 {
        lemma_type_stop(ts[0], facts);
        lemma_types_stop(ts.drop_first(), facts);
    }
}

proof fn lemma_param_types(ps: Seq<ToyParamView>, cx: LowerCx)
    ensures
        param_types(ps, cx) matches Err(e) ==> !field_stop(e),
    decreases ps.len(),
{
    if ps.len() > 0 {
        if let Ok(ty) = resolve(ps[0].ty, cx.registry.structs) {
            lemma_type_stop(ty, cx.facts);
        }
        lemma_param_types(ps.drop_first(), cx);
    }
}

proof fn lemma_methods(ds: Seq<RustMethodDepView>, cx: LowerCx, s: CodeView)
    ensures
        use_methods(ds, cx, s) matches Err(e) ==> !field_stop(e),
    decreases ds.len(),
{
    if ds.len() > 0 {
        if let Ok((_, s1)) = use_method(ds[0], cx, s) {
            lemma_methods(ds.drop_first(), cx, s1);
        }
    }
}

proof fn lemma_bound(
    ps: Seq<ToyParamView>,
    at: nat,
    types: Seq<LlvmTypeView>,
    symbol: Seq<char>,
    s: CodeView,
)
    ensures
        bind_params(ps, at, types, symbol, s) matches Err(e) ==> !field_stop(e),
    decreases ps.len(),
{
    if ps.len() > 0 && at < types.len() {
        let ty = types[at as int];
        let s1 = emit(
            emit(s, InstView::Alloca { ty, align: None }),
            InstView::Store { ptr: next(s), value: OperandView::Param(at) },
        );
        let vars = put(
            s1.vars,
            ps[0].name,
            SlotView { ptr: next(s), ty },
        );
        lemma_bound(ps.drop_first(), at + 1, types, symbol, CodeView { vars, ..s1 });
    }
}

/// What is known is lowered without a search in vain.
proof fn lemma_expr(e: TypedExprView, cx: LowerCx, s: CodeView)
    requires
        known(e, cx.registry.structs),
    ensures
        lower_expr(e, cx, s) matches Err(x) ==> !field_stop(x),
    decreases e, 2int,
{
    lemma_type_stop(e.ty, cx.facts);
    match e.kind {
        TypedExprKindView::BinaryOp { op, left, right } => {
            lemma_expr(*left, cx, s);
            if let Ok((l, s1)) = lower_expr(*left, cx, s) {
                let (_, _, s2) = to_value(l, s1);
                lemma_expr(*right, cx, s2);
            }
        },
        TypedExprKindView::StructLit { name, fields } => {
            if let ResolvedTypeView::Struct { name: _, type_args: _, field_types } = e.ty {
                lemma_types_stop(field_types, cx.facts);
                if let Ok(types) = llvm_types(field_types, cx.facts) {
                    if let Some(def) = find(cx.registry.structs, name) {
                        let st = LlvmTypeView::Struct { fields: types };
                        lemma_lit_fields(
                            fields,
                            name,
                            def.fields,
                            types,
                            next(s),
                            cx,
                            emit(s, InstView::Alloca { ty: st, align: None }),
                        );
                    }
                }
            }
        },
        TypedExprKindView::FnCall { name, type_args, args } => {
            lemma_fn_call(e.kind, e.ty, cx, s);
        },
        TypedExprKindView::StaticCall { ty, method, type_args, args } => {
            lemma_static_call(e.kind, e.ty, cx, s);
        },
        TypedExprKindView::MethodCall { receiver, method, args } => {
            lemma_method_call(e.kind, e.ty, cx, s);
        },
        TypedExprKindView::FieldAccess { receiver, field } => {
            lemma_expr(*receiver, cx, s);
            if let Ok((l, s1)) = lower_expr(*receiver, cx, s) {
                lemma_field_place(l, receiver.ty, field, cx, s1);
            }
        },
        TypedExprKindView::If { .. } => {
            lemma_if(e.kind, cx, s);
        },
        TypedExprKindView::Ref(inner) => {
            reveal_with_fuel(known, 2);
            lemma_type_stop(inner.ty, cx.facts);
            lemma_expr(*inner, cx, s);
            if let TypedExprKindView::FieldAccess { receiver, field } = inner.kind {
                lemma_expr(*receiver, cx, s);
                if let Ok((l, s1)) = lower_expr(*receiver, cx, s) {
                    lemma_field_place(l, receiver.ty, field, cx, s1);
                }
            }
        },
        _ => {},
    }
}

proof fn lemma_field_place(
    l: LoweredView,
    ty: ResolvedTypeView,
    field: Seq<char>,
    cx: LowerCx,
    s: CodeView,
)
    requires
        field_known(ty, field, cx.registry.structs),
    ensures
        field_place(l, ty, field, cx, s) matches Err(x) ==> !field_stop(x),
{
    if let Some((name, field_types, _)) = struct_behind(ty) {
        lemma_types_stop(field_types, cx.facts);
    }
}

proof fn lemma_lit_fields(
    fields: Seq<(Seq<char>, TypedExprView)>,
    name: Seq<char>,
    defs: Seq<ToyFieldView>,
    types: Seq<LlvmTypeView>,
    base: OperandView,
    cx: LowerCx,
    s: CodeView,
)
    requires
        lit_known(fields, defs, types.len(), cx.registry.structs),
    ensures
        lower_lit_fields(fields, name, defs, types, base, cx, s) matches Err(x) ==> !field_stop(x),
    decreases fields, 0int,
{
    if fields.len() > 0 {
        let (field, e) = fields[0];
        lemma_type_stop(e.ty, cx.facts);
        if let Some(i) = field_index(defs, field) {
            let s1 = emit(
                s,
                InstView::FieldPtr {
                    ty: LlvmTypeView::Struct { fields: types },
                    ptr: base,
                    field: i,
                },
            );
            lemma_expr(e, cx, s1);
            if let Ok((l, s2)) = lower_expr(e, cx, s1) {
                if let Ok(t) = llvm_type(e.ty, cx.facts) {
                    let s4 = if e.ty is Struct || e.ty is RustType {
                        let (source, s3) = to_ptr(l, t, s2);
                        emit(
                            s3,
                            InstView::Copy {
                                dest: next(s),
                                source,
                                align: 8,
                                extent: ExtentView::SizeOf(t),
                            },
                        )
                    } else {
                        let (value, _, s3) = to_value(l, s2);
                        emit(s3, InstView::Store { ptr: next(s), value })
                    };
                    lemma_lit_fields(fields.drop_first(), name, defs, types, base, cx, s4);
                }
            }
        }
    }
}

proof fn lemma_arg(e: TypedExprView, p: AbiParamView, cx: LowerCx, s: CodeView)
    requires
        known(e, cx.registry.structs),
    ensures
        lower_arg(e, p, cx, s) matches Err(x) ==> !field_stop(x),
    decreases e, 3int,
{
    lemma_expr(e, cx, s);
    lemma_type_stop(e.ty, cx.facts);
}

proof fn lemma_args(
    args: Seq<TypedExprView>,
    params: Seq<AbiParamView>,
    symbol: Seq<char>,
    cx: LowerCx,
    s: CodeView,
)
    requires
        all_known(args, cx.registry.structs),
    ensures
        lower_args(args, params, symbol, cx, s) matches Err(x) ==> !field_stop(x),
    decreases args, 0int,
{
    if args.len() > 0 && params.len() > 0 {
        lemma_arg(args[0], params[0], cx, s);
        if let Ok((first, s1)) = lower_arg(args[0], params[0], cx, s) {
            lemma_args(args.drop_first(), params.drop_first(), symbol, cx, s1);
        }
    }
}

proof fn lemma_values(args: Seq<TypedExprView>, cx: LowerCx, s: CodeView)
    requires
        all_known(args, cx.registry.structs),
    ensures
        lower_values(args, cx, s) matches Err(x) ==> !field_stop(x),
    decreases args, 0int,
{
    if args.len() > 0 {
        lemma_expr(args[0], cx, s);
        if let Ok((l, s1)) = lower_expr(args[0], cx, s) {
            let (_, _, s2) = to_value(l, s1);
            lemma_values(args.drop_first(), cx, s2);
        }
    }
}

proof fn lemma_fn_call(k: TypedExprKindView, ty: ResolvedTypeView, cx: LowerCx, s: CodeView)
    requires
        k is FnCall,
        all_known(k->FnCall_args, cx.registry.structs),
    ensures
        lower_fn_call(k, ty, cx, s) matches Err(x) ==> !field_stop(x),
    decreases k, 1int,
{
    if let TypedExprKindView::FnCall { name, type_args, args } = k {
        match find(cx.registry.functions, name) {
            None => {
                lemma_rust_fn_call(k, RustDepView::FreeFn { name, type_args }, ty, cx, s);
            },
            Some(f) => if f.body is None {
                lemma_rust_fn_call(k, RustDepView::Declared { name }, ty, cx, s);
            } else {
                lemma_internal_call(k, ty, cx, s);
            },
        }
    }
}

proof fn lemma_rust_fn_call(
    k: TypedExprKindView,
    dep: RustDepView,
    ty: ResolvedTypeView,
    cx: LowerCx,
    s: CodeView,
)
    requires
        k is FnCall,
        all_known(k->FnCall_args, cx.registry.structs),
    ensures
        lower_rust_fn_call(k, dep, ty, cx, s) matches Err(x) ==> !field_stop(x),
    decreases k, 0int,
{
    lemma_type_stop(ty, cx.facts);
    if let TypedExprKindView::FnCall { name, type_args, args } = k {
        if let Ok(abi) = ask_abi(cx.facts, dep) {
            let s1 = CodeView {
                decls: declare(s.decls, abi_decl(abi)),
                rust_symbols: s.rust_symbols.push(abi.symbol),
                ..s
            };
            if let Ok((room, s2)) = return_room(abi.ret, ty, cx, s1) {
                lemma_args(args, abi.params, abi.symbol, cx, s2);
            }
        }
    }
}

proof fn lemma_internal_call(k: TypedExprKindView, ty: ResolvedTypeView, cx: LowerCx, s: CodeView)
    requires
        k is FnCall,
        all_known(k->FnCall_args, cx.registry.structs),
    ensures
        lower_internal_call(k, ty, cx, s) matches Err(x) ==> !field_stop(x),
    decreases k, 0int,
{
    lemma_type_stop(ty, cx.facts);
    if let TypedExprKindView::FnCall { name, type_args, args } = k {
        let symbol = internal_symbol(name, type_args);
        lemma_types_stop(types_of(args), cx.facts);
        if let Ok(arg_types) = llvm_types(types_of(args), cx.facts) {
            if let Ok(ret) = internal_return(ty, cx) {
                let s1 = CodeView {
                    decls: declare(s.decls, internal_decl(symbol, arg_types, ty, ret)),
                    ..s
                };
                if internal_sret(ty) {
                    if let Ok(t) = llvm_type(ty, cx.facts) {
                        lemma_values(args, cx, emit(s1, InstView::Alloca { ty: t, align: None }));
                    }
                } else {
                    lemma_values(args, cx, s1);
                }
            }
        }
    }
}

proof fn lemma_receiver_ops(
    recv: TypedExprView,
    ptr: OperandView,
    ptr_ty: LlvmTypeView,
    params: Seq<AbiParamView>,
    symbol: Seq<char>,
    cx: LowerCx,
    s: CodeView,
)
    requires
        known(recv, cx.registry.structs),
    ensures
        receiver_ops(recv, ptr, ptr_ty, params, symbol, cx, s) matches Err(x) ==> !field_stop(x),
    decreases recv, 4int,
{
    if params.len() > 0 && params[0] is Pair {
        lemma_arg(recv, params[0], cx, s);
    }
}

proof fn lemma_static_call(k: TypedExprKindView, ty: ResolvedTypeView, cx: LowerCx, s: CodeView)
    requires
        k is StaticCall,
        all_known(k->StaticCall_args, cx.registry.structs),
    ensures
        lower_static_call(k, ty, cx, s) matches Err(x) ==> !field_stop(x),
    decreases k, 0int,
{
    if let TypedExprKindView::StaticCall { ty: owner, method, type_args, args } = k {
        let d = RustMethodDepView {
            owner,
            method_name: method,
            type_args,
            receiver_ty: if args.len() == 0 {
                None
            } else {
                Some(args[0].ty)
            },
        };
        if let Ok((abi, s1)) = use_method(d, cx, s) {
            if args.len() > 0 && ask_trait(cx.answers, owner) == Ok::<bool, TypeResolveErrorView>(
                true,
            ) {
                let recv = args[0];
                lemma_expr(recv, cx, s1);
                if let Ok((l, s2)) = lower_expr(recv, cx, s1) {
                    if let Ok((ptr, ptr_ty, s3)) = receiver_ptr(l, recv.ty, s2) {
                        if let Ok((room, s4)) = return_room(abi.ret, ty, cx, s3) {
                            lemma_receiver_ops(recv, ptr, ptr_ty, abi.params, abi.symbol, cx, s4);
                            if let Ok((first, s5)) = receiver_ops(
                                recv,
                                ptr,
                                ptr_ty,
                                abi.params,
                                abi.symbol,
                                cx,
                                s4,
                            ) {
                                lemma_args(
                                    args.drop_first(),
                                    abi.params.drop_first(),
                                    abi.symbol,
                                    cx,
                                    s5,
                                );
                            }
                        }
                    }
                }
            } else {
                if let Ok((room, s2)) = return_room(abi.ret, ty, cx, s1) {
                    lemma_args(args, abi.params, abi.symbol, cx, s2);
                }
            }
        }
    }
}

proof fn lemma_method_call(k: TypedExprKindView, ty: ResolvedTypeView, cx: LowerCx, s: CodeView)
    requires
        k is MethodCall,
        known(*k->MethodCall_receiver, cx.registry.structs),
        all_known(k->MethodCall_args, cx.registry.structs),
    ensures
        lower_method_call(k, ty, cx, s) matches Err(x) ==> !field_stop(x),
    decreases k, 0int,
{
    if let TypedExprKindView::MethodCall { receiver, method, args } = k {
        lemma_expr(*receiver, cx, s);
        if let Ok((l, s1)) = lower_expr(*receiver, cx, s) {
            if let Ok((ptr, ptr_ty, s2)) = receiver_ptr(l, receiver.ty, s1) {
                if let Some((owner, type_args)) = rust_receiver(receiver.ty) {
                    let d = RustMethodDepView {
                        owner,
                        method_name: method,
                        type_args,
                        receiver_ty: None,
                    };
                    if let Ok((abi, s3)) = use_method(d, cx, s2) {
                        if let Ok((room, s4)) = return_room(abi.ret, ty, cx, s3) {
                            lemma_receiver_ops(
                                *receiver,
                                ptr,
                                ptr_ty,
                                abi.params,
                                abi.symbol,
                                cx,
                                s4,
                            );
                            if let Ok((first, s5)) = receiver_ops(
                                *receiver,
                                ptr,
                                ptr_ty,
                                abi.params,
                                abi.symbol,
                                cx,
                                s4,
                            ) {
                                lemma_args(args, abi.params.drop_first(), abi.symbol, cx, s5);
                            }
                        }
                    }
                }
            }
        }
    }
}

proof fn lemma_opt(e: Option<Box<TypedExprView>>, cx: LowerCx, s: CodeView)
    requires
        e matches Some(x) ==> known(*x, cx.registry.structs),
    ensures
        lower_opt(e, cx, s) matches Err(x) ==> !field_stop(x),
    decreases e, 0int,
{
    if let Some(x) = e {
        lemma_expr(*x, cx, s);
    }
}

proof fn lemma_if(k: TypedExprKindView, cx: LowerCx, s: CodeView)
    requires
        k is If,
        known(*k->If_cond, cx.registry.structs),
        stmts_known(k->If_then_stmts, cx.registry.structs),
        k->If_then_expr matches Some(x) ==> known(*x, cx.registry.structs),
        stmts_known(k->If_else_stmts, cx.registry.structs),
        k->If_else_expr matches Some(x) ==> known(*x, cx.registry.structs),
    ensures
        lower_if(k, cx, s) matches Err(x) ==> !field_stop(x),
    decreases k, 0int,
{
    if let TypedExprKindView::If { cond, then_stmts, then_expr, else_stmts, else_expr } = k {
        lemma_expr(*cond, cx, s);
        if let Ok((c, s1)) = lower_expr(*cond, cx, s) {
            let (cond_value, cond_ty, s2) = to_value(c, s1);
            let then_block = s2.insts.len();
            let else_block = then_block + 1;
            let merge_block = then_block + 2;
            let s3 = emit(emit(emit(s2, InstView::Block), InstView::Block), InstView::Block);
            let s4 = emit(
                s3,
                InstView::Branch {
                    cond: cond_value,
                    then_block,
                    else_block: if else_stmts.len() == 0 && else_expr is None {
                        merge_block
                    } else {
                        else_block
                    },
                },
            );
            lemma_stmts(then_stmts, cx, enter(s4, then_block));
            if let Ok(s5) = lower_stmts(then_stmts, cx, enter(s4, then_block)) {
                lemma_opt(then_expr, cx, s5);
                if let Ok((then_value, s6)) = lower_opt(then_expr, cx, s5) {
                    let s7 = CodeView {
                        vars: s2.vars,
                        ..enter(emit(s6, InstView::Jump { block: merge_block }), else_block)
                    };
                    lemma_stmts(else_stmts, cx, s7);
                    if let Ok(s8) = lower_stmts(else_stmts, cx, s7) {
                        lemma_opt(else_expr, cx, s8);
                    }
                }
            }
        }
    }
}

proof fn lemma_stmts(stmts: Seq<TypedStmtView>, cx: LowerCx, s: CodeView)
    requires
        stmts_known(stmts, cx.registry.structs),
    ensures
        lower_stmts(stmts, cx, s) matches Err(x) ==> !field_stop(x),
    decreases stmts, 0int,
{
    if stmts.len() > 0 {
        lemma_stmt(stmts[0], cx, s);
        if let Ok(s1) = lower_stmt(stmts[0], cx, s) {
            lemma_stmts(stmts.drop_first(), cx, s1);
        }
    }
}

proof fn lemma_stmt(stmt: TypedStmtView, cx: LowerCx, s: CodeView)
    requires
        stmt_known(stmt, cx.registry.structs),
    ensures
        lower_stmt(stmt, cx, s) matches Err(x) ==> !field_stop(x),
    decreases stmt, 1int,
{
    match stmt {
        TypedStmtView::Let { name, expr } => {
            lemma_expr(expr, cx, s);
        },
        TypedStmtView::ExprStmt(expr) => {
            lemma_expr(expr, cx, s);
        },
        TypedStmtView::Assign { name, expr } => {
            lemma_expr(expr, cx, s);
        },
        TypedStmtView::While { .. } => {
            lemma_while(stmt, cx, s);
        },
    }
}

proof fn lemma_while(stmt: TypedStmtView, cx: LowerCx, s: CodeView)
    requires
        stmt is While,
        stmt_known(stmt, cx.registry.structs),
    ensures
        lower_while(stmt, cx, s) matches Err(x) ==> !field_stop(x),
    decreases stmt, 0int,
{
    if let TypedStmtView::While { cond, body } = stmt {
        let header_block = s.insts.len();
        let body_block = header_block + 1;
        let exit_block = header_block + 2;
        let s1 = emit(emit(emit(s, InstView::Block), InstView::Block), InstView::Block);
        let s2 = enter(emit(s1, InstView::Jump { block: header_block }), header_block);
        lemma_expr(cond, cx, s2);
        if let Ok((c, s3)) = lower_expr(cond, cx, s2) {
            let (cond_value, cond_ty, s4) = to_value(c, s3);
            let s5 = enter(
                emit(
                    s4,
                    InstView::Branch {
                        cond: cond_value,
                        then_block: body_block,
                        else_block: exit_block,
                    },
                ),
                body_block,
            );
            lemma_block(body, cx, s5);
        }
    }
}

proof fn lemma_block(b: TypedBlockView, cx: LowerCx, s: CodeView)
    requires
        block_known(b, cx.registry.structs),
    ensures
        lower_block(b, cx, s) matches Err(x) ==> !field_stop(x),
    decreases b, 0int,
{
    lemma_stmts(b.stmts, cx, s);
    if let Ok(s1) = lower_stmts(b.stmts, cx, s) {
        if let Some(e) = b.ret {
            lemma_expr(e, cx, s1);
        }
    }
}

} // verus!
