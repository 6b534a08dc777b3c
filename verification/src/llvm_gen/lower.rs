//! From typed expressions and statements to instructions.
use crate::llvm_gen::abi::{
    ask_abi, ask_layout, byte_array, direct_return, fat_pointer, llvm_type, llvm_types, signature, AbiParamView, AbiReturnView, AbiView,
    CodeFactsView, LowerStopView,
};
use crate::llvm_gen::code::{
    declare, emit, enter, find_decl, next, to_ptr, to_value, CodeView, DeclView, ExtentView, InstView, LoweredView, OperandView, SlotView,
};
use crate::llvm_gen::types::{size_bytes, LlvmTypeView};
use crate::names::{find, put};
use crate::toylang::answers::{ask_trait, RustAnswersView};
use crate::toylang::ast::BinOp;
use crate::toylang::callbacks_impl::{internal_symbol, method_dep, RustDepView};
use crate::toylang::deps::RustMethodDepView;
use crate::toylang::registry::{RegistryView, ToyFieldView};
use crate::toylang::type_resolve::{field_index, rust_receiver};
use crate::toylang::typed_ast::{
    ResolvedType, ResolvedTypeView, TypedBlockView, TypedExprKindView, TypedExprView, TypedStmtView,
};
use vstd::prelude::*;
use vstd::string::*;
use vstd::utf8::encode_utf8;

verus! {

broadcast use {vstd::seq::group_seq_axioms, vstd::std_specs::vec::group_vec_axioms};

/// What lowering goes by: the definitions, and what is known of the Rust side
/// and of the target.
pub struct LowerCx {
    pub registry: RegistryView,
    pub answers: RustAnswersView,
    pub facts: CodeFactsView,
}

/// What stands for the value of an expression without one.
pub open spec fn no_value() -> LoweredView {
    LoweredView::Value(
        OperandView::Int { bits: 32, value: 0 },
        LlvmTypeView::Int { bits: 32 },
    )
}

/// Whether values of the type are returned through a pointer by toylang's own
/// functions.
pub open spec fn internal_sret(t: ResolvedTypeView) -> bool {
    t is Struct || t is RustType
}

/// Whether a function returns its values through a pointer among toylang's
/// own functions.
pub fn is_internal_sret(t: &ResolvedType) -> (r: bool)
    ensures
        r == internal_sret(t@),
{
    match t {
        ResolvedType::Struct { .. } | ResolvedType::RustType { .. } => true,
        _ => false,
    }
}

/// Whether a type is one of floats.
pub open spec fn is_float(t: LlvmTypeView) -> bool {
    t is Half || t is Float || t is Double || t is Fp128
}

/// Whether an operator computes a number.
pub open spec fn is_arithmetic(op: BinOp) -> bool {
    op == BinOp::Add || op == BinOp::Sub || op == BinOp::Mul || op == BinOp::Div
}

/// Whether an operator compares.
pub open spec fn is_comparison(op: BinOp) -> bool {
    !is_arithmetic(op) && op != BinOp::And && op != BinOp::Or
}

/// The declaration by which a function of the Rust side is called.
pub open spec fn abi_decl(abi: AbiView) -> DeclView {
    DeclView {
        symbol: abi.symbol,
        params: signature(abi.ret is Indirect, abi.params),
        ret: direct_return(abi.ret),
        sret: if abi.ret is Indirect {
            Some(byte_array(abi.ret_size))
        } else {
            None
        },
    }
}

/// The code after a method of the Rust side has been looked up.
pub open spec fn note_method(abi: AbiView, s: CodeView) -> CodeView {
    if s.methods.contains(abi.symbol) {
        s
    } else {
        CodeView {
            decls: declare(s.decls, abi_decl(abi)),
            rust_symbols: s.rust_symbols.push(abi.symbol),
            methods: s.methods.push(abi.symbol),
            ..s
        }
    }
}

/// Looks up a method of the Rust side.
pub open spec fn use_method(d: RustMethodDepView, cx: LowerCx, s: CodeView) -> Result<
    (AbiView, CodeView),
    LowerStopView,
> {
    match method_dep(d, cx.answers) {
        Err(stop) => Err(LowerStopView::Types { error: stop->Pending_error }),
        Ok(dep) => match ask_abi(cx.facts, dep) {
            Err(e) => Err(e),
            Ok(abi) => Ok((abi, note_method(abi, s))),
        },
    }
}

/// Looks up some methods of the Rust side.
pub open spec fn use_methods(ds: Seq<RustMethodDepView>, cx: LowerCx, s: CodeView) -> Result<
    CodeView,
    LowerStopView,
>
    decreases ds.len(),
{
    if ds.len() == 0 {
        Ok(s)
    } else {
        match use_method(ds[0], cx, s) {
            Err(e) => Err(e),
            Ok((_, s1)) => use_methods(ds.drop_first(), cx, s1),
        }
    }
}

/// An integer at another width: cut off, or widened by its sign. Other values
/// stay as they are.
pub open spec fn coerce_int(
    v: OperandView,
    t: LlvmTypeView,
    target: LlvmTypeView,
    s: CodeView,
) -> (OperandView, CodeView) {
    match (t, target) {
        (LlvmTypeView::Int { bits: from }, LlvmTypeView::Int { bits: to }) => if from > to {
            (next(s), emit(s, InstView::Truncate { value: v, bits: to }))
        } else if from < to {
            (next(s), emit(s, InstView::SignExtend { value: v, bits: to }))
        } else {
            (v, s)
        },
        _ => (v, s),
    }
}

/// The two fields of a struct value.
pub open spec fn split_pair(v: OperandView, s: CodeView) -> (Seq<OperandView>, CodeView) {
    let s1 = emit(s, InstView::Extract { value: v, field: 0 });
    let s2 = emit(s1, InstView::Extract { value: v, field: 1 });
    (seq![next(s), next(s1)], s2)
}

/// A value of type `from` read as a pair, by way of memory that holds the
/// larger of the two.
pub open spec fn reread_as_pair(
    l: LoweredView,
    from: LlvmTypeView,
    pair: LlvmTypeView,
    cx: LowerCx,
    s: CodeView,
) -> Result<(OperandView, CodeView), LowerStopView> {
    match (
        size_bytes(from, cx.facts.pointer_align as u64),
        size_bytes(pair, cx.facts.pointer_align as u64),
    ) {
        (Some(from_size), Some(pair_size)) => {
            let room = if pair_size >= from_size {
                pair
            } else {
                from
            };
            let s1 = emit(s, InstView::Alloca { ty: room, align: None });
            let (source, s2) = to_ptr(l, from, s1);
            let s3 = emit(
                s2,
                InstView::Copy {
                    dest: next(s),
                    source,
                    align: cx.facts.pointer_align,
                    extent: ExtentView::Bytes(
                        (if from_size <= pair_size {
                            from_size
                        } else {
                            pair_size
                        }) as u64,
                    ),
                },
            );
            Ok((next(s3), emit(s3, InstView::Load { ty: pair, ptr: next(s) })))
        },
        _ => Err(LowerStopView::SizeUnknown),
    }
}

/// An argument as the values that the function of the Rust side takes for it.
pub open spec fn lower_arg(e: TypedExprView, p: AbiParamView, cx: LowerCx, s: CodeView) -> Result<
    (Seq<OperandView>, CodeView),
    LowerStopView,
>
    decreases e, 3int,
{
    match p {
        AbiParamView::Indirect => match lower_expr(e, cx, s) {
            Err(x) => Err(x),
            Ok((l, s1)) => match llvm_type(e.ty, cx.facts) {
                Err(x) => Err(x),
                Ok(t) => {
                    let (ptr, s2) = to_ptr(l, t, s1);
                    Ok((seq![ptr], s2))
                },
            },
        },
        AbiParamView::Pair(a, b) => match lower_expr(e, cx, s) {
            Err(x) => Err(x),
            Ok((l, s1)) => match llvm_type(e.ty, cx.facts) {
                Err(x) => Err(x),
                Ok(t) => {
                    let pair = LlvmTypeView::Struct { fields: seq![a, b] };
                    if t == pair {
                        let (v, vt, s2) = to_value(l, s1);
                        if vt is Struct {
                            Ok(split_pair(v, s2))
                        } else {
                            Err(LowerStopView::Operands)
                        }
                    } else {
                        match reread_as_pair(l, t, pair, cx, s1) {
                            Err(x) => Err(x),
                            Ok((v, s2)) => Ok(split_pair(v, s2)),
                        }
                    }
                },
            },
        },
        AbiParamView::Direct(target) => match llvm_type(e.ty, cx.facts) {
            Err(x) => Err(x),
            Ok(t) => match lower_expr(e, cx, s) {
                Err(x) => Err(x),
                Ok((l, s1)) => if t != target && t is Struct {
                    let (ptr, s2) = to_ptr(l, t, s1);
                    Ok((seq![next(s2)], emit(s2, InstView::Load { ty: target, ptr })))
                } else {
                    let (v, vt, s2) = to_value(l, s1);
                    let (w, s3) = coerce_int(v, vt, target, s2);
                    Ok((seq![w], s3))
                },
            },
        },
        AbiParamView::Ignore => match lower_expr(e, cx, s) {
            Err(x) => Err(x),
            Ok((_, s1)) => Ok((Seq::empty(), s1)),
        },
    }
}

/// Some arguments as the values that the function of the Rust side takes.
pub open spec fn lower_args(
    args: Seq<TypedExprView>,
    params: Seq<AbiParamView>,
    symbol: Seq<char>,
    cx: LowerCx,
    s: CodeView,
) -> Result<(Seq<OperandView>, CodeView), LowerStopView>
    decreases args, 0int,
{
    if args.len() == 0 {
        Ok((Seq::empty(), s))
    } else if params.len() == 0 {
        Err(LowerStopView::MissingParam { symbol })
    } else {
        match lower_arg(args[0], params[0], cx, s) {
            Err(x) => Err(x),
            Ok((first, s1)) => match lower_args(
                args.drop_first(),
                params.drop_first(),
                symbol,
                cx,
                s1,
            ) {
                Err(x) => Err(x),
                Ok((rest, s2)) => Ok((first + rest, s2)),
            },
        }
    }
}

/// Some expressions as values.
pub open spec fn lower_values(args: Seq<TypedExprView>, cx: LowerCx, s: CodeView) -> Result<
    (Seq<OperandView>, CodeView),
    LowerStopView,
>
    decreases args, 0int,
{
    if args.len() == 0 {
        Ok((Seq::empty(), s))
    } else {
        match lower_expr(args[0], cx, s) {
            Err(x) => Err(x),
            Ok((l, s1)) => {
                let (v, _, s2) = to_value(l, s1);
                match lower_values(args.drop_first(), cx, s2) {
                    Err(x) => Err(x),
                    Ok((rest, s3)) => Ok((seq![v] + rest, s3)),
                }
            },
        }
    }
}

/// The types of some expressions.
pub open spec fn types_of(args: Seq<TypedExprView>) -> Seq<ResolvedTypeView> {
    Seq::new(args.len(), |i: int| args[i].ty)
}

/// Room for what a function of the Rust side returns through a pointer.
pub open spec fn return_room(
    ret: AbiReturnView,
    ty: ResolvedTypeView,
    cx: LowerCx,
    s: CodeView,
) -> Result<(Seq<OperandView>, CodeView), LowerStopView> {
    if ret is Indirect {
        match ask_layout(cx.facts, ty) {
            Err(e) => Err(e),
            Ok((size, align)) => Ok(
                (
                    seq![next(s)],
                    emit(s, InstView::Alloca { ty: byte_array(size), align: Some(align) }),
                ),
            ),
        }
    } else {
        Ok((Seq::empty(), s))
    }
}

/// Calls a method of the Rust side, and hands on what it returns.
pub open spec fn finish_method_call(
    abi: AbiView,
    ops: Seq<OperandView>,
    ty: ResolvedTypeView,
    cx: LowerCx,
    s: CodeView,
) -> Result<(LoweredView, CodeView), LowerStopView> {
    let args = if abi.takes_location {
        ops.push(OperandView::Null)
    } else {
        ops
    };
    match find_decl(s.decls, abi.symbol) {
        None => Err(LowerStopView::MissingParam { symbol: abi.symbol }),
        Some(decl) => if decl.params.len() != args.len() {
            Err(LowerStopView::ArgCount { symbol: abi.symbol })
        } else {
            let s1 = emit(s, InstView::Call { symbol: abi.symbol, args });
            if abi.ret is Indirect && args.len() > 0 {
                match ask_layout(cx.facts, ty) {
                    Err(e) => Err(e),
                    Ok((size, _)) => Ok((LoweredView::Ptr(args[0], byte_array(size)), s1)),
                }
            } else {
                match decl.ret {
                    Some(t) => Ok((LoweredView::Value(next(s), t), s1)),
                    None => Ok((no_value(), s1)),
                }
            }
        },
    }
}

/// What a receiver is passed as where it is passed as one value: the pointer
/// that it is, or the place where it is.
pub open spec fn receiver_ptr(l: LoweredView, ty: ResolvedTypeView, s: CodeView) -> Result<
    (OperandView, LlvmTypeView, CodeView),
    LowerStopView,
> {
    if ty is Ref {
        Ok(to_value(l, s))
    } else {
        match l {
            LoweredView::Ptr(p, _) => Ok((p, LlvmTypeView::Ptr, s)),
            LoweredView::Value(_, _) => Err(LowerStopView::Receiver),
        }
    }
}

/// The values that a receiver is passed as.
pub open spec fn receiver_ops(
    recv: TypedExprView,
    ptr: OperandView,
    ptr_ty: LlvmTypeView,
    params: Seq<AbiParamView>,
    symbol: Seq<char>,
    cx: LowerCx,
    s: CodeView,
) -> Result<(Seq<OperandView>, CodeView), LowerStopView>
    decreases recv, 4int,
{
    if params.len() == 0 {
        Err(LowerStopView::MissingParam { symbol })
    } else if params[0] is Pair {
        lower_arg(recv, params[0], cx, s)
    } else if ptr_ty is Ptr {
        Ok((seq![ptr], s))
    } else {
        Err(LowerStopView::Receiver)
    }
}

/// The struct that a value of this type is, or refers to: its name, the types
/// of its fields, and whether it is referred to.
pub open spec fn struct_behind(t: ResolvedTypeView) -> Option<
    (Seq<char>, Seq<ResolvedTypeView>, bool),
> {
    match t {
        ResolvedTypeView::Struct { name, type_args, field_types } => Some(
            (name, field_types, false),
        ),
        ResolvedTypeView::Ref { inner } => match *inner {
            ResolvedTypeView::Struct { name, type_args, field_types } => Some(
                (name, field_types, true),
            ),
            _ => None,
        },
        _ => None,
    }
}

/// Where a field of a struct is.
pub open spec fn field_place(
    l: LoweredView,
    ty: ResolvedTypeView,
    field: Seq<char>,
    cx: LowerCx,
    s: CodeView,
) -> Result<(OperandView, CodeView), LowerStopView> {
    match struct_behind(ty) {
        None => Err(LowerStopView::NotAStruct { ty }),
        Some((name, field_types, referred)) => match find(cx.registry.structs, name) {
            None => Err(LowerStopView::StructNotFound { name }),
            Some(def) => match llvm_types(field_types, cx.facts) {
                Err(e) => Err(e),
                Ok(fields) => match field_index(def.fields, field) {
                    None => Err(
                        LowerStopView::FieldNotFound { struct_name: name, field_name: field },
                    ),
                    Some(i) => if i >= fields.len() {
                        Err(LowerStopView::FieldNotFound { struct_name: name, field_name: field })
                    } else {
                        let st = LlvmTypeView::Struct { fields };
                        let (ptr, s2) = if referred {
                            let (slot, s1) = to_ptr(l, LlvmTypeView::Ptr, s);
                            (
                                next(s1),
                                emit(s1, InstView::Load { ty: LlvmTypeView::Ptr, ptr: slot }),
                            )
                        } else {
                            to_ptr(l, st, s)
                        };
                        Ok((next(s2), emit(s2, InstView::FieldPtr { ty: st, ptr, field: i })))
                    },
                },
            },
        },
    }
}

/// A constant of some bytes: a pointer to it and its length.
pub open spec fn lower_bytes(bytes: Seq<u8>, s: CodeView) -> (LoweredView, CodeView) {
    let s1 = emit(s, InstView::Bytes { bytes });
    let s2 = emit(
        s1,
        InstView::Pair {
            first_ty: LlvmTypeView::Ptr,
            second_ty: LlvmTypeView::Int { bits: 64 },
            first: next(s),
            second: OperandView::Int { bits: 64, value: bytes.len() as i64 },
        },
    );
    (LoweredView::Value(next(s1), fat_pointer()), s2)
}

/// Lowers an expression.
pub open spec fn lower_expr(e: TypedExprView, cx: LowerCx, s: CodeView) -> Result<
    (LoweredView, CodeView),
    LowerStopView,
>
    decreases e, 2int,
{
    match e.kind {
        TypedExprKindView::IntLit(n) => match llvm_type(e.ty, cx.facts) {
            Err(x) => Err(x),
            Ok(LlvmTypeView::Int { bits }) => Ok(
                (
                    LoweredView::Value(
                        OperandView::Int { bits, value: n },
                        LlvmTypeView::Int { bits },
                    ),
                    s,
                ),
            ),
            Ok(_) => Err(LowerStopView::LiteralType { ty: e.ty }),
        },
        TypedExprKindView::BoolLit(b) => Ok(
            (
                LoweredView::Value(
                    OperandView::Int {
                        bits: 1,
                        value: if b {
                            1
                        } else {
                            0
                        },
                    },
                    LlvmTypeView::Int { bits: 1 },
                ),
                s,
            ),
        ),
        TypedExprKindView::Var(name) => match find(s.vars, name) {
            None => Err(LowerStopView::VariableNotInScope { name }),
            Some(slot) => Ok((LoweredView::Ptr(slot.ptr, slot.ty), s)),
        },
        TypedExprKindView::StringLit(text) => Ok(lower_bytes(encode_utf8(text), s)),
        TypedExprKindView::ByteStringLit(bytes) => Ok(lower_bytes(bytes, s)),
        TypedExprKindView::BinaryOp { .. } => lower_binary(e.kind, cx, s),
        TypedExprKindView::StructLit { .. } => lower_struct_lit(e.kind, e.ty, cx, s),
        TypedExprKindView::FnCall { .. } => lower_fn_call(e.kind, e.ty, cx, s),
        TypedExprKindView::StaticCall { .. } => lower_static_call(e.kind, e.ty, cx, s),
        TypedExprKindView::MethodCall { .. } => lower_method_call(e.kind, e.ty, cx, s),
        TypedExprKindView::FieldAccess { .. } => lower_field_access(e.kind, e.ty, cx, s),
        TypedExprKindView::If { .. } => lower_if(e.kind, cx, s),
        TypedExprKindView::Ref(_) => lower_ref(e.kind, cx, s),
    }
}

/// Lowers an operator: on two integers, or arithmetic on two floats.
pub open spec fn lower_binary(k: TypedExprKindView, cx: LowerCx, s: CodeView) -> Result<
    (LoweredView, CodeView),
    LowerStopView,
>
    decreases k, 0int,
{
    match k {
        TypedExprKindView::BinaryOp { op, left, right } => match lower_expr(*left, cx, s) {
            Err(x) => Err(x),
            Ok((l, s1)) => {
                let (a, at, s2) = to_value(l, s1);
                match lower_expr(*right, cx, s2) {
                    Err(x) => Err(x),
                    Ok((r, s3)) => {
                        let (b, bt, s4) = to_value(r, s3);
                        if at is Int && bt is Int {
                            Ok(
                                (
                                    LoweredView::Value(
                                        next(s4),
                                        if is_comparison(op) {
                                            LlvmTypeView::Int { bits: 1 }
                                        } else {
                                            at
                                        },
                                    ),
                                    emit(s4, InstView::IntOp { op, left: a, right: b }),
                                ),
                            )
                        } else if is_float(at) && is_float(bt) && is_arithmetic(op) {
                            Ok(
                                (
                                    LoweredView::Value(next(s4), at),
                                    emit(s4, InstView::FloatOp { op, left: a, right: b }),
                                ),
                            )
                        } else {
                            Err(LowerStopView::Operands)
                        }
                    },
                }
            },
        },
        _ => arbitrary(),
    }
}

/// Lowers a struct literal: room for the struct, filled field by field.
pub open spec fn lower_struct_lit(
    k: TypedExprKindView,
    ty: ResolvedTypeView,
    cx: LowerCx,
    s: CodeView,
) -> Result<(LoweredView, CodeView), LowerStopView>
    decreases k, 0int,
{
    match k {
        TypedExprKindView::StructLit { name, fields } => match ty {
            ResolvedTypeView::Struct { name: _, type_args: _, field_types } => match llvm_types(
                field_types,
                cx.facts,
            ) {
                Err(x) => Err(x),
                Ok(types) => {
                    let st = LlvmTypeView::Struct { fields: types };
                    match find(cx.registry.structs, name) {
                        None => Err(LowerStopView::StructNotFound { name }),
                        Some(def) => match lower_lit_fields(
                            fields,
                            name,
                            def.fields,
                            types,
                            next(s),
                            cx,
                            emit(s, InstView::Alloca { ty: st, align: None }),
                        ) {
                            Err(x) => Err(x),
                            Ok(s1) => Ok((LoweredView::Ptr(next(s), st), s1)),
                        },
                    }
                },
            },
            _ => Err(LowerStopView::NotAStruct { ty }),
        },
        _ => arbitrary(),
    }
}

/// Fills the fields of a struct at `base`. A struct or a Rust type is copied,
/// anything else is stored.
pub open spec fn lower_lit_fields(
    fields: Seq<(Seq<char>, TypedExprView)>,
    name: Seq<char>,
    defs: Seq<ToyFieldView>,
    types: Seq<LlvmTypeView>,
    base: OperandView,
    cx: LowerCx,
    s: CodeView,
) -> Result<CodeView, LowerStopView>
    decreases fields, 0int,
{
    if fields.len() == 0 {
        Ok(s)
    } else {
        let (field, e) = fields[0];
        let missing = LowerStopView::FieldNotFound { struct_name: name, field_name: field };
        match field_index(defs, field) {
            None => Err(missing),
            Some(i) => if i >= types.len() {
                Err(missing)
            } else {
                let s1 = emit(
                    s,
                    InstView::FieldPtr {
                        ty: LlvmTypeView::Struct { fields: types },
                        ptr: base,
                        field: i,
                    },
                );
                match lower_expr(e, cx, s1) {
                    Err(x) => Err(x),
                    Ok((l, s2)) => match llvm_type(e.ty, cx.facts) {
                        Err(x) => Err(x),
                        Ok(t) => {
                            let s4 = if e.ty is Struct || e.ty is RustType {
                                let (source, s3) = to_ptr(l, t, s2);
                                emit(
                                    s3,
                                    InstView::Copy {
                                        dest: next(s),
                                        source,
                                        align: 8,
                                        extent: ExtentView::SizeOf(t),
                                    },
                                )
                            } else {
                                let (value, _, s3) = to_value(l, s2);
                                emit(s3, InstView::Store { ptr: next(s), value })
                            };
                            lower_lit_fields(
                                fields.drop_first(),
                                name,
                                defs,
                                types,
                                base,
                                cx,
                                s4,
                            )
                        },
                    },
                }
            },
        }
    }
}

/// The declaration by which toylang calls one of its own functions.
pub open spec fn internal_decl(
    symbol: Seq<char>,
    args: Seq<LlvmTypeView>,
    ty: ResolvedTypeView,
    ret: Option<LlvmTypeView>,
) -> DeclView {
    DeclView {
        symbol,
        params: if internal_sret(ty) {
            seq![LlvmTypeView::Ptr] + args
        } else {
            args
        },
        ret,
        sret: None,
    }
}

/// The type that one of toylang's own functions returns directly.
pub open spec fn internal_return(ty: ResolvedTypeView, cx: LowerCx) -> Result<
    Option<LlvmTypeView>,
    LowerStopView,
> {
    if internal_sret(ty) || ty is Void {
        Ok(None)
    } else {
        match llvm_type(ty, cx.facts) {
            Err(e) => Err(e),
            Ok(t) => Ok(Some(t)),
        }
    }
}

/// Lowers a call by name: of a function of the Rust side by its ABI, of a
/// toylang function by toylang's own.
pub open spec fn lower_fn_call(
    k: TypedExprKindView,
    ty: ResolvedTypeView,
    cx: LowerCx,
    s: CodeView,
) -> Result<(LoweredView, CodeView), LowerStopView>
    decreases k, 1int,
{
    match k {
        TypedExprKindView::FnCall { name, type_args, args } => match find(
            cx.registry.functions,
            name,
        ) {
            None => lower_rust_fn_call(k, RustDepView::FreeFn { name, type_args }, ty, cx, s),
            Some(f) => if f.body is None {
                lower_rust_fn_call(k, RustDepView::Declared { name }, ty, cx, s)
            } else {
                lower_internal_call(k, ty, cx, s)
            },
        },
        _ => arbitrary(),
    }
}

/// Calls a function of the Rust side, and hands on what it returns.
pub open spec fn finish_fn_call(
    abi: AbiView,
    ops: Seq<OperandView>,
    ty: ResolvedTypeView,
    cx: LowerCx,
    s: CodeView,
) -> Result<(LoweredView, CodeView), LowerStopView> {
    if ops.len() != abi_decl(abi).params.len() {
        Err(LowerStopView::ArgCount { symbol: abi.symbol })
    } else {
        let s1 = emit(s, InstView::Call { symbol: abi.symbol, args: ops });
        if abi.ret is Indirect && ops.len() > 0 {
            match ask_layout(cx.facts, ty) {
                Err(e) => Err(e),
                Ok((size, _)) => Ok((LoweredView::Ptr(ops[0], byte_array(size)), s1)),
            }
        } else {
            match find_decl(s.decls, abi.symbol) {
                None => Ok((no_value(), s1)),
                Some(decl) => match decl.ret {
                    None => Ok((no_value(), s1)),
                    Some(rt) => match llvm_type(ty, cx.facts) {
                        Err(e) => Err(e),
                        Ok(t) => if rt == t {
                            Ok((LoweredView::Value(next(s), rt), s1))
                        } else {
                            let s2 = emit(s1, InstView::Alloca { ty: rt, align: None });
                            let s3 = emit(
                                s2,
                                InstView::Store { ptr: next(s1), value: next(s) },
                            );
                            Ok((LoweredView::Ptr(next(s1), t), s3))
                        },
                    },
                },
            }
        }
    }
}

/// Lowers a call of a function of the Rust side by name.
pub open spec fn lower_rust_fn_call(
    k: TypedExprKindView,
    dep: RustDepView,
    ty: ResolvedTypeView,
    cx: LowerCx,
    s: CodeView,
) -> Result<(LoweredView, CodeView), LowerStopView>
    decreases k, 0int,
{
    match k {
        TypedExprKindView::FnCall { name, type_args, args } => match ask_abi(cx.facts, dep) {
            Err(x) => Err(x),
            Ok(abi) => {
                let s1 = CodeView {
                    decls: declare(s.decls, abi_decl(abi)),
                    rust_symbols: s.rust_symbols.push(abi.symbol),
                    ..s
                };
                match return_room(abi.ret, ty, cx, s1) {
                    Err(x) => Err(x),
                    Ok((room, s2)) => match lower_args(args, abi.params, abi.symbol, cx, s2) {
                        Err(x) => Err(x),
                        Ok((ops, s3)) => finish_fn_call(abi, room + ops, ty, cx, s3),
                    },
                }
            },
        },
        _ => arbitrary(),
    }
}

/// Lowers a call of a toylang function.
pub open spec fn lower_internal_call(
    k: TypedExprKindView,
    ty: ResolvedTypeView,
    cx: LowerCx,
    s: CodeView,
) -> Result<(LoweredView, CodeView), LowerStopView>
    decreases k, 0int,
{
    match k {
        TypedExprKindView::FnCall { name, type_args, args } => {
            let symbol = internal_symbol(name, type_args);
            match llvm_types(types_of(args), cx.facts) {
                Err(x) => Err(x),
                Ok(arg_types) => match internal_return(ty, cx) {
                    Err(x) => Err(x),
                    Ok(ret) => {
                        let s1 = CodeView {
                            decls: declare(s.decls, internal_decl(symbol, arg_types, ty, ret)),
                            ..s
                        };
                        if internal_sret(ty) {
                            match llvm_type(ty, cx.facts) {
                                Err(x) => Err(x),
                                Ok(t) => match lower_values(
                                    args,
                                    cx,
                                    emit(s1, InstView::Alloca { ty: t, align: None }),
                                ) {
                                    Err(x) => Err(x),
                                    Ok((ops, s2)) => Ok(
                                        (
                                            LoweredView::Ptr(next(s1), t),
                                            emit(
                                                s2,
                                                InstView::Call {
                                                    symbol,
                                                    args: seq![next(s1)] + ops,
                                                },
                                            ),
                                        ),
                                    ),
                                },
                            }
                        } else {
                            match lower_values(args, cx, s1) {
                                Err(x) => Err(x),
                                Ok((ops, s2)) => {
                                    let s3 = emit(s2, InstView::Call { symbol, args: ops });
                                    match find_decl(s2.decls, symbol) {
                                        None => Ok((no_value(), s3)),
                                        Some(decl) => match decl.ret {
                                            None => Ok((no_value(), s3)),
                                            Some(t) => Ok((LoweredView::Value(next(s2), t), s3)),
                                        },
                                    }
                                },
                            }
                        }
                    },
                },
            }
        },
        _ => arbitrary(),
    }
}

/// Lowers a call by path: of a method of a trait with its receiver first, or
/// of a method of a type.
pub open spec fn lower_static_call(
    k: TypedExprKindView,
    ty: ResolvedTypeView,
    cx: LowerCx,
    s: CodeView,
) -> Result<(LoweredView, CodeView), LowerStopView>
    decreases k, 0int,
{
    match k {
        TypedExprKindView::StaticCall { ty: owner, method, type_args, args } => {
            let d = RustMethodDepView {
                owner,
                method_name: method,
                type_args,
                receiver_ty: if args.len() == 0 {
                    None
                } else {
                    Some(args[0].ty)
                },
            };
            match use_method(d, cx, s) {
                Err(x) => Err(x),
                Ok((abi, s1)) => if args.len() > 0 && ask_trait(cx.answers, owner) == Ok::<
                    bool,
                    crate::toylang::type_resolve::TypeResolveErrorView,
                >(true) {
                    let recv = args[0];
                    match lower_expr(recv, cx, s1) {
                        Err(x) => Err(x),
                        Ok((l, s2)) => match receiver_ptr(l, recv.ty, s2) {
                            Err(x) => Err(x),
                            Ok((ptr, ptr_ty, s3)) => match return_room(abi.ret, ty, cx, s3) {
                                Err(x) => Err(x),
                                Ok((room, s4)) => match receiver_ops(
                                    recv,
                                    ptr,
                                    ptr_ty,
                                    abi.params,
                                    abi.symbol,
                                    cx,
                                    s4,
                                ) {
                                    Err(x) => Err(x),
                                    Ok((first, s5)) => match lower_args(
                                        args.drop_first(),
                                        abi.params.drop_first(),
                                        abi.symbol,
                                        cx,
                                        s5,
                                    ) {
                                        Err(x) => Err(x),
                                        Ok((ops, s6)) => finish_method_call(
                                            abi,
                                            room + first + ops,
                                            ty,
                                            cx,
                                            s6,
                                        ),
                                    },
                                },
                            },
                        },
                    }
                } else {
                    match return_room(abi.ret, ty, cx, s1) {
                        Err(x) => Err(x),
                        Ok((room, s2)) => match lower_args(args, abi.params, abi.symbol, cx, s2) {
                            Err(x) => Err(x),
                            Ok((ops, s3)) => finish_method_call(abi, room + ops, ty, cx, s3),
                        },
                    }
                },
            }
        },
        _ => arbitrary(),
    }
}

/// Lowers a call of a method of a Rust type on a receiver.
pub open spec fn lower_method_call(
    k: TypedExprKindView,
    ty: ResolvedTypeView,
    cx: LowerCx,
    s: CodeView,
) -> Result<(LoweredView, CodeView), LowerStopView>
    decreases k, 0int,
{
    match k {
        TypedExprKindView::MethodCall { receiver, method, args } => match lower_expr(
            *receiver,
            cx,
            s,
        ) {
            Err(x) => Err(x),
            Ok((l, s1)) => match receiver_ptr(l, receiver.ty, s1) {
                Err(x) => Err(x),
                Ok((ptr, ptr_ty, s2)) => match rust_receiver(receiver.ty) {
                    None => Err(LowerStopView::Receiver),
                    Some((owner, type_args)) => match use_method(
                        RustMethodDepView {
                            owner,
                            method_name: method,
                            type_args,
                            receiver_ty: None,
                        },
                        cx,
                        s2,
                    ) {
                        Err(x) => Err(x),
                        Ok((abi, s3)) => match return_room(abi.ret, ty, cx, s3) {
                            Err(x) => Err(x),
                            Ok((room, s4)) => match receiver_ops(
                                *receiver,
                                ptr,
                                ptr_ty,
                                abi.params,
                                abi.symbol,
                                cx,
                                s4,
                            ) {
                                Err(x) => Err(x),
                                Ok((first, s5)) => match lower_args(
                                    args,
                                    abi.params.drop_first(),
                                    abi.symbol,
                                    cx,
                                    s5,
                                ) {
                                    Err(x) => Err(x),
                                    Ok((ops, s6)) => finish_method_call(
                                        abi,
                                        room + first + ops,
                                        ty,
                                        cx,
                                        s6,
                                    ),
                                },
                            },
                        },
                    },
                },
            },
        },
        _ => arbitrary(),
    }
}

/// Lowers the access to a field: a struct or a Rust type stays where it is,
/// anything else is loaded.
pub open spec fn lower_field_access(
    k: TypedExprKindView,
    ty: ResolvedTypeView,
    cx: LowerCx,
    s: CodeView,
) -> Result<(LoweredView, CodeView), LowerStopView>
    decreases k, 0int,
{
    match k {
        TypedExprKindView::FieldAccess { receiver, field } => match lower_expr(*receiver, cx, s) {
            Err(x) => Err(x),
            Ok((l, s1)) => match field_place(l, receiver.ty, field, cx, s1) {
                Err(x) => Err(x),
                Ok((ptr, s2)) => match llvm_type(ty, cx.facts) {
                    Err(x) => Err(x),
                    Ok(t) => if ty is Struct || ty is RustType {
                        Ok((LoweredView::Ptr(ptr, t), s2))
                    } else {
                        Ok(
                            (
                                LoweredView::Value(next(s2), t),
                                emit(s2, InstView::Load { ty: t, ptr }),
                            ),
                        )
                    },
                },
            },
        },
        _ => arbitrary(),
    }
}

/// Lowers a reference: to a field in its place, to anything else in memory.
pub open spec fn lower_ref(k: TypedExprKindView, cx: LowerCx, s: CodeView) -> Result<
    (LoweredView, CodeView),
    LowerStopView,
>
    decreases k, 0int,
{
    match k {
        TypedExprKindView::Ref(inner) => match inner.kind {
            TypedExprKindView::FieldAccess { receiver, field } if struct_behind(
                receiver.ty,
            ) is Some => match lower_expr(*receiver, cx, s) {
                Err(x) => Err(x),
                Ok((l, s1)) => match field_place(l, receiver.ty, field, cx, s1) {
                    Err(x) => Err(x),
                    Ok((ptr, s2)) => Ok((LoweredView::Value(ptr, LlvmTypeView::Ptr), s2)),
                },
            },
            _ => match lower_expr(*inner, cx, s) {
                Err(x) => Err(x),
                Ok((l, s1)) => match llvm_type(inner.ty, cx.facts) {
                    Err(x) => Err(x),
                    Ok(t) => {
                        let (ptr, s2) = to_ptr(l, t, s1);
                        Ok((LoweredView::Value(ptr, LlvmTypeView::Ptr), s2))
                    },
                },
            },
        },
        _ => arbitrary(),
    }
}

/// An expression that may be missing, as a value.
pub open spec fn lower_opt(e: Option<Box<TypedExprView>>, cx: LowerCx, s: CodeView) -> Result<
    (Option<(OperandView, LlvmTypeView)>, CodeView),
    LowerStopView,
>
    decreases e, 0int,
{
    match e {
        None => Ok((None, s)),
        Some(x) => match lower_expr(*x, cx, s) {
            Err(x) => Err(x),
            Ok((l, s1)) => {
                let (v, t, s2) = to_value(l, s1);
                Ok((Some((v, t)), s2))
            },
        },
    }
}

/// Lowers a conditional: a block for each branch and one where they meet.
/// Variables of a branch end with it.
pub open spec fn lower_if(k: TypedExprKindView, cx: LowerCx, s: CodeView) -> Result<
    (LoweredView, CodeView),
    LowerStopView,
>
    decreases k, 0int,
{
    match k {
        TypedExprKindView::If { cond, then_stmts, then_expr, else_stmts, else_expr } =>
            match lower_expr(*cond, cx, s) {
            Err(x) => Err(x),
            Ok((c, s1)) => {
                let (cond_value, cond_ty, s2) = to_value(c, s1);
                if !(cond_ty is Int) {
                    Err(LowerStopView::Condition)
                } else {
                    let then_block = s2.insts.len();
                    let else_block = then_block + 1;
                    let merge_block = then_block + 2;
                    let s3 = emit(
                        emit(emit(s2, InstView::Block), InstView::Block),
                        InstView::Block,
                    );
                    let s4 = emit(
                        s3,
                        InstView::Branch {
                            cond: cond_value,
                            then_block,
                            else_block: if else_stmts.len() == 0 && else_expr is None {
                                merge_block
                            } else {
                                else_block
                            },
                        },
                    );
                    match lower_stmts(then_stmts, cx, enter(s4, then_block)) {
                        Err(x) => Err(x),
                        Ok(s5) => match lower_opt(then_expr, cx, s5) {
                            Err(x) => Err(x),
                            Ok((then_value, s6)) => {
                                let s7 = CodeView {
                                    vars: s2.vars,
                                    ..enter(
                                        emit(s6, InstView::Jump { block: merge_block }),
                                        else_block,
                                    )
                                };
                                match lower_stmts(else_stmts, cx, s7) {
                                    Err(x) => Err(x),
                                    Ok(s8) => match lower_opt(else_expr, cx, s8) {
                                        Err(x) => Err(x),
                                        Ok((else_value, s9)) => {
                                            let s10 = CodeView {
                                                vars: s2.vars,
                                                ..enter(
                                                    emit(s9, InstView::Jump { block: merge_block }),
                                                    merge_block,
                                                )
                                            };
                                            match (then_value, else_value) {
                                                (Some((a, t)), Some((b, _))) => Ok(
                                                    (
                                                        LoweredView::Value(next(s10), t),
                                                        emit(
                                                            s10,
                                                            InstView::Phi {
                                                                ty: t,
                                                                first: a,
                                                                first_block: s6.block,
                                                                second: b,
                                                                second_block: s9.block,
                                                            },
                                                        ),
                                                    ),
                                                ),
                                                _ => Ok((no_value(), s10)),
                                            }
                                        },
                                    },
                                }
                            },
                        },
                    }
                }
            },
        },
        _ => arbitrary(),
    }
}

/// Lowers some statements.
pub open spec fn lower_stmts(stmts: Seq<TypedStmtView>, cx: LowerCx, s: CodeView) -> Result<
    CodeView,
    LowerStopView,
>
    decreases stmts, 0int,
{
    if stmts.len() == 0 {
        Ok(s)
    } else {
        match lower_stmt(stmts[0], cx, s) {
            Err(x) => Err(x),
            Ok(s1) => lower_stmts(stmts.drop_first(), cx, s1),
        }
    }
}

/// Stores what variables were rebound to into the places that they had
/// before.
pub open spec fn write_back(before: Seq<(Seq<char>, SlotView)>, s: CodeView) -> CodeView
    decreases before.len(),
{
    if before.len() == 0 {
        s
    } else {
        let (name, slot) = before[0];
        let s1 = match find(s.vars, name) {
            Some(new) if new.ptr != slot.ptr => emit(
                emit(s, InstView::Load { ty: slot.ty, ptr: new.ptr }),
                InstView::Store { ptr: slot.ptr, value: next(s) },
            ),
            _ => s,
        };
        write_back(before.drop_first(), s1)
    }
}

/// Lowers a statement.
pub open spec fn lower_stmt(stmt: TypedStmtView, cx: LowerCx, s: CodeView) -> Result<
    CodeView,
    LowerStopView,
>
    decreases stmt, 1int,
{
    match stmt {
        TypedStmtView::Let { name, expr } => match lower_expr(expr, cx, s) {
            Err(x) => Err(x),
            Ok((LoweredView::Ptr(ptr, ty), s1)) => Ok(
                CodeView { vars: put(s1.vars, name, SlotView { ptr, ty }), ..s1 },
            ),
            Ok((LoweredView::Value(value, ty), s1)) => {
                let s2 = emit(
                    emit(s1, InstView::Alloca { ty, align: None }),
                    InstView::Store { ptr: next(s1), value },
                );
                Ok(CodeView { vars: put(s2.vars, name, SlotView { ptr: next(s1), ty }), ..s2 })
            },
        },
        TypedStmtView::ExprStmt(expr) => match lower_expr(expr, cx, s) {
            Err(x) => Err(x),
            Ok((_, s1)) => Ok(s1),
        },
        TypedStmtView::Assign { name, expr } => match find(s.vars, name) {
            None => Err(LowerStopView::VariableNotInScope { name }),
            Some(slot) => match lower_expr(expr, cx, s) {
                Err(x) => Err(x),
                Ok((l, s1)) => {
                    let (value, _, s2) = to_value(l, s1);
                    Ok(emit(s2, InstView::Store { ptr: slot.ptr, value }))
                },
            },
        },
        TypedStmtView::While { .. } => lower_while(stmt, cx, s),
    }
}

/// Lowers a loop: a block for the condition, one for the body and one behind.
/// At the end of the body, variables that were rebound go back to the places
/// that the condition reads.
pub open spec fn lower_while(stmt: TypedStmtView, cx: LowerCx, s: CodeView) -> Result<
    CodeView,
    LowerStopView,
>
    decreases stmt, 0int,
{
    match stmt {
        TypedStmtView::While { cond, body } => {
            let header_block = s.insts.len();
            let body_block = header_block + 1;
            let exit_block = header_block + 2;
            let s1 = emit(emit(emit(s, InstView::Block), InstView::Block), InstView::Block);
            let s2 = enter(emit(s1, InstView::Jump { block: header_block }), header_block);
            match lower_expr(cond, cx, s2) {
                Err(x) => Err(x),
                Ok((c, s3)) => {
                    let (cond_value, cond_ty, s4) = to_value(c, s3);
                    if !(cond_ty is Int) {
                        Err(LowerStopView::Condition)
                    } else {
                        let s5 = enter(
                            emit(
                                s4,
                                InstView::Branch {
                                    cond: cond_value,
                                    then_block: body_block,
                                    else_block: exit_block,
                                },
                            ),
                            body_block,
                        );
                        match lower_block(body, cx, s5) {
                            Err(x) => Err(x),
                            Ok((_, s6)) => {
                                let s7 = emit(
                                    write_back(s.vars, s6),
                                    InstView::Jump { block: header_block },
                                );
                                Ok(CodeView { vars: s.vars, ..enter(s7, exit_block) })
                            },
                        }
                    }
                },
            }
        },
        _ => arbitrary(),
    }
}

/// Lowers a block: its statements, and then the expression at its end.
pub open spec fn lower_block(b: TypedBlockView, cx: LowerCx, s: CodeView) -> Result<
    (Option<LoweredView>, CodeView),
    LowerStopView,
>
    decreases b, 0int,
{
    match lower_stmts(b.stmts, cx, s) {
        Err(x) => Err(x),
        Ok(s1) => match b.ret {
            None => Ok((None, s1)),
            Some(e) => match lower_expr(e, cx, s1) {
                Err(x) => Err(x),
                Ok((l, s2)) => Ok((Some(l), s2)),
            },
        },
    }
}

} // verus!
