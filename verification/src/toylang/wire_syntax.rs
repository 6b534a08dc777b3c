//! The binary form of the syntax tree.
use crate::text::views;
use crate::toylang::ast::{expr_views, field_views, stmt_views, BinOp, Block, BlockView, Expr, ExprView, Stmt, StmtView};
use crate::toylang::wire_types::{dec_source, dec_sources, enc_source, enc_sources, fits_source, fits_sources, get_source, get_sources, lemma_source, lemma_sources, put_source, put_sources};
use crate::wire::{
    option_error, option_text, variant_error, variant_text,
    dec_bool, dec_i64, dec_list, dec_str, dec_u32, dec_u64, dec_u8, enc_bool, enc_i64, enc_list, enc_str, enc_u32, enc_u64, enc_u8,
    get_bool, get_i64, get_list, get_str, get_u32, get_u64, get_u8, lemma_bool, lemma_i64, lemma_list, lemma_str, lemma_u32, lemma_u64,
    lemma_u8, list_fits, put_bool, put_i64, put_list, put_str, put_u32, put_u64, put_u8, read_at, Wire,
};
use vstd::prelude::*;
use vstd::utf8::encode_utf8;

verus! {

broadcast use {vstd::seq::group_seq_axioms, vstd::std_specs::vec::group_vec_axioms};

/// The number of an operator.
pub open spec fn op_number(op: BinOp) -> u32 {
    match op {
        BinOp::Add => 0,
        BinOp::Sub => 1,
        BinOp::Mul => 2,
        BinOp::Div => 3,
        BinOp::Eq => 4,
        BinOp::Ne => 5,
        BinOp::Lt => 6,
        BinOp::Le => 7,
        BinOp::Gt => 8,
        BinOp::Ge => 9,
        BinOp::And => 10,
        BinOp::Or => 11,
    }
}

/// The binary form of an operator.
pub open spec fn enc_binop(op: BinOp) -> Seq<u8> {
    enc_u32(op_number(op))
}

/// Reads an operator.
pub open spec fn dec_binop(b: Seq<u8>) -> Result<(BinOp, Seq<u8>), Seq<char>> {
    match dec_u32(b) {
        Err(e) => Err(e),
        Ok((n, r)) => if n == 0 {
            Ok((BinOp::Add, r))
        } else if n == 1 {
            Ok((BinOp::Sub, r))
        } else if n == 2 {
            Ok((BinOp::Mul, r))
        } else if n == 3 {
            Ok((BinOp::Div, r))
        } else if n == 4 {
            Ok((BinOp::Eq, r))
        } else if n == 5 {
            Ok((BinOp::Ne, r))
        } else if n == 6 {
            Ok((BinOp::Lt, r))
        } else if n == 7 {
            Ok((BinOp::Le, r))
        } else if n == 8 {
            Ok((BinOp::Gt, r))
        } else if n == 9 {
            Ok((BinOp::Ge, r))
        } else if n == 10 {
            Ok((BinOp::And, r))
        } else if n == 11 {
            Ok((BinOp::Or, r))
        } else {
            Err(variant_text(n as nat, 12))
        },
    }
}

/// An operator is read back from its binary form.
pub proof fn lemma_binop(op: BinOp, rest: Seq<u8>)
    ensures
        dec_binop(enc_binop(op) + rest) == Ok::<_, Seq<char>>((op, rest)),
        enc_binop(op).len() > 0,
{
    lemma_u32(op_number(op), rest);
}

/// Appends the binary form of an operator.
pub fn put_binop(out: &mut Vec<u8>, op: BinOp)
    ensures
        final(out)@ == old(out)@ + enc_binop(op),
{
    let n: u32 = match op {
        BinOp::Add => 0,
        BinOp::Sub => 1,
        BinOp::Mul => 2,
        BinOp::Div => 3,
        BinOp::Eq => 4,
        BinOp::Ne => 5,
        BinOp::Lt => 6,
        BinOp::Le => 7,
        BinOp::Gt => 8,
        BinOp::Ge => 9,
        BinOp::And => 10,
        BinOp::Or => 11,
    };
    put_u32(out, n);
}

/// Reads an operator at a position.
pub fn get_binop(b: &[u8], pos: usize) -> (r: Result<(BinOp, usize), String>)
    requires
        pos <= b@.len(),
    ensures
        read_at(
            b@,
            pos as int,
            dec_binop(b@.skip(pos as int)),
            match r {
                Ok((op, p)) => Ok((op, p as int)),
                Err(e) => Err(e@),
            },
        ),
{
    match get_u32(b, pos) {
        Err(e) => Err(e),
        Ok((n, p)) => if n == 0 {
            Ok((BinOp::Add, p))
        } else if n == 1 {
            Ok((BinOp::Sub, p))
        } else if n == 2 {
            Ok((BinOp::Mul, p))
        } else if n == 3 {
            Ok((BinOp::Div, p))
        } else if n == 4 {
            Ok((BinOp::Eq, p))
        } else if n == 5 {
            Ok((BinOp::Ne, p))
        } else if n == 6 {
            Ok((BinOp::Lt, p))
        } else if n == 7 {
            Ok((BinOp::Le, p))
        } else if n == 8 {
            Ok((BinOp::Gt, p))
        } else if n == 9 {
            Ok((BinOp::Ge, p))
        } else if n == 10 {
            Ok((BinOp::And, p))
        } else if n == 11 {
            Ok((BinOp::Or, p))
        } else {
            Err(variant_error(n, 12))
        },
    }
}

/// The binary form of an expression.
#[verifier::opaque]
pub open spec fn enc_expr(v: ExprView) -> Seq<u8>
    decreases v, 0int,
{
    match v {
        ExprView::IntLit(f0, f1) => enc_u32(0) + enc_i64(f0) + enc_source(f1),
        ExprView::BoolLit(f0) => enc_u32(1) + enc_bool(f0),
        ExprView::StringLit(f0) => enc_u32(2) + enc_str(f0),
        ExprView::ByteStringLit(f0) => enc_u32(3) + enc_list::<u8>(f0),
        ExprView::Var(f0) => enc_u32(4) + enc_str(f0),
        ExprView::StaticCall { ty, method, type_args, args } => enc_u32(5) + enc_str(ty) + enc_str(method) + enc_sources(type_args) + enc_exprs(args),
        ExprView::MethodCall { receiver, method, args } => enc_u32(6) + enc_expr(*receiver) + enc_str(method) + enc_exprs(args),
        ExprView::FieldAccess { receiver, field } => enc_u32(7) + enc_expr(*receiver) + enc_str(field),
        ExprView::StructLit { name, type_args, fields } => enc_u32(8) + enc_str(name) + enc_sources(type_args) + enc_lit_fields(fields),
        ExprView::FnCall { name, type_args, args } => enc_u32(9) + enc_str(name) + enc_sources(type_args) + enc_exprs(args),
        ExprView::BinaryOp { op, left, right } => enc_u32(10) + enc_binop(op) + enc_expr(*left) + enc_expr(*right),
        ExprView::If { cond, then_body, else_body } => enc_u32(11) + enc_expr(*cond) + enc_block(*then_body) + enc_optbox_block(else_body),
        ExprView::UnaryNeg(f0) => enc_u32(12) + enc_expr(*f0),
        ExprView::Ref(f0) => enc_u32(13) + enc_expr(*f0),
    }
}

/// Reads an expression.
#[verifier::opaque]
pub open spec fn dec_expr(b: Seq<u8>) -> Result<(ExprView, Seq<u8>), Seq<char>>
    decreases b.len(), 0int,
{
    match dec_u32(b) {
        Err(e) => Err(e),
        Ok((tag, r)) => if tag == 0 {
            dec_expr_int_lit(r)
        } else if tag == 1 {
            dec_expr_bool_lit(r)
        } else if tag == 2 {
            dec_expr_string_lit(r)
        } else if tag == 3 {
            dec_expr_byte_string_lit(r)
        } else if tag == 4 {
            dec_expr_var(r)
        } else if tag == 5 {
            if r.len() < b.len() {
                dec_expr_static_call(r)
            } else {
                arbitrary()
            }
        } else if tag == 6 {
            if r.len() < b.len() {
                dec_expr_method_call(r)
            } else {
                arbitrary()
            }
        } else if tag == 7 {
            if r.len() < b.len() {
                dec_expr_field_access(r)
            } else {
                arbitrary()
            }
        } else if tag == 8 {
            if r.len() < b.len() {
                dec_expr_struct_lit(r)
            } else {
                arbitrary()
            }
        } else if tag == 9 {
            if r.len() < b.len() {
                dec_expr_fn_call(r)
            } else {
                arbitrary()
            }
        } else if tag == 10 {
            if r.len() < b.len() {
                dec_expr_binary_op(r)
            } else {
                arbitrary()
            }
        } else if tag == 11 {
            if r.len() < b.len() {
                dec_expr_if(r)
            } else {
                arbitrary()
            }
        } else if tag == 12 {
            if r.len() < b.len() {
                dec_expr_unary_neg(r)
            } else {
                arbitrary()
            }
        } else if tag == 13 {
            if r.len() < b.len() {
                dec_expr_ref(r)
            } else {
                arbitrary()
            }
        } else {
            Err(variant_text(tag as nat, 14))
        },
    }
}

/// Reads what follows the number of `IntLit` in an expression.
#[verifier::opaque]
pub open spec fn dec_expr_int_lit(r: Seq<u8>) -> Result<(ExprView, Seq<u8>), Seq<char>>
{
    match dec_i64(r) {
        Err(e) => Err(e),
        Ok((f0, r0)) => match dec_source(r0) {
            Err(e) => Err(e),
            Ok((f1, r1)) => Ok((ExprView::IntLit(f0, f1), r1)),
        },
    }
}

/// Reads what follows the number of `BoolLit` in an expression.
#[verifier::opaque]
pub open spec fn dec_expr_bool_lit(r: Seq<u8>) -> Result<(ExprView, Seq<u8>), Seq<char>>
{
    match dec_bool(r) {
        Err(e) => Err(e),
        Ok((f0, r0)) => Ok((ExprView::BoolLit(f0), r0)),
    }
}

/// Reads what follows the number of `StringLit` in an expression.
#[verifier::opaque]
pub open spec fn dec_expr_string_lit(r: Seq<u8>) -> Result<(ExprView, Seq<u8>), Seq<char>>
{
    match dec_str(r) {
        Err(e) => Err(e),
        Ok((f0, r0)) => Ok((ExprView::StringLit(f0), r0)),
    }
}

/// Reads what follows the number of `ByteStringLit` in an expression.
#[verifier::opaque]
pub open spec fn dec_expr_byte_string_lit(r: Seq<u8>) -> Result<(ExprView, Seq<u8>), Seq<char>>
{
    match dec_list::<u8>(r) {
        Err(e) => Err(e),
        Ok((f0, r0)) => Ok((ExprView::ByteStringLit(f0), r0)),
    }
}

/// Reads what follows the number of `Var` in an expression.
#[verifier::opaque]
pub open spec fn dec_expr_var(r: Seq<u8>) -> Result<(ExprView, Seq<u8>), Seq<char>>
{
    match dec_str(r) {
        Err(e) => Err(e),
        Ok((f0, r0)) => Ok((ExprView::Var(f0), r0)),
    }
}

/// Reads what follows the number of `StaticCall` in an expression.
#[verifier::opaque]
pub open spec fn dec_expr_static_call(r: Seq<u8>) -> Result<(ExprView, Seq<u8>), Seq<char>>
    decreases r.len(), 8int,
{
    match dec_str(r) {
        Err(e) => Err(e),
        Ok((ty, r0)) => if r0.len() < r.len() {
            match dec_str(r0) {
                Err(e) => Err(e),
                Ok((method, r1)) => if r1.len() < r.len() {
                    match dec_sources(r1) {
                        Err(e) => Err(e),
                        Ok((type_args, r2)) => if r2.len() < r.len() {
                            match dec_exprs(r2) {
                                Err(e) => Err(e),
                                Ok((args, r3)) => Ok((ExprView::StaticCall { ty: ty, method: method, type_args: type_args, args: args }, r3)),
                            }
                        } else {
                            arbitrary()
                        },
                    }
                } else {
                    arbitrary()
                },
            }
        } else {
            arbitrary()
        },
    }
}

/// Reads what follows the number of `MethodCall` in an expression.
#[verifier::opaque]
pub open spec fn dec_expr_method_call(r: Seq<u8>) -> Result<(ExprView, Seq<u8>), Seq<char>>
    decreases r.len(), 8int,
{
    match dec_expr(r) {
        Err(e) => Err(e),
        Ok((receiver, r0)) => if r0.len() < r.len() {
            match dec_str(r0) {
                Err(e) => Err(e),
                Ok((method, r1)) => if r1.len() < r.len() {
                    match dec_exprs(r1) {
                        Err(e) => Err(e),
                        Ok((args, r2)) => Ok((ExprView::MethodCall { receiver: Box::new(receiver), method: method, args: args }, r2)),
                    }
                } else {
                    arbitrary()
                },
            }
        } else {
            arbitrary()
        },
    }
}

/// Reads what follows the number of `FieldAccess` in an expression.
#[verifier::opaque]
pub open spec fn dec_expr_field_access(r: Seq<u8>) -> Result<(ExprView, Seq<u8>), Seq<char>>
    decreases r.len(), 8int,
{
    match dec_expr(r) {
        Err(e) => Err(e),
        Ok((receiver, r0)) => match dec_str(r0) {
            Err(e) => Err(e),
            Ok((field, r1)) => Ok((ExprView::FieldAccess { receiver: Box::new(receiver), field: field }, r1)),
        },
    }
}

/// Reads what follows the number of `StructLit` in an expression.
#[verifier::opaque]
pub open spec fn dec_expr_struct_lit(r: Seq<u8>) -> Result<(ExprView, Seq<u8>), Seq<char>>
    decreases r.len(), 8int,
{
    match dec_str(r) {
        Err(e) => Err(e),
        Ok((name, r0)) => if r0.len() < r.len() {
            match dec_sources(r0) {
                Err(e) => Err(e),
                Ok((type_args, r1)) => if r1.len() < r.len() {
                    match dec_lit_fields(r1) {
                        Err(e) => Err(e),
                        Ok((fields, r2)) => Ok((ExprView::StructLit { name: name, type_args: type_args, fields: fields }, r2)),
                    }
                } else {
                    arbitrary()
                },
            }
        } else {
            arbitrary()
        },
    }
}

/// Reads what follows the number of `FnCall` in an expression.
#[verifier::opaque]
pub open spec fn dec_expr_fn_call(r: Seq<u8>) -> Result<(ExprView, Seq<u8>), Seq<char>>
    decreases r.len(), 8int,
{
    match dec_str(r) {
        Err(e) => Err(e),
        Ok((name, r0)) => if r0.len() < r.len() {
            match dec_sources(r0) {
                Err(e) => Err(e),
                Ok((type_args, r1)) => if r1.len() < r.len() {
                    match dec_exprs(r1) {
                        Err(e) => Err(e),
                        Ok((args, r2)) => Ok((ExprView::FnCall { name: name, type_args: type_args, args: args }, r2)),
                    }
                } else {
                    arbitrary()
                },
            }
        } else {
            arbitrary()
        },
    }
}

/// Reads what follows the number of `BinaryOp` in an expression.
#[verifier::opaque]
pub open spec fn dec_expr_binary_op(r: Seq<u8>) -> Result<(ExprView, Seq<u8>), Seq<char>>
    decreases r.len(), 8int,
{
    match dec_binop(r) {
        Err(e) => Err(e),
        Ok((op, r0)) => if r0.len() < r.len() {
            match dec_expr(r0) {
                Err(e) => Err(e),
                Ok((left, r1)) => if r1.len() < r.len() {
                    match dec_expr(r1) {
                        Err(e) => Err(e),
                        Ok((right, r2)) => Ok((ExprView::BinaryOp { op: op, left: Box::new(left), right: Box::new(right) }, r2)),
                    }
                } else {
                    arbitrary()
                },
            }
        } else {
            arbitrary()
        },
    }
}

/// Reads what follows the number of `If` in an expression.
#[verifier::opaque]
pub open spec fn dec_expr_if(r: Seq<u8>) -> Result<(ExprView, Seq<u8>), Seq<char>>
    decreases r.len(), 8int,
{
    match dec_expr(r) {
        Err(e) => Err(e),
        Ok((cond, r0)) => if r0.len() < r.len() {
            match dec_block(r0) {
                Err(e) => Err(e),
                Ok((then_body, r1)) => if r1.len() < r.len() {
                    match dec_optbox_block(r1) {
                        Err(e) => Err(e),
                        Ok((else_body, r2)) => Ok((ExprView::If { cond: Box::new(cond), then_body: Box::new(then_body), else_body: else_body }, r2)),
                    }
                } else {
                    arbitrary()
                },
            }
        } else {
            arbitrary()
        },
    }
}

/// Reads what follows the number of `UnaryNeg` in an expression.
#[verifier::opaque]
pub open spec fn dec_expr_unary_neg(r: Seq<u8>) -> Result<(ExprView, Seq<u8>), Seq<char>>
    decreases r.len(), 8int,
{
    match dec_expr(r) {
        Err(e) => Err(e),
        Ok((f0, r0)) => Ok((ExprView::UnaryNeg(Box::new(f0)), r0)),
    }
}

/// Reads what follows the number of `Ref` in an expression.
#[verifier::opaque]
pub open spec fn dec_expr_ref(r: Seq<u8>) -> Result<(ExprView, Seq<u8>), Seq<char>>
    decreases r.len(), 8int,
{
    match dec_expr(r) {
        Err(e) => Err(e),
        Ok((f0, r0)) => Ok((ExprView::Ref(Box::new(f0)), r0)),
    }
}

/// Whether every length in an expression fits in 64 bits.
#[verifier::opaque]
pub open spec fn fits_expr(v: ExprView) -> bool
    decreases v, 0int,
{
    match v {
        ExprView::IntLit(f0, f1) => fits_source(f1),
        ExprView::StringLit(f0) => encode_utf8(f0).len() <= u64::MAX,
        ExprView::ByteStringLit(f0) => list_fits::<u8>(f0),
        ExprView::Var(f0) => encode_utf8(f0).len() <= u64::MAX,
        ExprView::StaticCall { ty, method, type_args, args } => encode_utf8(ty).len() <= u64::MAX && encode_utf8(method).len() <= u64::MAX && fits_sources(type_args) && fits_exprs(args),
        ExprView::MethodCall { receiver, method, args } => fits_expr(*receiver) && encode_utf8(method).len() <= u64::MAX && fits_exprs(args),
        ExprView::FieldAccess { receiver, field } => fits_expr(*receiver) && encode_utf8(field).len() <= u64::MAX,
        ExprView::StructLit { name, type_args, fields } => encode_utf8(name).len() <= u64::MAX && fits_sources(type_args) && fits_lit_fields(fields),
        ExprView::FnCall { name, type_args, args } => encode_utf8(name).len() <= u64::MAX && fits_sources(type_args) && fits_exprs(args),
        ExprView::BinaryOp { op, left, right } => fits_expr(*left) && fits_expr(*right),
        ExprView::If { cond, then_body, else_body } => fits_expr(*cond) && fits_block(*then_body) && fits_optbox_block(else_body),
        ExprView::UnaryNeg(f0) => fits_expr(*f0),
        ExprView::Ref(f0) => fits_expr(*f0),
        _ => true,
    }
}

/// An expression is read back from its binary form.
pub proof fn lemma_expr(v: ExprView, rest: Seq<u8>)
    requires
        fits_expr(v),
    ensures
        dec_expr(enc_expr(v) + rest) == Ok::<_, Seq<char>>((v, rest)),
        enc_expr(v).len() > 0,
    decreases v, 1int,
{
    reveal(enc_expr);
    reveal(dec_expr);
    match v {
        ExprView::IntLit(f0, f1) => {
            let payload = enc_i64(f0) + enc_source(f1);
            lemma_expr_int_lit(v, rest);
            lemma_u32(0, payload + rest);
            assert(enc_expr(v) + rest =~= enc_u32(0) + (payload + rest));
        },
        ExprView::BoolLit(f0) => {
            let payload = enc_bool(f0);
            lemma_expr_bool_lit(v, rest);
            lemma_u32(1, payload + rest);
            assert(enc_expr(v) + rest =~= enc_u32(1) + (payload + rest));
        },
        ExprView::StringLit(f0) => {
            let payload = enc_str(f0);
            lemma_expr_string_lit(v, rest);
            lemma_u32(2, payload + rest);
            assert(enc_expr(v) + rest =~= enc_u32(2) + (payload + rest));
        },
        ExprView::ByteStringLit(f0) => {
            let payload = enc_list::<u8>(f0);
            lemma_expr_byte_string_lit(v, rest);
            lemma_u32(3, payload + rest);
            assert(enc_expr(v) + rest =~= enc_u32(3) + (payload + rest));
        },
        ExprView::Var(f0) => {
            let payload = enc_str(f0);
            lemma_expr_var(v, rest);
            lemma_u32(4, payload + rest);
            assert(enc_expr(v) + rest =~= enc_u32(4) + (payload + rest));
        },
        ExprView::StaticCall { ty, method, type_args, args } => {
            reveal(enc_exprs);
            reveal(dec_expr_static_call);
            let payload = enc_str(ty) + enc_str(method) + enc_sources(type_args) + enc_exprs(args);
            lemma_expr_static_call(v, rest);
            lemma_u32(5, payload + rest);
            assert(enc_expr(v) + rest =~= enc_u32(5) + (payload + rest));
        },
        ExprView::MethodCall { receiver, method, args } => {
            reveal(enc_exprs);
            reveal(dec_expr_method_call);
            let payload = enc_expr(*receiver) + enc_str(method) + enc_exprs(args);
            lemma_expr_method_call(v, rest);
            lemma_u32(6, payload + rest);
            assert(enc_expr(v) + rest =~= enc_u32(6) + (payload + rest));
        },
        ExprView::FieldAccess { receiver, field } => {
            reveal(dec_expr_field_access);
            let payload = enc_expr(*receiver) + enc_str(field);
            lemma_expr_field_access(v, rest);
            lemma_u32(7, payload + rest);
            assert(enc_expr(v) + rest =~= enc_u32(7) + (payload + rest));
        },
        ExprView::StructLit { name, type_args, fields } => {
            reveal(enc_lit_fields);
            reveal(dec_expr_struct_lit);
            let payload = enc_str(name) + enc_sources(type_args) + enc_lit_fields(fields);
            lemma_expr_struct_lit(v, rest);
            lemma_u32(8, payload + rest);
            assert(enc_expr(v) + rest =~= enc_u32(8) + (payload + rest));
        },
        ExprView::FnCall { name, type_args, args } => {
            reveal(enc_exprs);
            reveal(dec_expr_fn_call);
            let payload = enc_str(name) + enc_sources(type_args) + enc_exprs(args);
            lemma_expr_fn_call(v, rest);
            lemma_u32(9, payload + rest);
            assert(enc_expr(v) + rest =~= enc_u32(9) + (payload + rest));
        },
        ExprView::BinaryOp { op, left, right } => {
            reveal(dec_expr_binary_op);
            let payload = enc_binop(op) + enc_expr(*left) + enc_expr(*right);
            lemma_expr_binary_op(v, rest);
            lemma_u32(10, payload + rest);
            assert(enc_expr(v) + rest =~= enc_u32(10) + (payload + rest));
        },
        ExprView::If { cond, then_body, else_body } => {
            reveal(enc_block);
            reveal(enc_optbox_block);
            reveal(dec_expr_if);
            let payload = enc_expr(*cond) + enc_block(*then_body) + enc_optbox_block(else_body);
            lemma_expr_if(v, rest);
            lemma_u32(11, payload + rest);
            assert(enc_expr(v) + rest =~= enc_u32(11) + (payload + rest));
        },
        ExprView::UnaryNeg(f0) => {
            reveal(dec_expr_unary_neg);
            let payload = enc_expr(*f0);
            lemma_expr_unary_neg(v, rest);
            lemma_u32(12, payload + rest);
            assert(enc_expr(v) + rest =~= enc_u32(12) + (payload + rest));
        },
        ExprView::Ref(f0) => {
            reveal(dec_expr_ref);
            let payload = enc_expr(*f0);
            lemma_expr_ref(v, rest);
            lemma_u32(13, payload + rest);
            assert(enc_expr(v) + rest =~= enc_u32(13) + (payload + rest));
        },
    }
}

proof fn lemma_expr_int_lit(v: ExprView, rest: Seq<u8>)
    requires
        v is IntLit,
        fits_expr(v),
    ensures
        v matches ExprView::IntLit(f0, f1) ==> dec_expr_int_lit(enc_i64(f0) + enc_source(f1) + rest) == Ok::<_, Seq<char>>((v, rest)),
    decreases v, 0int,
{
    reveal(fits_expr);
    reveal(dec_expr_int_lit);
    match v {
        ExprView::IntLit(f0, f1) => {
            let t1 = rest;
            lemma_source(f1, t1);
            let t0 = (enc_source(f1) + t1);
            lemma_i64(f0, t0);
            assert(enc_i64(f0) + enc_source(f1) + rest =~= enc_i64(f0) + t0);
        },
        _ => {},
    }
}

proof fn lemma_expr_bool_lit(v: ExprView, rest: Seq<u8>)
    requires
        v is BoolLit,
        fits_expr(v),
    ensures
        v matches ExprView::BoolLit(f0) ==> dec_expr_bool_lit(enc_bool(f0) + rest) == Ok::<_, Seq<char>>((v, rest)),
    decreases v, 0int,
{
    reveal(fits_expr);
    reveal(dec_expr_bool_lit);
    match v {
        ExprView::BoolLit(f0) => {
            let t0 = rest;
            lemma_bool(f0, t0);
            assert(enc_bool(f0) + rest =~= enc_bool(f0) + t0);
        },
        _ => {},
    }
}

proof fn lemma_expr_string_lit(v: ExprView, rest: Seq<u8>)
    requires
        v is StringLit,
        fits_expr(v),
    ensures
        v matches ExprView::StringLit(f0) ==> dec_expr_string_lit(enc_str(f0) + rest) == Ok::<_, Seq<char>>((v, rest)),
    decreases v, 0int,
{
    reveal(fits_expr);
    reveal(dec_expr_string_lit);
    match v {
        ExprView::StringLit(f0) => {
            let t0 = rest;
            lemma_str(f0, t0);
            assert(enc_str(f0) + rest =~= enc_str(f0) + t0);
        },
        _ => {},
    }
}

proof fn lemma_expr_byte_string_lit(v: ExprView, rest: Seq<u8>)
    requires
        v is ByteStringLit,
        fits_expr(v),
    ensures
        v matches ExprView::ByteStringLit(f0) ==> dec_expr_byte_string_lit(enc_list::<u8>(f0) + rest) == Ok::<_, Seq<char>>((v, rest)),
    decreases v, 0int,
{
    reveal(fits_expr);
    reveal(dec_expr_byte_string_lit);
    match v {
        ExprView::ByteStringLit(f0) => {
            let t0 = rest;
            lemma_list::<u8>(f0, t0);
            assert(enc_list::<u8>(f0) + rest =~= enc_list::<u8>(f0) + t0);
        },
        _ => {},
    }
}

proof fn lemma_expr_var(v: ExprView, rest: Seq<u8>)
    requires
        v is Var,
        fits_expr(v),
    ensures
        v matches ExprView::Var(f0) ==> dec_expr_var(enc_str(f0) + rest) == Ok::<_, Seq<char>>((v, rest)),
    decreases v, 0int,
{
    reveal(fits_expr);
    reveal(dec_expr_var);
    match v {
        ExprView::Var(f0) => {
            let t0 = rest;
            lemma_str(f0, t0);
            assert(enc_str(f0) + rest =~= enc_str(f0) + t0);
        },
        _ => {},
    }
}

proof fn lemma_expr_static_call(v: ExprView, rest: Seq<u8>)
    requires
        v is StaticCall,
        fits_expr(v),
    ensures
        v matches ExprView::StaticCall { ty, method, type_args, args } ==> dec_expr_static_call(enc_str(ty) + enc_str(method) + enc_sources(type_args) + enc_exprs(args) + rest) == Ok::<_, Seq<char>>((v, rest)),
    decreases v, 0int,
{
    reveal(fits_expr);
    reveal(dec_expr_static_call);
    reveal(fits_exprs);
    reveal(dec_exprs);
    match v {
        ExprView::StaticCall { ty, method, type_args, args } => {
            let t3 = rest;
            lemma_exprs(args, t3);
            let t2 = (enc_exprs(args) + t3);
            lemma_sources(type_args, t2);
            let t1 = (enc_sources(type_args) + t2);
            lemma_str(method, t1);
            let t0 = (enc_str(method) + t1);
            lemma_str(ty, t0);
            assert(enc_str(ty) + enc_str(method) + enc_sources(type_args) + enc_exprs(args) + rest =~= enc_str(ty) + t0);
        },
        _ => {},
    }
}

proof fn lemma_expr_method_call(v: ExprView, rest: Seq<u8>)
    requires
        v is MethodCall,
        fits_expr(v),
    ensures
        v matches ExprView::MethodCall { receiver, method, args } ==> dec_expr_method_call(enc_expr(*receiver) + enc_str(method) + enc_exprs(args) + rest) == Ok::<_, Seq<char>>((v, rest)),
    decreases v, 0int,
{
    reveal(fits_expr);
    reveal(dec_expr_method_call);
    reveal(fits_exprs);
    reveal(dec_expr);
    reveal(dec_exprs);
    match v {
        ExprView::MethodCall { receiver, method, args } => {
            let t2 = rest;
            lemma_exprs(args, t2);
            let t1 = (enc_exprs(args) + t2);
            lemma_str(method, t1);
            let t0 = (enc_str(method) + t1);
            lemma_expr(*receiver, t0);
            assert(enc_expr(*receiver) + enc_str(method) + enc_exprs(args) + rest =~= enc_expr(*receiver) + t0);
        },
        _ => {},
    }
}

proof fn lemma_expr_field_access(v: ExprView, rest: Seq<u8>)
    requires
        v is FieldAccess,
        fits_expr(v),
    ensures
        v matches ExprView::FieldAccess { receiver, field } ==> dec_expr_field_access(enc_expr(*receiver) + enc_str(field) + rest) == Ok::<_, Seq<char>>((v, rest)),
    decreases v, 0int,
{
    reveal(fits_expr);
    reveal(dec_expr_field_access);
    reveal(dec_expr);
    match v {
        ExprView::FieldAccess { receiver, field } => {
            let t1 = rest;
            lemma_str(field, t1);
            let t0 = (enc_str(field) + t1);
            lemma_expr(*receiver, t0);
            assert(enc_expr(*receiver) + enc_str(field) + rest =~= enc_expr(*receiver) + t0);
        },
        _ => {},
    }
}

proof fn lemma_expr_struct_lit(v: ExprView, rest: Seq<u8>)
    requires
        v is StructLit,
        fits_expr(v),
    ensures
        v matches ExprView::StructLit { name, type_args, fields } ==> dec_expr_struct_lit(enc_str(name) + enc_sources(type_args) + enc_lit_fields(fields) + rest) == Ok::<_, Seq<char>>((v, rest)),
    decreases v, 0int,
{
    reveal(fits_expr);
    reveal(dec_expr_struct_lit);
    reveal(fits_lit_fields);
    reveal(dec_lit_fields);
    match v {
        ExprView::StructLit { name, type_args, fields } => {
            let t2 = rest;
            lemma_lit_fields(fields, t2);
            let t1 = (enc_lit_fields(fields) + t2);
            lemma_sources(type_args, t1);
            let t0 = (enc_sources(type_args) + t1);
            lemma_str(name, t0);
            assert(enc_str(name) + enc_sources(type_args) + enc_lit_fields(fields) + rest =~= enc_str(name) + t0);
        },
        _ => {},
    }
}

proof fn lemma_expr_fn_call(v: ExprView, rest: Seq<u8>)
    requires
        v is FnCall,
        fits_expr(v),
    ensures
        v matches ExprView::FnCall { name, type_args, args } ==> dec_expr_fn_call(enc_str(name) + enc_sources(type_args) + enc_exprs(args) + rest) == Ok::<_, Seq<char>>((v, rest)),
    decreases v, 0int,
{
    reveal(fits_expr);
    reveal(dec_expr_fn_call);
    reveal(fits_exprs);
    reveal(dec_exprs);
    match v {
        ExprView::FnCall { name, type_args, args } => {
            let t2 = rest;
            lemma_exprs(args, t2);
            let t1 = (enc_exprs(args) + t2);
            lemma_sources(type_args, t1);
            let t0 = (enc_sources(type_args) + t1);
            lemma_str(name, t0);
            assert(enc_str(name) + enc_sources(type_args) + enc_exprs(args) + rest =~= enc_str(name) + t0);
        },
        _ => {},
    }
}

proof fn lemma_expr_binary_op(v: ExprView, rest: Seq<u8>)
    requires
        v is BinaryOp,
        fits_expr(v),
    ensures
        v matches ExprView::BinaryOp { op, left, right } ==> dec_expr_binary_op(enc_binop(op) + enc_expr(*left) + enc_expr(*right) + rest) == Ok::<_, Seq<char>>((v, rest)),
    decreases v, 0int,
{
    reveal(fits_expr);
    reveal(dec_expr_binary_op);
    reveal(dec_expr);
    match v {
        ExprView::BinaryOp { op, left, right } => {
            let t2 = rest;
            lemma_expr(*right, t2);
            let t1 = (enc_expr(*right) + t2);
            lemma_expr(*left, t1);
            let t0 = (enc_expr(*left) + t1);
            lemma_binop(op, t0);
            assert(enc_binop(op) + enc_expr(*left) + enc_expr(*right) + rest =~= enc_binop(op) + t0);
        },
        _ => {},
    }
}

proof fn lemma_expr_if(v: ExprView, rest: Seq<u8>)
    requires
        v is If,
        fits_expr(v),
    ensures
        v matches ExprView::If { cond, then_body, else_body } ==> dec_expr_if(enc_expr(*cond) + enc_block(*then_body) + enc_optbox_block(else_body) + rest) == Ok::<_, Seq<char>>((v, rest)),
    decreases v, 0int,
{
    reveal(fits_expr);
    reveal(dec_expr_if);
    reveal(fits_block);
    reveal(fits_optbox_block);
    reveal(dec_expr);
    reveal(dec_block);
    reveal(dec_optbox_block);
    match v {
        ExprView::If { cond, then_body, else_body } => {
            let t2 = rest;
            lemma_optbox_block(else_body, t2);
            let t1 = (enc_optbox_block(else_body) + t2);
            lemma_block(*then_body, t1);
            let t0 = (enc_block(*then_body) + t1);
            lemma_expr(*cond, t0);
            assert(enc_expr(*cond) + enc_block(*then_body) + enc_optbox_block(else_body) + rest =~= enc_expr(*cond) + t0);
        },
        _ => {},
    }
}

proof fn lemma_expr_unary_neg(v: ExprView, rest: Seq<u8>)
    requires
        v is UnaryNeg,
        fits_expr(v),
    ensures
        v matches ExprView::UnaryNeg(f0) ==> dec_expr_unary_neg(enc_expr(*f0) + rest) == Ok::<_, Seq<char>>((v, rest)),
    decreases v, 0int,
{
    reveal(fits_expr);
    reveal(dec_expr_unary_neg);
    reveal(dec_expr);
    match v {
        ExprView::UnaryNeg(f0) => {
            let t0 = rest;
            lemma_expr(*f0, t0);
            assert(enc_expr(*f0) + rest =~= enc_expr(*f0) + t0);
        },
        _ => {},
    }
}

proof fn lemma_expr_ref(v: ExprView, rest: Seq<u8>)
    requires
        v is Ref,
        fits_expr(v),
    ensures
        v matches ExprView::Ref(f0) ==> dec_expr_ref(enc_expr(*f0) + rest) == Ok::<_, Seq<char>>((v, rest)),
    decreases v, 0int,
{
    reveal(fits_expr);
    reveal(dec_expr_ref);
    reveal(dec_expr);
    match v {
        ExprView::Ref(f0) => {
            let t0 = rest;
            lemma_expr(*f0, t0);
            assert(enc_expr(*f0) + rest =~= enc_expr(*f0) + t0);
        },
        _ => {},
    }
}

/// Appends the binary form of an expression.
#[verifier::rlimit(60)]
#[verifier::spinoff_prover]
pub fn put_expr(out: &mut Vec<u8>, v: &Expr)
    ensures
        final(out)@ == old(out)@ + enc_expr(v.model()),
        fits_expr(v.model()),
    decreases v, 0int,
{
    let ghost before = out@;
    match v {
        Expr::IntLit(f0, f1) => {
            proof {
                reveal(enc_expr);
                reveal(fits_expr);
            }
            put_u32(out, 0);
            put_i64(out, *f0);
            put_source(out, f1);
            assert(out@ =~= before + enc_expr(v.model()));
        },
        Expr::BoolLit(f0) => {
            proof {
                reveal(enc_expr);
                reveal(fits_expr);
            }
            put_u32(out, 1);
            put_bool(out, *f0);
            assert(out@ =~= before + enc_expr(v.model()));
        },
        Expr::StringLit(f0) => {
            proof {
                reveal(enc_expr);
                reveal(fits_expr);
            }
            put_u32(out, 2);
            put_str(out, f0);
            assert(out@ =~= before + enc_expr(v.model()));
        },
        Expr::ByteStringLit(f0) => {
            proof {
                reveal(enc_expr);
                reveal(fits_expr);
            }
            put_u32(out, 3);
            put_list::<u8>(out, f0);
                assert(views(f0@) =~= f0@);
            assert(out@ =~= before + enc_expr(v.model()));
        },
        Expr::Var(f0) => {
            proof {
                reveal(enc_expr);
                reveal(fits_expr);
            }
            put_u32(out, 4);
            put_str(out, f0);
            assert(out@ =~= before + enc_expr(v.model()));
        },
        Expr::StaticCall { ty, method, type_args, args } => {
            proof {
                reveal(enc_expr);
                reveal(fits_expr);
                reveal(enc_exprs);
                reveal(fits_exprs);
            }
            put_u32(out, 5);
            put_str(out, ty);
            put_str(out, method);
            put_sources(out, type_args);
            put_exprs(out, args);
            assert(out@ =~= before + enc_expr(v.model()));
        },
        Expr::MethodCall { receiver, method, args } => {
            proof {
                reveal(enc_expr);
                reveal(fits_expr);
                reveal(enc_exprs);
                reveal(fits_exprs);
            }
            put_u32(out, 6);
            put_expr(out, receiver);
            put_str(out, method);
            put_exprs(out, args);
            assert(out@ =~= before + enc_expr(v.model()));
        },
        Expr::FieldAccess { receiver, field } => {
            proof {
                reveal(enc_expr);
                reveal(fits_expr);
            }
            put_u32(out, 7);
            put_expr(out, receiver);
            put_str(out, field);
            assert(out@ =~= before + enc_expr(v.model()));
        },
        Expr::StructLit { name, type_args, fields } => {
            proof {
                reveal(enc_expr);
                reveal(fits_expr);
                reveal(enc_lit_fields);
                reveal(fits_lit_fields);
            }
            put_u32(out, 8);
            put_str(out, name);
            put_sources(out, type_args);
            put_lit_fields(out, fields);
            assert(out@ =~= before + enc_expr(v.model()));
        },
        Expr::FnCall { name, type_args, args } => {
            proof {
                reveal(enc_expr);
                reveal(fits_expr);
                reveal(enc_exprs);
                reveal(fits_exprs);
            }
            put_u32(out, 9);
            put_str(out, name);
            put_sources(out, type_args);
            put_exprs(out, args);
            assert(out@ =~= before + enc_expr(v.model()));
        },
        Expr::BinaryOp { op, left, right } => {
            proof {
                reveal(enc_expr);
                reveal(fits_expr);
            }
            put_u32(out, 10);
            put_binop(out, *op);
            put_expr(out, left);
            put_expr(out, right);
            assert(out@ =~= before + enc_expr(v.model()));
        },
        Expr::If { cond, then_body, else_body } => {
            proof {
                reveal(enc_expr);
                reveal(fits_expr);
                reveal(enc_block);
                reveal(enc_optbox_block);
                reveal(fits_block);
                reveal(fits_optbox_block);
            }
            put_u32(out, 11);
            put_expr(out, cond);
            put_block(out, then_body);
            put_optbox_block(out, else_body);
            assert(out@ =~= before + enc_expr(v.model()));
        },
        Expr::UnaryNeg(f0) => {
            proof {
                reveal(enc_expr);
                reveal(fits_expr);
            }
            put_u32(out, 12);
            put_expr(out, f0);
            assert(out@ =~= before + enc_expr(v.model()));
        },
        Expr::Ref(f0) => {
            proof {
                reveal(enc_expr);
                reveal(fits_expr);
            }
            put_u32(out, 13);
            put_expr(out, f0);
            assert(out@ =~= before + enc_expr(v.model()));
        },
    }
}

/// Reads an expression at a position.
pub fn get_expr(b: &[u8], pos: usize) -> (r: Result<(Expr, usize), String>)
    requires
        pos <= b@.len(),
    ensures
        read_at(
            b@,
            pos as int,
            dec_expr(b@.skip(pos as int)),
            match r {
                Ok((v, p)) => Ok((v.model(), p as int)),
                Err(e) => Err(e@),
            },
        ),
    decreases b@.len() - pos, 0int,
{
    proof {
        reveal(dec_expr);
        reveal(dec_expr_static_call);
        reveal(dec_expr_method_call);
        reveal(dec_expr_field_access);
        reveal(dec_expr_struct_lit);
        reveal(dec_expr_fn_call);
        reveal(dec_expr_binary_op);
        reveal(dec_expr_if);
        reveal(dec_expr_unary_neg);
        reveal(dec_expr_ref);
    }
    let (tag, p) = match get_u32(b, pos) {
        Err(e) => {
            return Err(e);
        },
        Ok(x) => x,
    };
    if tag == 0 {
        get_expr_int_lit(b, p)
    } else if tag == 1 {
        get_expr_bool_lit(b, p)
    } else if tag == 2 {
        get_expr_string_lit(b, p)
    } else if tag == 3 {
        get_expr_byte_string_lit(b, p)
    } else if tag == 4 {
        get_expr_var(b, p)
    } else if tag == 5 {
        get_expr_static_call(b, p)
    } else if tag == 6 {
        get_expr_method_call(b, p)
    } else if tag == 7 {
        get_expr_field_access(b, p)
    } else if tag == 8 {
        get_expr_struct_lit(b, p)
    } else if tag == 9 {
        get_expr_fn_call(b, p)
    } else if tag == 10 {
        get_expr_binary_op(b, p)
    } else if tag == 11 {
        get_expr_if(b, p)
    } else if tag == 12 {
        get_expr_unary_neg(b, p)
    } else if tag == 13 {
        get_expr_ref(b, p)
    } else {
        Err(variant_error(tag, 14))
    }
}

fn get_expr_int_lit(b: &[u8], pos: usize) -> (r: Result<(Expr, usize), String>)
    requires
        pos <= b@.len(),
    ensures
        read_at(
            b@,
            pos as int,
            dec_expr_int_lit(b@.skip(pos as int)),
            match r {
                Ok((v, p)) => Ok((v.model(), p as int)),
                Err(e) => Err(e@),
            },
        ),
{
    proof {
        reveal(dec_expr_int_lit);
    }
    let (f0, p0) = match get_i64(b, pos) {
        Err(e) => {
            return Err(e);
        },
        Ok(x) => x,
    };
    let (f1, p1) = match get_source(b, p0) {
        Err(e) => {
            return Err(e);
        },
        Ok(x) => x,
    };
    Ok((Expr::IntLit(f0, f1), p1))
}

fn get_expr_bool_lit(b: &[u8], pos: usize) -> (r: Result<(Expr, usize), String>)
    requires
        pos <= b@.len(),
    ensures
        read_at(
            b@,
            pos as int,
            dec_expr_bool_lit(b@.skip(pos as int)),
            match r {
                Ok((v, p)) => Ok((v.model(), p as int)),
                Err(e) => Err(e@),
            },
        ),
{
    proof {
        reveal(dec_expr_bool_lit);
    }
    let (f0, p0) = match get_bool(b, pos) {
        Err(e) => {
            return Err(e);
        },
        Ok(x) => x,
    };
    Ok((Expr::BoolLit(f0), p0))
}

fn get_expr_string_lit(b: &[u8], pos: usize) -> (r: Result<(Expr, usize), String>)
    requires
        pos <= b@.len(),
    ensures
        read_at(
            b@,
            pos as int,
            dec_expr_string_lit(b@.skip(pos as int)),
            match r {
                Ok((v, p)) => Ok((v.model(), p as int)),
                Err(e) => Err(e@),
            },
        ),
{
    proof {
        reveal(dec_expr_string_lit);
    }
    let (f0, p0) = match get_str(b, pos) {
        Err(e) => {
            return Err(e);
        },
        Ok(x) => x,
    };
    Ok((Expr::StringLit(f0), p0))
}

fn get_expr_byte_string_lit(b: &[u8], pos: usize) -> (r: Result<(Expr, usize), String>)
    requires
        pos <= b@.len(),
    ensures
        read_at(
            b@,
            pos as int,
            dec_expr_byte_string_lit(b@.skip(pos as int)),
            match r {
                Ok((v, p)) => Ok((v.model(), p as int)),
                Err(e) => Err(e@),
            },
        ),
{
    proof {
        reveal(dec_expr_byte_string_lit);
    }
    let (f0, p0) = match get_list::<u8>(b, pos) {
        Err(e) => {
            return Err(e);
        },
        Ok(x) => x,
    };
    assert(views(f0@) =~= f0@);
    Ok((Expr::ByteStringLit(f0), p0))
}

fn get_expr_var(b: &[u8], pos: usize) -> (r: Result<(Expr, usize), String>)
    requires
        pos <= b@.len(),
    ensures
        read_at(
            b@,
            pos as int,
            dec_expr_var(b@.skip(pos as int)),
            match r {
                Ok((v, p)) => Ok((v.model(), p as int)),
                Err(e) => Err(e@),
            },
        ),
{
    proof {
        reveal(dec_expr_var);
    }
    let (f0, p0) = match get_str(b, pos) {
        Err(e) => {
            return Err(e);
        },
        Ok(x) => x,
    };
    Ok((Expr::Var(f0), p0))
}

fn get_expr_static_call(b: &[u8], pos: usize) -> (r: Result<(Expr, usize), String>)
    requires
        pos <= b@.len(),
    ensures
        read_at(
            b@,
            pos as int,
            dec_expr_static_call(b@.skip(pos as int)),
            match r {
                Ok((v, p)) => Ok((v.model(), p as int)),
                Err(e) => Err(e@),
            },
        ),
    decreases b@.len() - pos, 8int,
{
    proof {
        reveal(dec_expr_static_call);
        reveal(dec_exprs);
    }
    let (ty, p0) = match get_str(b, pos) {
        Err(e) => {
            return Err(e);
        },
        Ok(x) => x,
    };
    let (method, p1) = match get_str(b, p0) {
        Err(e) => {
            return Err(e);
        },
        Ok(x) => x,
    };
    let (type_args, p2) = match get_sources(b, p1) {
        Err(e) => {
            return Err(e);
        },
        Ok(x) => x,
    };
    let (args, p3) = match get_exprs(b, p2) {
        Err(e) => {
            return Err(e);
        },
        Ok(x) => x,
    };
    Ok((Expr::StaticCall { ty: ty, method: method, type_args: type_args, args: args }, p3))
}

fn get_expr_method_call(b: &[u8], pos: usize) -> (r: Result<(Expr, usize), String>)
    requires
        pos <= b@.len(),
    ensures
        read_at(
            b@,
            pos as int,
            dec_expr_method_call(b@.skip(pos as int)),
            match r {
                Ok((v, p)) => Ok((v.model(), p as int)),
                Err(e) => Err(e@),
            },
        ),
    decreases b@.len() - pos, 8int,
{
    proof {
        reveal(dec_expr_method_call);
        reveal(dec_expr);
        reveal(dec_exprs);
    }
    let (receiver, p0) = match get_expr(b, pos) {
        Err(e) => {
            return Err(e);
        },
        Ok(x) => x,
    };
    let (method, p1) = match get_str(b, p0) {
        Err(e) => {
            return Err(e);
        },
        Ok(x) => x,
    };
    let (args, p2) = match get_exprs(b, p1) {
        Err(e) => {
            return Err(e);
        },
        Ok(x) => x,
    };
    Ok((Expr::MethodCall { receiver: Box::new(receiver), method: method, args: args }, p2))
}

fn get_expr_field_access(b: &[u8], pos: usize) -> (r: Result<(Expr, usize), String>)
    requires
        pos <= b@.len(),
    ensures
        read_at(
            b@,
            pos as int,
            dec_expr_field_access(b@.skip(pos as int)),
            match r {
                Ok((v, p)) => Ok((v.model(), p as int)),
                Err(e) => Err(e@),
            },
        ),
    decreases b@.len() - pos, 8int,
{
    proof {
        reveal(dec_expr_field_access);
        reveal(dec_expr);
    }
    let (receiver, p0) = match get_expr(b, pos) {
        Err(e) => {
            return Err(e);
        },
        Ok(x) => x,
    };
    let (field, p1) = match get_str(b, p0) {
        Err(e) => {
            return Err(e);
        },
        Ok(x) => x,
    };
    Ok((Expr::FieldAccess { receiver: Box::new(receiver), field: field }, p1))
}

fn get_expr_struct_lit(b: &[u8], pos: usize) -> (r: Result<(Expr, usize), String>)
    requires
        pos <= b@.len(),
    ensures
        read_at(
            b@,
            pos as int,
            dec_expr_struct_lit(b@.skip(pos as int)),
            match r {
                Ok((v, p)) => Ok((v.model(), p as int)),
                Err(e) => Err(e@),
            },
        ),
    decreases b@.len() - pos, 8int,
{
    proof {
        reveal(dec_expr_struct_lit);
        reveal(dec_lit_fields);
    }
    let (name, p0) = match get_str(b, pos) {
        Err(e) => {
            return Err(e);
        },
        Ok(x) => x,
    };
    let (type_args, p1) = match get_sources(b, p0) {
        Err(e) => {
            return Err(e);
        },
        Ok(x) => x,
    };
    let (fields, p2) = match get_lit_fields(b, p1) {
        Err(e) => {
            return Err(e);
        },
        Ok(x) => x,
    };
    Ok((Expr::StructLit { name: name, type_args: type_args, fields: fields }, p2))
}

fn get_expr_fn_call(b: &[u8], pos: usize) -> (r: Result<(Expr, usize), String>)
    requires
        pos <= b@.len(),
    ensures
        read_at(
            b@,
            pos as int,
            dec_expr_fn_call(b@.skip(pos as int)),
            match r {
                Ok((v, p)) => Ok((v.model(), p as int)),
                Err(e) => Err(e@),
            },
        ),
    decreases b@.len() - pos, 8int,
{
    proof {
        reveal(dec_expr_fn_call);
        reveal(dec_exprs);
    }
    let (name, p0) = match get_str(b, pos) {
        Err(e) => {
            return Err(e);
        },
        Ok(x) => x,
    };
    let (type_args, p1) = match get_sources(b, p0) {
        Err(e) => {
            return Err(e);
        },
        Ok(x) => x,
    };
    let (args, p2) = match get_exprs(b, p1) {
        Err(e) => {
            return Err(e);
        },
        Ok(x) => x,
    };
    Ok((Expr::FnCall { name: name, type_args: type_args, args: args }, p2))
}

fn get_expr_binary_op(b: &[u8], pos: usize) -> (r: Result<(Expr, usize), String>)
    requires
        pos <= b@.len(),
    ensures
        read_at(
            b@,
            pos as int,
            dec_expr_binary_op(b@.skip(pos as int)),
            match r {
                Ok((v, p)) => Ok((v.model(), p as int)),
                Err(e) => Err(e@),
            },
        ),
    decreases b@.len() - pos, 8int,
{
    proof {
        reveal(dec_expr_binary_op);
        reveal(dec_expr);
    }
    let (op, p0) = match get_binop(b, pos) {
        Err(e) => {
            return Err(e);
        },
        Ok(x) => x,
    };
    let (left, p1) = match get_expr(b, p0) {
        Err(e) => {
            return Err(e);
        },
        Ok(x) => x,
    };
    let (right, p2) = match get_expr(b, p1) {
        Err(e) => {
            return Err(e);
        },
        Ok(x) => x,
    };
    Ok((Expr::BinaryOp { op: op, left: Box::new(left), right: Box::new(right) }, p2))
}

fn get_expr_if(b: &[u8], pos: usize) -> (r: Result<(Expr, usize), String>)
    requires
        pos <= b@.len(),
    ensures
        read_at(
            b@,
            pos as int,
            dec_expr_if(b@.skip(pos as int)),
            match r {
                Ok((v, p)) => Ok((v.model(), p as int)),
                Err(e) => Err(e@),
            },
        ),
    decreases b@.len() - pos, 8int,
{
    proof {
        reveal(dec_expr_if);
        reveal(dec_expr);
        reveal(dec_block);
        reveal(dec_optbox_block);
    }
    let (cond, p0) = match get_expr(b, pos) {
        Err(e) => {
            return Err(e);
        },
        Ok(x) => x,
    };
    let (then_body, p1) = match get_block(b, p0) {
        Err(e) => {
            return Err(e);
        },
        Ok(x) => x,
    };
    let (else_body, p2) = match get_optbox_block(b, p1) {
        Err(e) => {
            return Err(e);
        },
        Ok(x) => x,
    };
    Ok((Expr::If { cond: Box::new(cond), then_body: Box::new(then_body), else_body: else_body }, p2))
}

fn get_expr_unary_neg(b: &[u8], pos: usize) -> (r: Result<(Expr, usize), String>)
    requires
        pos <= b@.len(),
    ensures
        read_at(
            b@,
            pos as int,
            dec_expr_unary_neg(b@.skip(pos as int)),
            match r {
                Ok((v, p)) => Ok((v.model(), p as int)),
                Err(e) => Err(e@),
            },
        ),
    decreases b@.len() - pos, 8int,
{
    proof {
        reveal(dec_expr_unary_neg);
        reveal(dec_expr);
    }
    let (f0, p0) = match get_expr(b, pos) {
        Err(e) => {
            return Err(e);
        },
        Ok(x) => x,
    };
    Ok((Expr::UnaryNeg(Box::new(f0)), p0))
}

fn get_expr_ref(b: &[u8], pos: usize) -> (r: Result<(Expr, usize), String>)
    requires
        pos <= b@.len(),
    ensures
        read_at(
            b@,
            pos as int,
            dec_expr_ref(b@.skip(pos as int)),
            match r {
                Ok((v, p)) => Ok((v.model(), p as int)),
                Err(e) => Err(e@),
            },
        ),
    decreases b@.len() - pos, 8int,
{
    proof {
        reveal(dec_expr_ref);
        reveal(dec_expr);
    }
    let (f0, p0) = match get_expr(b, pos) {
        Err(e) => {
            return Err(e);
        },
        Ok(x) => x,
    };
    Ok((Expr::Ref(Box::new(f0)), p0))
}

/// The binary forms of several, one behind the other: an expression each.
#[verifier::opaque]
pub open spec fn enc_expr_items(s: Seq<ExprView>) -> Seq<u8>
    decreases s, 0int,
{
    if s.len() == 0 {
        Seq::empty()
    } else {
        enc_expr(s[0]) + enc_expr_items(s.drop_first())
    }
}

/// The binary form of a list, whose elements are an expression each.
#[verifier::opaque]
pub open spec fn enc_exprs(s: Seq<ExprView>) -> Seq<u8>
    decreases s, 1int,
{
    enc_u64(s.len()) + enc_expr_items(s)
}

/// Reads `count` elements, an expression each.
#[verifier::opaque]
pub open spec fn dec_expr_items(count: nat, b: Seq<u8>) -> Result<(Seq<ExprView>, Seq<u8>), Seq<char>>
    decreases b.len(), 2int,
{
    if count == 0 {
        Ok((Seq::empty(), b))
    } else {
        match dec_expr(b) {
            Err(e) => Err(e),
            Ok((first, r)) => if r.len() < b.len() {
                match dec_expr_items((count - 1) as nat, r) {
                    Err(e) => Err(e),
                    Ok((others, s)) => Ok((seq![first] + others, s)),
                }
            } else {
                arbitrary()
            },
        }
    }
}

/// Reads a list, whose elements are an expression each.
#[verifier::opaque]
pub open spec fn dec_exprs(b: Seq<u8>) -> Result<(Seq<ExprView>, Seq<u8>), Seq<char>>
    decreases b.len(), 3int,
{
    match dec_u64(b) {
        Err(e) => Err(e),
        Ok((count, r)) => if r.len() < b.len() {
            dec_expr_items(count as nat, r)
        } else {
            arbitrary()
        },
    }
}

/// Whether every length in a list fits in 64 bits.
#[verifier::opaque]
pub open spec fn fits_exprs(s: Seq<ExprView>) -> bool
    decreases s, 1int,
{
    s.len() <= u64::MAX && forall|i: int| 0 <= i < s.len() ==> fits_expr(#[trigger] s[i])
}

proof fn lemma_expr_items(s: Seq<ExprView>, rest: Seq<u8>)
    requires
        forall|i: int| 0 <= i < s.len() ==> fits_expr(#[trigger] s[i]),
    ensures
        dec_expr_items(s.len(), enc_expr_items(s) + rest) == Ok::<_, Seq<char>>((s, rest)),
    decreases s, 2int,
{
    reveal(enc_expr_items);
    reveal(dec_expr_items);
    reveal(enc_expr);
    reveal(dec_expr);
    if s.len() == 0 {
        assert(enc_expr_items(s) + rest =~= rest);
        assert(s =~= Seq::empty());
    } else {
        let others = s.drop_first();
        assert forall|i: int| 0 <= i < others.len() implies fits_expr(#[trigger] others[i]) by {
            assert(others[i] == s[i + 1]);
        }
        lemma_expr_items(others, rest);
        assert(fits_expr(s[0]));
        lemma_expr(s[0], enc_expr_items(others) + rest);
        assert(enc_expr_items(s) + rest =~= enc_expr(s[0]) + (enc_expr_items(others) + rest));
        assert(s =~= seq![s[0]] + others);
    }
}

/// A list is read back from its binary form.
pub proof fn lemma_exprs(s: Seq<ExprView>, rest: Seq<u8>)
    requires
        fits_exprs(s),
    ensures
        dec_exprs(enc_exprs(s) + rest) == Ok::<_, Seq<char>>((s, rest)),
        enc_exprs(s).len() >= 8,
    decreases s, 3int,
{
    reveal(enc_exprs);
    reveal(dec_exprs);
    reveal(fits_exprs);
    reveal(fits_expr);
    reveal(enc_expr_items);
    reveal(dec_expr_items);
    lemma_expr_items(s, rest);
    lemma_u64(s.len(), enc_expr_items(s) + rest);
    assert(enc_exprs(s) + rest =~= enc_u64(s.len()) + (enc_expr_items(s) + rest));
}

proof fn lemma_enc_expr_items_push(s: Seq<ExprView>, v: ExprView)
    ensures
        enc_expr_items(s.push(v)) == enc_expr_items(s) + enc_expr(v),
    decreases s.len(),
{
    reveal(enc_expr_items);
    reveal(enc_expr);
    if s.len() == 0 {
        assert(s.push(v).drop_first() =~= s);
        assert(enc_expr_items(s.push(v)) =~= enc_expr(v) + enc_expr_items(s));
        assert(enc_expr_items(s) + enc_expr(v) =~= enc_expr(v) + enc_expr_items(s));
    } else {
        assert(s.push(v).drop_first() =~= s.drop_first().push(v));
        lemma_enc_expr_items_push(s.drop_first(), v);
        assert(enc_expr_items(s.push(v)) =~= enc_expr_items(s) + enc_expr(v));
    }
}

/// Appends the binary form of a list.
pub fn put_exprs(out: &mut Vec<u8>, v: &Vec<Expr>)
    ensures
        final(out)@ == old(out)@ + enc_exprs(expr_views(v@)),
        fits_exprs(expr_views(v@)),
    decreases v, 1int,
{
    proof {
        reveal(enc_exprs);
        reveal(fits_exprs);
        reveal(enc_expr_items);
        reveal(fits_expr);
    }
    let ghost before = out@;
    let ghost all = expr_views(v@);
    put_u64(out, v.len() as u64);
    let mut i: usize = 0;
    assert(all.take(0) =~= Seq::empty());
    assert(out@ =~= before + enc_u64(all.len()) + enc_expr_items(all.take(0)));
    while i < v.len()
        invariant
            i <= v@.len(),
            all == expr_views(v@),
            out@ == before + enc_u64(all.len()) + enc_expr_items(all.take(i as int)),
            forall|j: int| 0 <= j < i ==> fits_expr(#[trigger] all[j]),
        decreases v@.len() - i,
    {
        
        put_expr(out, &v[i]);
        proof {
            let one = v@[i as int].model();
            assert(all.take(i + 1) =~= all.take(i as int).push(one));
            lemma_enc_expr_items_push(all.take(i as int), one);
            assert(out@ =~= before + enc_u64(all.len()) + enc_expr_items(all.take(i + 1)));
        }
        i += 1;
    }
    assert(all.take(v@.len() as int) =~= all);
    assert(out@ =~= before + enc_exprs(all));
}

/// Reads a list at a position.
pub fn get_exprs(b: &[u8], pos: usize) -> (r: Result<(Vec<Expr>, usize), String>)
    requires
        pos <= b@.len(),
    ensures
        read_at(
            b@,
            pos as int,
            dec_exprs(b@.skip(pos as int)),
            match r {
                Ok((v, p)) => Ok((expr_views(v@), p as int)),
                Err(e) => Err(e@),
            },
        ),
    decreases b@.len() - pos, 3int,
{
    proof {
        reveal(dec_exprs);
        reveal(dec_expr_items);
    }
    let (count, start) = match get_u64(b, pos) {
        Err(e) => {
            return Err(e);
        },
        Ok(x) => x,
    };
    let ghost whole = dec_expr_items(count as nat, b@.skip(start as int));
    let mut out: Vec<Expr> = Vec::new();
    let mut p: usize = start;
    let mut i: u64 = 0;
    assert(whole is Ok ==> expr_views(out@) + whole->Ok_0.0 =~= whole->Ok_0.0);
    while i < count
        invariant
            i <= count,
            pos < start <= p <= b@.len(),
            dec_exprs(b@.skip(pos as int)) == whole,
            whole == (match dec_expr_items((count - i) as nat, b@.skip(p as int)) {
                Ok((others, s)) => Ok((expr_views(out@) + others, s)),
                Err(e) => Err(e),
            }),
        decreases count - i,
    {
        let ghost done = expr_views(out@);
        proof {
            reveal(dec_expr_items);
            reveal(dec_expr);
        }
        let (one, q) = match get_expr(b, p) {
            Err(e) => {
                return Err(e);
            },
            Ok(x) => x,
        };
        let ghost first = one.model();
        out.push(one);
        assert(expr_views(out@) =~= done.push(first));
        assert(forall|others: Seq<ExprView>|
            #[trigger] (expr_views(out@) + others) =~= done + (seq![first] + others));
        p = q;
        i += 1;
    }
    proof {
        reveal(dec_expr_items);
    }
    assert(expr_views(out@) + Seq::<ExprView>::empty() =~= expr_views(out@));
    Ok((out, p))
}

/// The binary form of a field of a struct literal.
#[verifier::opaque]
pub open spec fn enc_lit_field(v: (Seq<char>, ExprView)) -> Seq<u8>
    decreases v, 0int,
{
    enc_str(v.0) + enc_expr(v.1)
}

/// Reads a field of a struct literal.
#[verifier::opaque]
pub open spec fn dec_lit_field(b: Seq<u8>) -> Result<((Seq<char>, ExprView), Seq<u8>), Seq<char>>
    decreases b.len(), 1int,
{
    match dec_str(b) {
        Err(e) => Err(e),
        Ok((f0, r0)) => if r0.len() < b.len() {
            match dec_expr(r0) {
                Err(e) => Err(e),
                Ok((f1, r1)) => Ok(((f0, f1), r1)),
            }
        } else {
            arbitrary()
        },
    }
}

/// Whether every length in a field of a struct literal fits in 64 bits.
#[verifier::opaque]
pub open spec fn fits_lit_field(v: (Seq<char>, ExprView)) -> bool
    decreases v, 0int,
{
    encode_utf8(v.0).len() <= u64::MAX && fits_expr(v.1)
}

/// A field of a struct literal is read back from its binary form.
pub proof fn lemma_lit_field(v: (Seq<char>, ExprView), rest: Seq<u8>)
    requires
        fits_lit_field(v),
    ensures
        dec_lit_field(enc_lit_field(v) + rest) == Ok::<_, Seq<char>>((v, rest)),
        enc_lit_field(v).len() > 0,
    decreases v, 1int,
{
    reveal(enc_lit_field);
    reveal(dec_lit_field);
    reveal(fits_lit_field);
    reveal(enc_expr);
    reveal(dec_expr);
    reveal(fits_expr);
    let t1 = rest;
    lemma_expr(v.1, t1);
    let t0 = (enc_expr(v.1) + t1);
    lemma_str(v.0, t0);
    assert(enc_lit_field(v) + rest =~= enc_str(v.0) + t0);
}

/// Appends the binary form of a field of a struct literal.
pub fn put_lit_field(out: &mut Vec<u8>, v: &(String, Expr))
    ensures
        final(out)@ == old(out)@ + enc_lit_field((v.0@, v.1.model())),
        fits_lit_field((v.0@, v.1.model())),
    decreases v, 0int,
{
    let ghost before = out@;
    proof {
        reveal(enc_lit_field);
        reveal(fits_lit_field);
        reveal(enc_expr);
        reveal(fits_expr);
    }
    put_str(out, &v.0);
    put_expr(out, &v.1);
    assert(out@ =~= before + enc_lit_field((v.0@, v.1.model())));
}

/// Reads a field of a struct literal at a position.
pub fn get_lit_field(b: &[u8], pos: usize) -> (r: Result<((String, Expr), usize), String>)
    requires
        pos <= b@.len(),
    ensures
        read_at(
            b@,
            pos as int,
            dec_lit_field(b@.skip(pos as int)),
            match r {
                Ok((v, p)) => Ok(((v.0@, v.1.model()), p as int)),
                Err(e) => Err(e@),
            },
        ),
    decreases b@.len() - pos, 1int,
{
    proof {
        reveal(dec_lit_field);
        reveal(dec_expr);
    }
    let (f0, p0) = match get_str(b, pos) {
        Err(e) => {
            return Err(e);
        },
        Ok(x) => x,
    };
    let (f1, p1) = match get_expr(b, p0) {
        Err(e) => {
            return Err(e);
        },
        Ok(x) => x,
    };
    Ok(((f0, f1), p1))
}

/// The binary forms of several, one behind the other: a field of a struct literal each.
#[verifier::opaque]
pub open spec fn enc_lit_field_items(s: Seq<(Seq<char>, ExprView)>) -> Seq<u8>
    decreases s, 0int,
{
    if s.len() == 0 {
        Seq::empty()
    } else {
        enc_lit_field(s[0]) + enc_lit_field_items(s.drop_first())
    }
}

/// The binary form of a list, whose elements are a field of a struct literal each.
#[verifier::opaque]
pub open spec fn enc_lit_fields(s: Seq<(Seq<char>, ExprView)>) -> Seq<u8>
    decreases s, 1int,
{
    enc_u64(s.len()) + enc_lit_field_items(s)
}

/// Reads `count` elements, a field of a struct literal each.
#[verifier::opaque]
pub open spec fn dec_lit_field_items(count: nat, b: Seq<u8>) -> Result<(Seq<(Seq<char>, ExprView)>, Seq<u8>), Seq<char>>
    decreases b.len(), 2int,
{
    if count == 0 {
        Ok((Seq::empty(), b))
    } else {
        match dec_lit_field(b) {
            Err(e) => Err(e),
            Ok((first, r)) => if r.len() < b.len() {
                match dec_lit_field_items((count - 1) as nat, r) {
                    Err(e) => Err(e),
                    Ok((others, s)) => Ok((seq![first] + others, s)),
                }
            } else {
                arbitrary()
            },
        }
    }
}

/// Reads a list, whose elements are a field of a struct literal each.
#[verifier::opaque]
pub open spec fn dec_lit_fields(b: Seq<u8>) -> Result<(Seq<(Seq<char>, ExprView)>, Seq<u8>), Seq<char>>
    decreases b.len(), 3int,
{
    match dec_u64(b) {
        Err(e) => Err(e),
        Ok((count, r)) => if r.len() < b.len() {
            dec_lit_field_items(count as nat, r)
        } else {
            arbitrary()
        },
    }
}

/// Whether every length in a list fits in 64 bits.
#[verifier::opaque]
pub open spec fn fits_lit_fields(s: Seq<(Seq<char>, ExprView)>) -> bool
    decreases s, 1int,
{
    s.len() <= u64::MAX && forall|i: int| 0 <= i < s.len() ==> fits_lit_field(#[trigger] s[i])
}

proof fn lemma_lit_field_items(s: Seq<(Seq<char>, ExprView)>, rest: Seq<u8>)
    requires
        forall|i: int| 0 <= i < s.len() ==> fits_lit_field(#[trigger] s[i]),
    ensures
        dec_lit_field_items(s.len(), enc_lit_field_items(s) + rest) == Ok::<_, Seq<char>>((s, rest)),
    decreases s, 2int,
{
    reveal(enc_lit_field_items);
    reveal(dec_lit_field_items);
    reveal(enc_lit_field);
    reveal(dec_lit_field);
    if s.len() == 0 {
        assert(enc_lit_field_items(s) + rest =~= rest);
        assert(s =~= Seq::empty());
    } else {
        let others = s.drop_first();
        assert forall|i: int| 0 <= i < others.len() implies fits_lit_field(#[trigger] others[i]) by {
            assert(others[i] == s[i + 1]);
        }
        lemma_lit_field_items(others, rest);
        assert(fits_lit_field(s[0]));
        lemma_lit_field(s[0], enc_lit_field_items(others) + rest);
        assert(enc_lit_field_items(s) + rest =~= enc_lit_field(s[0]) + (enc_lit_field_items(others) + rest));
        assert(s =~= seq![s[0]] + others);
    }
}

/// A list is read back from its binary form.
pub proof fn lemma_lit_fields(s: Seq<(Seq<char>, ExprView)>, rest: Seq<u8>)
    requires
        fits_lit_fields(s),
    ensures
        dec_lit_fields(enc_lit_fields(s) + rest) == Ok::<_, Seq<char>>((s, rest)),
        enc_lit_fields(s).len() >= 8,
    decreases s, 3int,
{
    reveal(enc_lit_fields);
    reveal(dec_lit_fields);
    reveal(fits_lit_fields);
    reveal(fits_lit_field);
    reveal(enc_lit_field_items);
    reveal(dec_lit_field_items);
    lemma_lit_field_items(s, rest);
    lemma_u64(s.len(), enc_lit_field_items(s) + rest);
    assert(enc_lit_fields(s) + rest =~= enc_u64(s.len()) + (enc_lit_field_items(s) + rest));
}

proof fn lemma_enc_lit_field_items_push(s: Seq<(Seq<char>, ExprView)>, v: (Seq<char>, ExprView))
    ensures
        enc_lit_field_items(s.push(v)) == enc_lit_field_items(s) + enc_lit_field(v),
    decreases s.len(),
{
    reveal(enc_lit_field_items);
    reveal(enc_lit_field);
    if s.len() == 0 {
        assert(s.push(v).drop_first() =~= s);
        assert(enc_lit_field_items(s.push(v)) =~= enc_lit_field(v) + enc_lit_field_items(s));
        assert(enc_lit_field_items(s) + enc_lit_field(v) =~= enc_lit_field(v) + enc_lit_field_items(s));
    } else {
        assert(s.push(v).drop_first() =~= s.drop_first().push(v));
        lemma_enc_lit_field_items_push(s.drop_first(), v);
        assert(enc_lit_field_items(s.push(v)) =~= enc_lit_field_items(s) + enc_lit_field(v));
    }
}

/// Appends the binary form of a list.
pub fn put_lit_fields(out: &mut Vec<u8>, v: &Vec<(String, Expr)>)
    ensures
        final(out)@ == old(out)@ + enc_lit_fields(field_views(v@)),
        fits_lit_fields(field_views(v@)),
    decreases v, 1int,
{
    proof {
        reveal(enc_lit_fields);
        reveal(fits_lit_fields);
        reveal(enc_lit_field_items);
        reveal(fits_lit_field);
    }
    let ghost before = out@;
    let ghost all = field_views(v@);
    put_u64(out, v.len() as u64);
    let mut i: usize = 0;
    assert(all.take(0) =~= Seq::empty());
    assert(out@ =~= before + enc_u64(all.len()) + enc_lit_field_items(all.take(0)));
    while i < v.len()
        invariant
            i <= v@.len(),
            all == field_views(v@),
            out@ == before + enc_u64(all.len()) + enc_lit_field_items(all.take(i as int)),
            forall|j: int| 0 <= j < i ==> fits_lit_field(#[trigger] all[j]),
        decreases v@.len() - i,
    {
        assert(decreases_to!(v => v[i as int]));
        put_lit_field(out, &v[i]);
        proof {
            let one = (v@[i as int].0@, v@[i as int].1.model());
            assert(all.take(i + 1) =~= all.take(i as int).push(one));
            lemma_enc_lit_field_items_push(all.take(i as int), one);
            assert(out@ =~= before + enc_u64(all.len()) + enc_lit_field_items(all.take(i + 1)));
        }
        i += 1;
    }
    assert(all.take(v@.len() as int) =~= all);
    assert(out@ =~= before + enc_lit_fields(all));
}

/// Reads a list at a position.
pub fn get_lit_fields(b: &[u8], pos: usize) -> (r: Result<(Vec<(String, Expr)>, usize), String>)
    requires
        pos <= b@.len(),
    ensures
        read_at(
            b@,
            pos as int,
            dec_lit_fields(b@.skip(pos as int)),
            match r {
                Ok((v, p)) => Ok((field_views(v@), p as int)),
                Err(e) => Err(e@),
            },
        ),
    decreases b@.len() - pos, 3int,
{
    proof {
        reveal(dec_lit_fields);
        reveal(dec_lit_field_items);
    }
    let (count, start) = match get_u64(b, pos) {
        Err(e) => {
            return Err(e);
        },
        Ok(x) => x,
    };
    let ghost whole = dec_lit_field_items(count as nat, b@.skip(start as int));
    let mut out: Vec<(String, Expr)> = Vec::new();
    let mut p: usize = start;
    let mut i: u64 = 0;
    assert(whole is Ok ==> field_views(out@) + whole->Ok_0.0 =~= whole->Ok_0.0);
    while i < count
        invariant
            i <= count,
            pos < start <= p <= b@.len(),
            dec_lit_fields(b@.skip(pos as int)) == whole,
            whole == (match dec_lit_field_items((count - i) as nat, b@.skip(p as int)) {
                Ok((others, s)) => Ok((field_views(out@) + others, s)),
                Err(e) => Err(e),
            }),
        decreases count - i,
    {
        let ghost done = field_views(out@);
        proof {
            reveal(dec_lit_field_items);
            reveal(dec_lit_field);
        }
        let (one, q) = match get_lit_field(b, p) {
            Err(e) => {
                return Err(e);
            },
            Ok(x) => x,
        };
        let ghost first = (one.0@, one.1.model());
        out.push(one);
        assert(field_views(out@) =~= done.push(first));
        assert(forall|others: Seq<(Seq<char>, ExprView)>|
            #[trigger] (field_views(out@) + others) =~= done + (seq![first] + others));
        p = q;
        i += 1;
    }
    proof {
        reveal(dec_lit_field_items);
    }
    assert(field_views(out@) + Seq::<(Seq<char>, ExprView)>::empty() =~= field_views(out@));
    Ok((out, p))
}

/// The binary form of a statement.
#[verifier::opaque]
pub open spec fn enc_stmt(v: StmtView) -> Seq<u8>
    decreases v, 0int,
{
    match v {
        StmtView::Let { name, expr } => enc_u32(0) + enc_str(name) + enc_expr(expr),
        StmtView::ExprStmt(f0) => enc_u32(1) + enc_expr(f0),
        StmtView::While { cond, body } => enc_u32(2) + enc_expr(cond) + enc_block(*body),
        StmtView::Assign { name, expr } => enc_u32(3) + enc_str(name) + enc_expr(expr),
    }
}

/// Reads a statement.
#[verifier::opaque]
pub open spec fn dec_stmt(b: Seq<u8>) -> Result<(StmtView, Seq<u8>), Seq<char>>
    decreases b.len(), 0int,
{
    match dec_u32(b) {
        Err(e) => Err(e),
        Ok((tag, r)) => if tag == 0 {
            if r.len() < b.len() {
                dec_stmt_let(r)
            } else {
                arbitrary()
            }
        } else if tag == 1 {
            if r.len() < b.len() {
                dec_stmt_expr_stmt(r)
            } else {
                arbitrary()
            }
        } else if tag == 2 {
            if r.len() < b.len() {
                dec_stmt_while(r)
            } else {
                arbitrary()
            }
        } else if tag == 3 {
            if r.len() < b.len() {
                dec_stmt_assign(r)
            } else {
                arbitrary()
            }
        } else {
            Err(variant_text(tag as nat, 4))
        },
    }
}

/// Reads what follows the number of `Let` in a statement.
#[verifier::opaque]
pub open spec fn dec_stmt_let(r: Seq<u8>) -> Result<(StmtView, Seq<u8>), Seq<char>>
    decreases r.len(), 8int,
{
    match dec_str(r) {
        Err(e) => Err(e),
        Ok((name, r0)) => if r0.len() < r.len() {
            match dec_expr(r0) {
                Err(e) => Err(e),
                Ok((expr, r1)) => Ok((StmtView::Let { name: name, expr: expr }, r1)),
            }
        } else {
            arbitrary()
        },
    }
}

/// Reads what follows the number of `ExprStmt` in a statement.
#[verifier::opaque]
pub open spec fn dec_stmt_expr_stmt(r: Seq<u8>) -> Result<(StmtView, Seq<u8>), Seq<char>>
    decreases r.len(), 8int,
{
    match dec_expr(r) {
        Err(e) => Err(e),
        Ok((f0, r0)) => Ok((StmtView::ExprStmt(f0), r0)),
    }
}

/// Reads what follows the number of `While` in a statement.
#[verifier::opaque]
pub open spec fn dec_stmt_while(r: Seq<u8>) -> Result<(StmtView, Seq<u8>), Seq<char>>
    decreases r.len(), 8int,
{
    match dec_expr(r) {
        Err(e) => Err(e),
        Ok((cond, r0)) => if r0.len() < r.len() {
            match dec_block(r0) {
                Err(e) => Err(e),
                Ok((body, r1)) => Ok((StmtView::While { cond: cond, body: Box::new(body) }, r1)),
            }
        } else {
            arbitrary()
        },
    }
}

/// Reads what follows the number of `Assign` in a statement.
#[verifier::opaque]
pub open spec fn dec_stmt_assign(r: Seq<u8>) -> Result<(StmtView, Seq<u8>), Seq<char>>
    decreases r.len(), 8int,
{
    match dec_str(r) {
        Err(e) => Err(e),
        Ok((name, r0)) => if r0.len() < r.len() {
            match dec_expr(r0) {
                Err(e) => Err(e),
                Ok((expr, r1)) => Ok((StmtView::Assign { name: name, expr: expr }, r1)),
            }
        } else {
            arbitrary()
        },
    }
}

/// Whether every length in a statement fits in 64 bits.
#[verifier::opaque]
pub open spec fn fits_stmt(v: StmtView) -> bool
    decreases v, 0int,
{
    match v {
        StmtView::Let { name, expr } => encode_utf8(name).len() <= u64::MAX && fits_expr(expr),
        StmtView::ExprStmt(f0) => fits_expr(f0),
        StmtView::While { cond, body } => fits_expr(cond) && fits_block(*body),
        StmtView::Assign { name, expr } => encode_utf8(name).len() <= u64::MAX && fits_expr(expr),
    }
}

/// A statement is read back from its binary form.
#[verifier::spinoff_prover]
pub proof fn lemma_stmt(v: StmtView, rest: Seq<u8>)
    requires
        fits_stmt(v),
    ensures
        dec_stmt(enc_stmt(v) + rest) == Ok::<_, Seq<char>>((v, rest)),
        enc_stmt(v).len() > 0,
    decreases v, 1int,
{
    reveal(enc_stmt);
    reveal(dec_stmt);
    match v {
        StmtView::Let { name, expr } => {
            let payload = enc_str(name) + enc_expr(expr);
            lemma_stmt_let(v, rest);
            lemma_u32(0, payload + rest);
            assert(enc_stmt(v) + rest =~= enc_u32(0) + (payload + rest));
        },
        StmtView::ExprStmt(f0) => {
            let payload = enc_expr(f0);
            lemma_stmt_expr_stmt(v, rest);
            lemma_u32(1, payload + rest);
            assert(enc_stmt(v) + rest =~= enc_u32(1) + (payload + rest));
        },
        StmtView::While { cond, body } => {
            let payload = enc_expr(cond) + enc_block(*body);
            lemma_stmt_while(v, rest);
            lemma_u32(2, payload + rest);
            assert(enc_stmt(v) + rest =~= enc_u32(2) + (payload + rest));
        },
        StmtView::Assign { name, expr } => {
            let payload = enc_str(name) + enc_expr(expr);
            lemma_stmt_assign(v, rest);
            lemma_u32(3, payload + rest);
            assert(enc_stmt(v) + rest =~= enc_u32(3) + (payload + rest));
        },
    }
}

proof fn lemma_stmt_let(v: StmtView, rest: Seq<u8>)
    requires
        v is Let,
        fits_stmt(v),
    ensures
        v matches StmtView::Let { name, expr } ==> dec_stmt_let(enc_str(name) + enc_expr(expr) + rest) == Ok::<_, Seq<char>>((v, rest)),
    decreases v, 0int,
{
    reveal(fits_stmt);
    reveal(dec_stmt_let);
    reveal(fits_expr);
    reveal(dec_expr);
    match v {
        StmtView::Let { name, expr } => {
            let t1 = rest;
            lemma_expr(expr, t1);
            let t0 = (enc_expr(expr) + t1);
            lemma_str(name, t0);
            assert(enc_str(name) + enc_expr(expr) + rest =~= enc_str(name) + t0);
        },
        _ => {},
    }
}

proof fn lemma_stmt_expr_stmt(v: StmtView, rest: Seq<u8>)
    requires
        v is ExprStmt,
        fits_stmt(v),
    ensures
        v matches StmtView::ExprStmt(f0) ==> dec_stmt_expr_stmt(enc_expr(f0) + rest) == Ok::<_, Seq<char>>((v, rest)),
    decreases v, 0int,
{
    reveal(fits_stmt);
    reveal(dec_stmt_expr_stmt);
    reveal(fits_expr);
    reveal(dec_expr);
    match v {
        StmtView::ExprStmt(f0) => {
            let t0 = rest;
            lemma_expr(f0, t0);
            assert(enc_expr(f0) + rest =~= enc_expr(f0) + t0);
        },
        _ => {},
    }
}

proof fn lemma_stmt_while(v: StmtView, rest: Seq<u8>)
    requires
        v is While,
        fits_stmt(v),
    ensures
        v matches StmtView::While { cond, body } ==> dec_stmt_while(enc_expr(cond) + enc_block(*body) + rest) == Ok::<_, Seq<char>>((v, rest)),
    decreases v, 0int,
{
    reveal(fits_stmt);
    reveal(dec_stmt_while);
    reveal(fits_expr);
    reveal(fits_block);
    reveal(dec_expr);
    reveal(dec_block);
    match v {
        StmtView::While { cond, body } => {
            let t1 = rest;
            lemma_block(*body, t1);
            let t0 = (enc_block(*body) + t1);
            lemma_expr(cond, t0);
            assert(enc_expr(cond) + enc_block(*body) + rest =~= enc_expr(cond) + t0);
        },
        _ => {},
    }
}

proof fn lemma_stmt_assign(v: StmtView, rest: Seq<u8>)
    requires
        v is Assign,
        fits_stmt(v),
    ensures
        v matches StmtView::Assign { name, expr } ==> dec_stmt_assign(enc_str(name) + enc_expr(expr) + rest) == Ok::<_, Seq<char>>((v, rest)),
    decreases v, 0int,
{
    reveal(fits_stmt);
    reveal(dec_stmt_assign);
    reveal(fits_expr);
    reveal(dec_expr);
    match v {
        StmtView::Assign { name, expr } => {
            let t1 = rest;
            lemma_expr(expr, t1);
            let t0 = (enc_expr(expr) + t1);
            lemma_str(name, t0);
            assert(enc_str(name) + enc_expr(expr) + rest =~= enc_str(name) + t0);
        },
        _ => {},
    }
}

/// Appends the binary form of a statement.
pub fn put_stmt(out: &mut Vec<u8>, v: &Stmt)
    ensures
        final(out)@ == old(out)@ + enc_stmt(v.model()),
        fits_stmt(v.model()),
    decreases v, 0int,
{
    let ghost before = out@;
    match v {
        Stmt::Let { name, expr } => {
            proof {
                reveal(enc_stmt);
                reveal(fits_stmt);
                reveal(enc_expr);
                reveal(fits_expr);
            }
            put_u32(out, 0);
            put_str(out, name);
            put_expr(out, expr);
            assert(out@ =~= before + enc_stmt(v.model()));
        },
        Stmt::ExprStmt(f0) => {
            proof {
                reveal(enc_stmt);
                reveal(fits_stmt);
                reveal(enc_expr);
                reveal(fits_expr);
            }
            put_u32(out, 1);
            put_expr(out, f0);
            assert(out@ =~= before + enc_stmt(v.model()));
        },
        Stmt::While { cond, body } => {
            proof {
                reveal(enc_stmt);
                reveal(fits_stmt);
                reveal(enc_expr);
                reveal(enc_block);
                reveal(fits_expr);
                reveal(fits_block);
            }
            put_u32(out, 2);
            put_expr(out, cond);
            put_block(out, body);
            assert(out@ =~= before + enc_stmt(v.model()));
        },
        Stmt::Assign { name, expr } => {
            proof {
                reveal(enc_stmt);
                reveal(fits_stmt);
                reveal(enc_expr);
                reveal(fits_expr);
            }
            put_u32(out, 3);
            put_str(out, name);
            put_expr(out, expr);
            assert(out@ =~= before + enc_stmt(v.model()));
        },
    }
}

/// Reads a statement at a position.
pub fn get_stmt(b: &[u8], pos: usize) -> (r: Result<(Stmt, usize), String>)
    requires
        pos <= b@.len(),
    ensures
        read_at(
            b@,
            pos as int,
            dec_stmt(b@.skip(pos as int)),
            match r {
                Ok((v, p)) => Ok((v.model(), p as int)),
                Err(e) => Err(e@),
            },
        ),
    decreases b@.len() - pos, 0int,
{
    proof {
        reveal(dec_stmt);
        reveal(dec_stmt_let);
        reveal(dec_stmt_expr_stmt);
        reveal(dec_stmt_while);
        reveal(dec_stmt_assign);
    }
    let (tag, p) = match get_u32(b, pos) {
        Err(e) => {
            return Err(e);
        },
        Ok(x) => x,
    };
    if tag == 0 {
        get_stmt_let(b, p)
    } else if tag == 1 {
        get_stmt_expr_stmt(b, p)
    } else if tag == 2 {
        get_stmt_while(b, p)
    } else if tag == 3 {
        get_stmt_assign(b, p)
    } else {
        Err(variant_error(tag, 4))
    }
}

fn get_stmt_let(b: &[u8], pos: usize) -> (r: Result<(Stmt, usize), String>)
    requires
        pos <= b@.len(),
    ensures
        read_at(
            b@,
            pos as int,
            dec_stmt_let(b@.skip(pos as int)),
            match r {
                Ok((v, p)) => Ok((v.model(), p as int)),
                Err(e) => Err(e@),
            },
        ),
    decreases b@.len() - pos, 8int,
{
    proof {
        reveal(dec_stmt_let);
        reveal(dec_expr);
    }
    let (name, p0) = match get_str(b, pos) {
        Err(e) => {
            return Err(e);
        },
        Ok(x) => x,
    };
    let (expr, p1) = match get_expr(b, p0) {
        Err(e) => {
            return Err(e);
        },
        Ok(x) => x,
    };
    Ok((Stmt::Let { name: name, expr: expr }, p1))
}

fn get_stmt_expr_stmt(b: &[u8], pos: usize) -> (r: Result<(Stmt, usize), String>)
    requires
        pos <= b@.len(),
    ensures
        read_at(
            b@,
            pos as int,
            dec_stmt_expr_stmt(b@.skip(pos as int)),
            match r {
                Ok((v, p)) => Ok((v.model(), p as int)),
                Err(e) => Err(e@),
            },
        ),
    decreases b@.len() - pos, 8int,
{
    proof {
        reveal(dec_stmt_expr_stmt);
        reveal(dec_expr);
    }
    let (f0, p0) = match get_expr(b, pos) {
        Err(e) => {
            return Err(e);
        },
        Ok(x) => x,
    };
    Ok((Stmt::ExprStmt(f0), p0))
}

fn get_stmt_while(b: &[u8], pos: usize) -> (r: Result<(Stmt, usize), String>)
    requires
        pos <= b@.len(),
    ensures
        read_at(
            b@,
            pos as int,
            dec_stmt_while(b@.skip(pos as int)),
            match r {
                Ok((v, p)) => Ok((v.model(), p as int)),
                Err(e) => Err(e@),
            },
        ),
    decreases b@.len() - pos, 8int,
{
    proof {
        reveal(dec_stmt_while);
        reveal(dec_expr);
        reveal(dec_block);
    }
    let (cond, p0) = match get_expr(b, pos) {
        Err(e) => {
            return Err(e);
        },
        Ok(x) => x,
    };
    let (body, p1) = match get_block(b, p0) {
        Err(e) => {
            return Err(e);
        },
        Ok(x) => x,
    };
    Ok((Stmt::While { cond: cond, body: Box::new(body) }, p1))
}

fn get_stmt_assign(b: &[u8], pos: usize) -> (r: Result<(Stmt, usize), String>)
    requires
        pos <= b@.len(),
    ensures
        read_at(
            b@,
            pos as int,
            dec_stmt_assign(b@.skip(pos as int)),
            match r {
                Ok((v, p)) => Ok((v.model(), p as int)),
                Err(e) => Err(e@),
            },
        ),
    decreases b@.len() - pos, 8int,
{
    proof {
        reveal(dec_stmt_assign);
        reveal(dec_expr);
    }
    let (name, p0) = match get_str(b, pos) {
        Err(e) => {
            return Err(e);
        },
        Ok(x) => x,
    };
    let (expr, p1) = match get_expr(b, p0) {
        Err(e) => {
            return Err(e);
        },
        Ok(x) => x,
    };
    Ok((Stmt::Assign { name: name, expr: expr }, p1))
}

/// The binary forms of several, one behind the other: a statement each.
#[verifier::opaque]
pub open spec fn enc_stmt_items(s: Seq<StmtView>) -> Seq<u8>
    decreases s, 0int,
{
    if s.len() == 0 {
        Seq::empty()
    } else {
        enc_stmt(s[0]) + enc_stmt_items(s.drop_first())
    }
}

/// The binary form of a list, whose elements are a statement each.
#[verifier::opaque]
pub open spec fn enc_stmts(s: Seq<StmtView>) -> Seq<u8>
    decreases s, 1int,
{
    enc_u64(s.len()) + enc_stmt_items(s)
}

/// Reads `count` elements, a statement each.
#[verifier::opaque]
pub open spec fn dec_stmt_items(count: nat, b: Seq<u8>) -> Result<(Seq<StmtView>, Seq<u8>), Seq<char>>
    decreases b.len(), 2int,
{
    if count == 0 {
        Ok((Seq::empty(), b))
    } else {
        match dec_stmt(b) {
            Err(e) => Err(e),
            Ok((first, r)) => if r.len() < b.len() {
                match dec_stmt_items((count - 1) as nat, r) {
                    Err(e) => Err(e),
                    Ok((others, s)) => Ok((seq![first] + others, s)),
                }
            } else {
                arbitrary()
            },
        }
    }
}

/// Reads a list, whose elements are a statement each.
#[verifier::opaque]
pub open spec fn dec_stmts(b: Seq<u8>) -> Result<(Seq<StmtView>, Seq<u8>), Seq<char>>
    decreases b.len(), 3int,
{
    match dec_u64(b) {
        Err(e) => Err(e),
        Ok((count, r)) => if r.len() < b.len() {
            dec_stmt_items(count as nat, r)
        } else {
            arbitrary()
        },
    }
}

/// Whether every length in a list fits in 64 bits.
#[verifier::opaque]
pub open spec fn fits_stmts(s: Seq<StmtView>) -> bool
    decreases s, 1int,
{
    s.len() <= u64::MAX && forall|i: int| 0 <= i < s.len() ==> fits_stmt(#[trigger] s[i])
}

proof fn lemma_stmt_items(s: Seq<StmtView>, rest: Seq<u8>)
    requires
        forall|i: int| 0 <= i < s.len() ==> fits_stmt(#[trigger] s[i]),
    ensures
        dec_stmt_items(s.len(), enc_stmt_items(s) + rest) == Ok::<_, Seq<char>>((s, rest)),
    decreases s, 2int,
{
    reveal(enc_stmt_items);
    reveal(dec_stmt_items);
    reveal(enc_stmt);
    reveal(dec_stmt);
    if s.len() == 0 {
        assert(enc_stmt_items(s) + rest =~= rest);
        assert(s =~= Seq::empty());
    } else {
        let others = s.drop_first();
        assert forall|i: int| 0 <= i < others.len() implies fits_stmt(#[trigger] others[i]) by {
            assert(others[i] == s[i + 1]);
        }
        lemma_stmt_items(others, rest);
        assert(fits_stmt(s[0]));
        lemma_stmt(s[0], enc_stmt_items(others) + rest);
        assert(enc_stmt_items(s) + rest =~= enc_stmt(s[0]) + (enc_stmt_items(others) + rest));
        assert(s =~= seq![s[0]] + others);
    }
}

/// A list is read back from its binary form.
pub proof fn lemma_stmts(s: Seq<StmtView>, rest: Seq<u8>)
    requires
        fits_stmts(s),
    ensures
        dec_stmts(enc_stmts(s) + rest) == Ok::<_, Seq<char>>((s, rest)),
        enc_stmts(s).len() >= 8,
    decreases s, 3int,
{
    reveal(enc_stmts);
    reveal(dec_stmts);
    reveal(fits_stmts);
    reveal(fits_stmt);
    reveal(enc_stmt_items);
    reveal(dec_stmt_items);
    lemma_stmt_items(s, rest);
    lemma_u64(s.len(), enc_stmt_items(s) + rest);
    assert(enc_stmts(s) + rest =~= enc_u64(s.len()) + (enc_stmt_items(s) + rest));
}

proof fn lemma_enc_stmt_items_push(s: Seq<StmtView>, v: StmtView)
    ensures
        enc_stmt_items(s.push(v)) == enc_stmt_items(s) + enc_stmt(v),
    decreases s.len(),
{
    reveal(enc_stmt_items);
    reveal(enc_stmt);
    if s.len() == 0 {
        assert(s.push(v).drop_first() =~= s);
        assert(enc_stmt_items(s.push(v)) =~= enc_stmt(v) + enc_stmt_items(s));
        assert(enc_stmt_items(s) + enc_stmt(v) =~= enc_stmt(v) + enc_stmt_items(s));
    } else {
        assert(s.push(v).drop_first() =~= s.drop_first().push(v));
        lemma_enc_stmt_items_push(s.drop_first(), v);
        assert(enc_stmt_items(s.push(v)) =~= enc_stmt_items(s) + enc_stmt(v));
    }
}

/// Appends the binary form of a list.
pub fn put_stmts(out: &mut Vec<u8>, v: &Vec<Stmt>)
    ensures
        final(out)@ == old(out)@ + enc_stmts(stmt_views(v@)),
        fits_stmts(stmt_views(v@)),
    decreases v, 1int,
{
    proof {
        reveal(enc_stmts);
        reveal(fits_stmts);
        reveal(enc_stmt_items);
        reveal(fits_stmt);
    }
    let ghost before = out@;
    let ghost all = stmt_views(v@);
    put_u64(out, v.len() as u64);
    let mut i: usize = 0;
    assert(all.take(0) =~= Seq::empty());
    assert(out@ =~= before + enc_u64(all.len()) + enc_stmt_items(all.take(0)));
    while i < v.len()
        invariant
            i <= v@.len(),
            all == stmt_views(v@),
            out@ == before + enc_u64(all.len()) + enc_stmt_items(all.take(i as int)),
            forall|j: int| 0 <= j < i ==> fits_stmt(#[trigger] all[j]),
        decreases v@.len() - i,
    {
        
        put_stmt(out, &v[i]);
        proof {
            let one = v@[i as int].model();
            assert(all.take(i + 1) =~= all.take(i as int).push(one));
            lemma_enc_stmt_items_push(all.take(i as int), one);
            assert(out@ =~= before + enc_u64(all.len()) + enc_stmt_items(all.take(i + 1)));
        }
        i += 1;
    }
    assert(all.take(v@.len() as int) =~= all);
    assert(out@ =~= before + enc_stmts(all));
}

/// Reads a list at a position.
pub fn get_stmts(b: &[u8], pos: usize) -> (r: Result<(Vec<Stmt>, usize), String>)
    requires
        pos <= b@.len(),
    ensures
        read_at(
            b@,
            pos as int,
            dec_stmts(b@.skip(pos as int)),
            match r {
                Ok((v, p)) => Ok((stmt_views(v@), p as int)),
                Err(e) => Err(e@),
            },
        ),
    decreases b@.len() - pos, 3int,
{
    proof {
        reveal(dec_stmts);
        reveal(dec_stmt_items);
    }
    let (count, start) = match get_u64(b, pos) {
        Err(e) => {
            return Err(e);
        },
        Ok(x) => x,
    };
    let ghost whole = dec_stmt_items(count as nat, b@.skip(start as int));
    let mut out: Vec<Stmt> = Vec::new();
    let mut p: usize = start;
    let mut i: u64 = 0;
    assert(whole is Ok ==> stmt_views(out@) + whole->Ok_0.0 =~= whole->Ok_0.0);
    while i < count
        invariant
            i <= count,
            pos < start <= p <= b@.len(),
            dec_stmts(b@.skip(pos as int)) == whole,
            whole == (match dec_stmt_items((count - i) as nat, b@.skip(p as int)) {
                Ok((others, s)) => Ok((stmt_views(out@) + others, s)),
                Err(e) => Err(e),
            }),
        decreases count - i,
    {
        let ghost done = stmt_views(out@);
        proof {
            reveal(dec_stmt_items);
            reveal(dec_stmt);
        }
        let (one, q) = match get_stmt(b, p) {
            Err(e) => {
                return Err(e);
            },
            Ok(x) => x,
        };
        let ghost first = one.model();
        out.push(one);
        assert(stmt_views(out@) =~= done.push(first));
        assert(forall|others: Seq<StmtView>|
            #[trigger] (stmt_views(out@) + others) =~= done + (seq![first] + others));
        p = q;
        i += 1;
    }
    proof {
        reveal(dec_stmt_items);
    }
    assert(stmt_views(out@) + Seq::<StmtView>::empty() =~= stmt_views(out@));
    Ok((out, p))
}

/// The binary form of a block.
#[verifier::opaque]
pub open spec fn enc_block(v: BlockView) -> Seq<u8>
    decreases v, 0int,
{
    enc_stmts(v.stmts) + enc_opt_expr(v.ret)
}

/// Reads a block.
#[verifier::opaque]
pub open spec fn dec_block(b: Seq<u8>) -> Result<(BlockView, Seq<u8>), Seq<char>>
    decreases b.len(), 6int,
{
    match dec_stmts(b) {
        Err(e) => Err(e),
        Ok((stmts, r0)) => if r0.len() < b.len() {
            match dec_opt_expr(r0) {
                Err(e) => Err(e),
                Ok((ret, r1)) => Ok((BlockView { stmts, ret }, r1)),
            }
        } else {
            arbitrary()
        },
    }
}

/// Whether every length in a block fits in 64 bits.
#[verifier::opaque]
pub open spec fn fits_block(v: BlockView) -> bool
    decreases v, 0int,
{
    fits_stmts(v.stmts) && fits_opt_expr(v.ret)
}

/// A block is read back from its binary form.
pub proof fn lemma_block(v: BlockView, rest: Seq<u8>)
    requires
        fits_block(v),
    ensures
        dec_block(enc_block(v) + rest) == Ok::<_, Seq<char>>((v, rest)),
        enc_block(v).len() > 0,
    decreases v, 1int,
{
    reveal(enc_block);
    reveal(dec_block);
    reveal(fits_block);
    reveal(enc_stmts);
    reveal(enc_opt_expr);
    reveal(dec_stmts);
    reveal(dec_opt_expr);
    reveal(fits_stmts);
    reveal(fits_opt_expr);
    let t1 = rest;
    lemma_opt_expr(v.ret, t1);
    let t0 = (enc_opt_expr(v.ret) + t1);
    lemma_stmts(v.stmts, t0);
    assert(enc_block(v) + rest =~= enc_stmts(v.stmts) + t0);
}

/// Appends the binary form of a block.
pub fn put_block(out: &mut Vec<u8>, v: &Block)
    ensures
        final(out)@ == old(out)@ + enc_block(v.model()),
        fits_block(v.model()),
    decreases v, 0int,
{
    let ghost before = out@;
    proof {
        reveal(enc_block);
        reveal(fits_block);
        reveal(enc_stmts);
        reveal(enc_opt_expr);
        reveal(fits_stmts);
        reveal(fits_opt_expr);
    }
    put_stmts(out, &v.stmts);
    put_opt_expr(out, &v.ret);
    assert(out@ =~= before + enc_block(v.model()));
}

/// Reads a block at a position.
pub fn get_block(b: &[u8], pos: usize) -> (r: Result<(Block, usize), String>)
    requires
        pos <= b@.len(),
    ensures
        read_at(
            b@,
            pos as int,
            dec_block(b@.skip(pos as int)),
            match r {
                Ok((v, p)) => Ok((v.model(), p as int)),
                Err(e) => Err(e@),
            },
        ),
    decreases b@.len() - pos, 6int,
{
    proof {
        reveal(dec_block);
        reveal(dec_stmts);
        reveal(dec_opt_expr);
    }
    let (stmts, p0) = match get_stmts(b, pos) {
        Err(e) => {
            return Err(e);
        },
        Ok(x) => x,
    };
    let (ret, p1) = match get_opt_expr(b, p0) {
        Err(e) => {
            return Err(e);
        },
        Ok(x) => x,
    };
    Ok((Block { stmts, ret }, p1))
}

/// The binary form of what may be an expression.
#[verifier::opaque]
pub open spec fn enc_opt_expr(v: Option<ExprView>) -> Seq<u8>
    decreases v, 0int,
{
    match v {
        None => enc_u8(0),
        Some(x) => enc_u8(1) + enc_expr(x),
    }
}

/// Reads what may be an expression.
#[verifier::opaque]
pub open spec fn dec_opt_expr(b: Seq<u8>) -> Result<(Option<ExprView>, Seq<u8>), Seq<char>>
    decreases b.len(), 7int,
{
    match dec_u8(b) {
        Err(e) => Err(e),
        Ok((n, r)) => if n == 0 {
            Ok((None, r))
        } else if n == 1 && r.len() < b.len() {
            match dec_expr(r) {
                Err(e) => Err(e),
                Ok((x, s)) => Ok((Some(x), s)),
            }
        } else {
            Err(option_text(n))
        },
    }
}

/// Whether every length in what may be an expression fits in 64 bits.
#[verifier::opaque]
pub open spec fn fits_opt_expr(v: Option<ExprView>) -> bool
    decreases v, 0int,
{
    match v {
        None => true,
        Some(x) => fits_expr(x),
    }
}

/// What may be an expression is read back from its binary form.
pub proof fn lemma_opt_expr(v: Option<ExprView>, rest: Seq<u8>)
    requires
        fits_opt_expr(v),
    ensures
        dec_opt_expr(enc_opt_expr(v) + rest) == Ok::<_, Seq<char>>((v, rest)),
        enc_opt_expr(v).len() > 0,
    decreases v, 0int,
{
    reveal(enc_opt_expr);
    reveal(dec_opt_expr);
    reveal(fits_opt_expr);
    reveal(enc_expr);
    reveal(dec_expr);
    reveal(fits_expr);
    match v {
        None => {
            lemma_u8(0, rest);
        },
        Some(x) => {
            lemma_expr(x, rest);
            lemma_u8(1, enc_expr(x) + rest);
            assert(enc_opt_expr(v) + rest =~= enc_u8(1) + (enc_expr(x) + rest));
        },
    }
}

/// Appends the binary form of what may be an expression.
pub fn put_opt_expr(out: &mut Vec<u8>, v: &Option<Expr>)
    ensures
        final(out)@ == old(out)@ + enc_opt_expr(
            match *v {
                Some(x) => Some(x.model()),
                None => None,
            },
        ),
        fits_opt_expr(
            match *v {
                Some(x) => Some(x.model()),
                None => None,
            },
        ),
    decreases v, 0int,
{
    proof {
        reveal(enc_opt_expr);
        reveal(fits_opt_expr);
        reveal(enc_expr);
        reveal(fits_expr);
    }
    let ghost before = out@;
    match v {
        None => {
            put_u8(out, 0);
        },
        Some(x) => {
            put_u8(out, 1);
            put_expr(out, x);
            assert(out@ =~= before + (enc_u8(1) + enc_expr(x.model())));
        },
    }
}

/// Reads what may be an expression at a position.
pub fn get_opt_expr(b: &[u8], pos: usize) -> (r: Result<(Option<Expr>, usize), String>)
    requires
        pos <= b@.len(),
    ensures
        read_at(
            b@,
            pos as int,
            dec_opt_expr(b@.skip(pos as int)),
            match r {
                Ok((v, p)) => Ok(
                    (
                        match v {
                Some(x) => Some(x.model()),
                None => None,
            },
                        p as int,
                    ),
                ),
                Err(e) => Err(e@),
            },
        ),
    decreases b@.len() - pos, 7int,
{
    proof {
        reveal(dec_opt_expr);
        reveal(dec_expr);
    }
    match get_u8(b, pos) {
        Err(e) => Err(e),
        Ok((n, p)) => if n == 0 {
            Ok((None, p))
        } else if n == 1 {
            match get_expr(b, p) {
                Err(e) => Err(e),
                Ok((x, q)) => Ok((Some(x), q)),
            }
        } else {
            Err(option_error(n))
        },
    }
}

/// The binary form of what may be a block.
#[verifier::opaque]
pub open spec fn enc_optbox_block(v: Option<Box<BlockView>>) -> Seq<u8>
    decreases v, 0int,
{
    match v {
        None => enc_u8(0),
        Some(x) => enc_u8(1) + enc_block(*x),
    }
}

/// Reads what may be a block.
#[verifier::opaque]
pub open spec fn dec_optbox_block(b: Seq<u8>) -> Result<(Option<Box<BlockView>>, Seq<u8>), Seq<char>>
    decreases b.len(), 7int,
{
    match dec_u8(b) {
        Err(e) => Err(e),
        Ok((n, r)) => if n == 0 {
            Ok((None, r))
        } else if n == 1 && r.len() < b.len() {
            match dec_block(r) {
                Err(e) => Err(e),
                Ok((x, s)) => Ok((Some(Box::new(x)), s)),
            }
        } else {
            Err(option_text(n))
        },
    }
}

/// Whether every length in what may be a block fits in 64 bits.
#[verifier::opaque]
pub open spec fn fits_optbox_block(v: Option<Box<BlockView>>) -> bool
    decreases v, 0int,
{
    match v {
        None => true,
        Some(x) => fits_block(*x),
    }
}

/// What may be a block is read back from its binary form.
pub proof fn lemma_optbox_block(v: Option<Box<BlockView>>, rest: Seq<u8>)
    requires
        fits_optbox_block(v),
    ensures
        dec_optbox_block(enc_optbox_block(v) + rest) == Ok::<_, Seq<char>>((v, rest)),
        enc_optbox_block(v).len() > 0,
    decreases v, 0int,
{
    reveal(enc_optbox_block);
    reveal(dec_optbox_block);
    reveal(fits_optbox_block);
    reveal(enc_block);
    reveal(dec_block);
    reveal(fits_block);
    match v {
        None => {
            lemma_u8(0, rest);
        },
        Some(x) => {
            lemma_block(*x, rest);
            lemma_u8(1, enc_block(*x) + rest);
            assert(enc_optbox_block(v) + rest =~= enc_u8(1) + (enc_block(*x) + rest));
        },
    }
}

/// Appends the binary form of what may be a block.
pub fn put_optbox_block(out: &mut Vec<u8>, v: &Option<Box<Block>>)
    ensures
        final(out)@ == old(out)@ + enc_optbox_block(
            match *v {
                Some(x) => Some(Box::new(x.model())),
                None => None,
            },
        ),
        fits_optbox_block(
            match *v {
                Some(x) => Some(Box::new(x.model())),
                None => None,
            },
        ),
    decreases v, 0int,
{
    proof {
        reveal(enc_optbox_block);
        reveal(fits_optbox_block);
        reveal(enc_block);
        reveal(fits_block);
    }
    let ghost before = out@;
    match v {
        None => {
            put_u8(out, 0);
        },
        Some(x) => {
            put_u8(out, 1);
            put_block(out, x);
            assert(out@ =~= before + (enc_u8(1) + enc_block(x.model())));
        },
    }
}

/// Reads what may be a block at a position.
pub fn get_optbox_block(b: &[u8], pos: usize) -> (r: Result<(Option<Box<Block>>, usize), String>)
    requires
        pos <= b@.len(),
    ensures
        read_at(
            b@,
            pos as int,
            dec_optbox_block(b@.skip(pos as int)),
            match r {
                Ok((v, p)) => Ok(
                    (
                        match v {
                Some(x) => Some(Box::new(x.model())),
                None => None,
            },
                        p as int,
                    ),
                ),
                Err(e) => Err(e@),
            },
        ),
    decreases b@.len() - pos, 7int,
{
    proof {
        reveal(dec_optbox_block);
        reveal(dec_block);
    }
    match get_u8(b, pos) {
        Err(e) => Err(e),
        Ok((n, p)) => if n == 0 {
            Ok((None, p))
        } else if n == 1 {
            match get_block(b, p) {
                Err(e) => Err(e),
                Ok((x, q)) => Ok((Some(Box::new(x)), q)),
            }
        } else {
            Err(option_error(n))
        },
    }
}

impl Wire for Expr {
    open spec fn enc(v: ExprView) -> Seq<u8> {
        enc_expr(v)
    }

    open spec fn dec(b: Seq<u8>) -> Result<(ExprView, Seq<u8>), Seq<char>> {
        dec_expr(b)
    }

    open spec fn fits(v: ExprView) -> bool {
        fits_expr(v)
    }

    proof fn lemma_read_back(v: ExprView, rest: Seq<u8>) {
        lemma_expr(v, rest);
    }

    fn write_to(&self, out: &mut Vec<u8>) {
        put_expr(out, self);
    }

    fn read_from(b: &[u8], pos: usize) -> (r: Result<(Self, usize), String>) {
        get_expr(b, pos)
    }
}

impl Wire for Block {
    open spec fn enc(v: BlockView) -> Seq<u8> {
        enc_block(v)
    }

    open spec fn dec(b: Seq<u8>) -> Result<(BlockView, Seq<u8>), Seq<char>> {
        dec_block(b)
    }

    open spec fn fits(v: BlockView) -> bool {
        fits_block(v)
    }

    proof fn lemma_read_back(v: BlockView, rest: Seq<u8>) {
        lemma_block(v, rest);
    }

    fn write_to(&self, out: &mut Vec<u8>) {
        put_block(out, self);
    }

    fn read_from(b: &[u8], pos: usize) -> (r: Result<(Self, usize), String>) {
        get_block(b, pos)
    }
}

} // verus!
