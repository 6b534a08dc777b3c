//! What running the wrappers does: what the functions do that they wrap.
use crate::llvm_gen::abi::{signature, AbiParamView, AbiView};
use crate::llvm_gen::code::{declare, emit, find_decl, next, CodeView, DeclView, InstView, OperandView};
use crate::llvm_gen::functions::{extern_wrapper, forward_params, param_types, start, typing_of, wrapper_return, ModuleView};
use crate::llvm_gen::lower::{internal_sret, LowerCx};
use crate::llvm_gen::machine::{give, lemma_stays, lemma_step_on, operand, operands, reaches, step, Linked, Machine, Program, Word};
use crate::llvm_gen::running::returned;
use crate::llvm_gen::types::LlvmTypeView;
use crate::toylang::registry::{ToyFunctionView, ToyParamView};
use crate::toylang::type_resolve::return_type;
use vstd::prelude::*;

verus! {

broadcast use vstd::seq::group_seq_axioms;

/// A machine at the start of a function.
pub open spec fn entered(params: Seq<Word>, memory: Seq<Word>, outside: int) -> Machine {
    Machine { at: 2, block: 0, came: 0, regs: Map::empty(), params, memory, outside }
}

/// A wrapper whose parameters and whose result are passed as the function that
/// it wraps passes them does what that function does: it calls it with all its
/// own parameters, in their order, and returns what comes back.
pub proof fn lemma_wrapper_does(
    f: ToyFunctionView,
    abi: AbiView,
    symbol: Seq<char>,
    inner: Seq<char>,
    cx: LowerCx,
    md: ModuleView,
    params: Seq<Word>,
    memory: Seq<Word>,
    outside: int,
    k: Linked,
)
    requires
        extern_wrapper(f, abi, symbol, inner, cx, md) is Ok,
        ({
            let ret = return_type(f, typing_of(cx))->Ok_0;
            let internal = param_types(f.params, cx)->Ok_0;
            let after = extern_wrapper(f, abi, symbol, inner, cx, md)->Ok_0;
            &&& !internal_sret(ret)
            &&& !(abi.ret is Indirect)
            &&& params.len() == abi.params.len()
            &&& forall|i: int|
                0 <= i < abi.params.len() ==> #[trigger] abi.params[i] == AbiParamView::Direct(
                    internal[i],
                )
            &&& find_decl(after.decls, inner) matches Some(d) && wrapper_return(
                ret,
                abi.ret,
                cx,
            )->Ok_0 == d.ret
        }),
        k(inner, params, memory, outside) is Some,
    ensures
        ({
            let ret = return_type(f, typing_of(cx))->Ok_0;
            let after = extern_wrapper(f, abi, symbol, inner, cx, md)->Ok_0;
            let code = Program {
                insts: after.functions.last().insts,
                decls: after.decls,
                structs: cx.registry.structs,
            };
            let d = find_decl(after.decls, inner)->Some_0;
            let (w, memory1, outside1) = k(inner, params, memory, outside)->Some_0;
            exists|m1: Machine|
                {
                    &&& #[trigger] reaches(code, entered(params, memory, outside), m1, k)
                    &&& m1.memory == memory1
                    &&& m1.outside == outside1
                    &&& returned(code, m1) == Some(
                        if d.ret is None || ret is Void {
                            None
                        } else {
                            Some(w)
                        },
                    )
                }
        }),
{
    let ret = return_type(f, typing_of(cx))->Ok_0;
    let internal = param_types(f.params, cx)->Ok_0;
    let after = extern_wrapper(f, abi, symbol, inner, cx, md)->Ok_0;
    let code = Program {
        insts: after.functions.last().insts,
        decls: after.decls,
        structs: cx.registry.structs,
    };
    let direct = wrapper_return(ret, abi.ret, cx)->Ok_0;
    let decls = declare(
        md.decls,
        DeclView {
            symbol,
            params: signature(abi.ret is Indirect, abi.params),
            ret: direct,
            sret: None,
        },
    );
    let decl = find_decl(decls, symbol)->Some_0;
    let callee = find_decl(decls, inner)->Some_0;
    lemma_symbol(decls, inner);
    let m2 = ModuleView { decls, ..md };
    let s1 = start(m2);
    lemma_count(f.params, cx);
    lemma_forward(abi.params, internal, 0, decl.params.len(), decl.symbol, s1);
    let (ops, end, s2) = forward_params(
        abi.params,
        internal,
        0,
        decl.params.len(),
        decl.symbol,
        s1,
    )->Ok_0;
    let s3 = emit(s2, InstView::Call { symbol: inner, args: ops });
    assert(after.decls == decls);
    assert(callee == find_decl(after.decls, inner)->Some_0);
    let plain = ret is Void || callee.ret is None;
    let last = InstView::Return {
        value: if plain {
            None
        } else {
            Some(next(s2))
        },
    };
    assert(code.insts == emit(s3, last).insts);
    assert(code.insts[2] == (InstView::Call { symbol: inner, args: ops }));
    assert(code.insts[3] == last);
    let m0 = entered(params, memory, outside);
    lemma_passed(params.len(), 0, m0);
    assert(ops =~= Seq::new(params.len(), |i: int| OperandView::Param(i as nat)));
    assert(params.skip(0) =~= params);
    assert(operands(ops, m0) == Some(params)) by {
        assert(Seq::new(params.len(), |i: int| OperandView::Param(i as nat)) =~= Seq::new(
            (m0.params.len() - 0) as nat,
            |i: int| OperandView::Param((0 + i) as nat),
        ));
    }
    let (w, memory1, outside1) = k(inner, params, memory, outside)->Some_0;
    let m1 = Machine { memory: memory1, outside: outside1, ..give(w, m0) };
    lemma_stays(code, m0, k);
    assert(step(code, m0, k) == Some(m1));
    lemma_step_on(code, m0, m0, k);
    assert(operand(next(s2), m1) == Some(w));
    assert(returned(code, m1) == Some(
        if plain {
            None
        } else {
            Some(w)
        },
    ));
}

proof fn lemma_symbol(decls: Seq<DeclView>, symbol: Seq<char>)
    ensures
        find_decl(decls, symbol) matches Some(d) ==> d.symbol == symbol,
    decreases decls.len(),
{
    if decls.len() > 0 && decls[0].symbol != symbol {
        lemma_symbol(decls.drop_first(), symbol);
    }
}

proof fn lemma_count(ps: Seq<ToyParamView>, cx: LowerCx)
    ensures
        param_types(ps, cx) matches Ok(types) ==> types.len() == ps.len(),
    decreases ps.len(),
{
    if ps.len() > 0 {
        lemma_count(ps.drop_first(), cx);
    }
}

proof fn lemma_forward(
    ps: Seq<AbiParamView>,
    internal: Seq<LlvmTypeView>,
    at: nat,
    count: nat,
    symbol: Seq<char>,
    s: CodeView,
)
    requires
        forward_params(ps, internal, at, count, symbol, s) is Ok,
        internal.len() == ps.len(),
        forall|i: int| 0 <= i < ps.len() ==> #[trigger] ps[i] == AbiParamView::Direct(internal[i]),
    ensures
        forward_params(ps, internal, at, count, symbol, s)->Ok_0 == (
            Seq::new(ps.len(), |i: int| OperandView::Param((at + i) as nat)),
            at + ps.len(),
            s,
        ),
    decreases ps.len(),
{
    let all = Seq::new(ps.len(), |i: int| OperandView::Param((at + i) as nat));
    if ps.len() == 0 {
        assert(all =~= Seq::empty());
    } else {
        let rest = ps.drop_first();
        let types = internal.drop_first();
        assert(ps[0] == AbiParamView::Direct(internal[0]));
        assert forall|i: int| 0 <= i < rest.len() implies #[trigger] rest[i]
            == AbiParamView::Direct(types[i]) by {
            assert(rest[i] == ps[i + 1]);
        }
        lemma_forward(rest, types, at + 1, count, symbol, s);
        let others = Seq::new(rest.len(), |i: int| OperandView::Param((at + 1 + i) as nat));
        assert(seq![OperandView::Param(at)] + others =~= all);
    }
}

proof fn lemma_passed(n: nat, at: nat, m: Machine)
    requires
        at <= n,
        m.params.len() == n,
    ensures
        operands(
            Seq::new((n - at) as nat, |i: int| OperandView::Param((at + i) as nat)),
            m,
        ) == Some(m.params.skip(at as int)),
    decreases n - at,
{
    let os = Seq::new((n - at) as nat, |i: int| OperandView::Param((at + i) as nat));
    if at == n {
        assert(m.params.skip(at as int) =~= Seq::empty());
    } else {
        lemma_passed(n, at + 1, m);
        assert(os.drop_first() =~= Seq::new(
            (n - (at + 1)) as nat,
            |i: int| OperandView::Param((at + 1 + i) as nat),
        ));
        assert(seq![m.params[at as int]] + m.params.skip((at + 1) as int) =~= m.params.skip(at as int));
    }
}

} // verus!
