//! Code generation: from typed bodies to the instructions of LLVM functions.
//!
//! [`fill_module`] says what goes into the LLVM module of a crate. What only
//! the Rust compiler knows, how its functions are called and how its types are
//! laid out, it takes from [`abi::CodeFacts`]; where something is missing
//! there, it stops and names it.
pub mod abi;
pub mod code;
pub mod fields;
pub mod functions;
pub mod laws;
pub mod lower;
pub mod lowering;
pub mod machine;
pub mod running;
pub mod scopes;
pub mod types;
pub mod wrapper_laws;

use crate::llvm_gen::abi::{ask_wrapper, CodeFacts, LowerStop, LowerStopView};
use crate::llvm_gen::functions::{extern_wrapper, internal_function, Codegen, ModuleCode, ModuleView};
use crate::llvm_gen::lower::LowerCx;
use crate::names::find;
use crate::oracle::TOYLANG_MAIN;
use crate::text::{owned, same_text, views, Duplicate};
use crate::toylang::answers::RustAnswers;
use crate::toylang::callbacks_impl::{
    compute_internal_symbol_from_type_args, instantiated_fn, internal_symbol, resolve_toylang_callee, Emission, InstanceView, NameSet,
    ToylangInstance,
};
use crate::toylang::registry::{RegistryView, ToyFunction, ToyFunctionView, ToylangRegistry};
use crate::toylang::typed_ast::{resolved_views, ResolvedType, ResolvedTypeView};
use vstd::prelude::*;

verus! {

broadcast use {vstd::seq::group_seq_axioms, vstd::std_specs::vec::group_vec_axioms};

/// A function of the stubs that the Rust side uses.
#[derive(Debug, PartialEq)]
pub struct MonoItem {
    /// The name of the stub.
    pub name: String,
    /// The symbol by which the Rust side calls the function.
    pub extern_symbol: String,
    pub type_args: Vec<ResolvedType>,
}

/// What a [`MonoItem`] says.
pub struct MonoItemView {
    pub name: Seq<char>,
    pub extern_symbol: Seq<char>,
    pub type_args: Seq<ResolvedTypeView>,
}

impl View for MonoItem {
    type V = MonoItemView;

    open spec fn view(&self) -> MonoItemView {
        MonoItemView {
            name: self.name@,
            extern_symbol: self.extern_symbol@,
            type_args: resolved_views(self.type_args@),
        }
    }
}

/// A function that goes into the module.
#[derive(Debug, PartialEq)]
pub struct FnItem {
    pub resolved_func: ToyFunction,
    /// Whether the Rust side calls it, through a wrapper.
    pub wrapped: bool,
    pub extern_symbol: String,
    pub internal_symbol: String,
}

/// What an [`FnItem`] says.
pub struct FnItemView {
    pub resolved_func: ToyFunctionView,
    pub wrapped: bool,
    pub extern_symbol: Seq<char>,
    pub internal_symbol: Seq<char>,
}

impl View for FnItem {
    type V = FnItemView;

    open spec fn view(&self) -> FnItemView {
        FnItemView {
            resolved_func: self.resolved_func@,
            wrapped: self.wrapped,
            extern_symbol: self.extern_symbol@,
            internal_symbol: self.internal_symbol@,
        }
    }
}

/// The name of a function in the registry, by the name of its stub.
pub open spec fn registry_name(stub: Seq<char>) -> Seq<char> {
    if stub == TOYLANG_MAIN@ {
        "main"@
    } else {
        stub
    }
}

/// Whether an item has the symbol.
pub open spec fn has_symbol(items: Seq<FnItemView>, symbol: Seq<char>) -> bool {
    exists|i: int| 0 <= i < items.len() && (#[trigger] items[i]).extern_symbol == symbol
}

/// The first instance with the symbol.
pub open spec fn find_instance(instances: Seq<InstanceView>, symbol: Seq<char>) -> Option<
    InstanceView,
>
    decreases instances.len(),
{
    if instances.len() == 0 {
        None
    } else if instances[0].extern_symbol == symbol {
        Some(instances[0])
    } else {
        find_instance(instances.drop_first(), symbol)
    }
}

/// The toylang functions among those that the Rust side uses, each symbol
/// once. One that is to be emitted anyway stands as it was prepared, another
/// for its type arguments.
pub open spec fn mono_items(
    ms: Seq<MonoItemView>,
    instances: Seq<InstanceView>,
    registry: RegistryView,
) -> Seq<FnItemView>
    decreases ms.len(),
{
    if ms.len() == 0 {
        Seq::empty()
    } else {
        let before = mono_items(ms.drop_last(), instances, registry);
        let m = ms.last();
        match find(registry.functions, registry_name(m.name)) {
            None => before,
            Some(f) => if has_symbol(before, m.extern_symbol) {
                before
            } else {
                before.push(
                    FnItemView {
                        resolved_func: match find_instance(instances, m.extern_symbol) {
                            Some(inst) => inst.resolved_func,
                            None => instantiated_fn(f, m.type_args),
                        },
                        wrapped: true,
                        extern_symbol: m.extern_symbol,
                        internal_symbol: internal_symbol(registry_name(m.name), m.type_args),
                    },
                )
            },
        }
    }
}

/// The items with those functions that are to be emitted besides. One with a
/// stub is called by the Rust side.
pub open spec fn with_instances(items: Seq<FnItemView>, instances: Seq<InstanceView>) -> Seq<
    FnItemView,
>
    decreases instances.len(),
{
    if instances.len() == 0 {
        items
    } else {
        let before = with_instances(items, instances.drop_last());
        let inst = instances.last();
        if has_symbol(before, inst.extern_symbol) {
            before
        } else {
            before.push(
                FnItemView {
                    resolved_func: inst.resolved_func,
                    wrapped: inst.stub_def_id is Some,
                    extern_symbol: inst.extern_symbol,
                    internal_symbol: inst.internal_symbol,
                },
            )
        }
    }
}

/// The functions that go into the module.
pub open spec fn fill_items(
    ms: Seq<MonoItemView>,
    instances: Seq<InstanceView>,
    registry: RegistryView,
) -> Seq<FnItemView> {
    with_instances(mono_items(ms, instances, registry), instances)
}

/// The module with the bodies of some functions.
pub open spec fn with_bodies(items: Seq<FnItemView>, cx: LowerCx, m: ModuleView) -> Result<
    ModuleView,
    LowerStopView,
>
    decreases items.len(),
{
    if items.len() == 0 {
        Ok(m)
    } else {
        match internal_function(items[0].resolved_func, items[0].internal_symbol, cx, m) {
            Err(e) => Err(e),
            Ok(m1) => with_bodies(items.drop_first(), cx, m1),
        }
    }
}

/// The module with the wrappers of those functions that the Rust side calls.
pub open spec fn with_wrappers(items: Seq<FnItemView>, cx: LowerCx, m: ModuleView) -> Result<
    ModuleView,
    LowerStopView,
>
    decreases items.len(),
{
    if items.len() == 0 {
        Ok(m)
    } else if !items[0].wrapped {
        with_wrappers(items.drop_first(), cx, m)
    } else {
        match ask_wrapper(cx.facts, items[0].extern_symbol) {
            Err(e) => Err(e),
            Ok(abi) => match extern_wrapper(
                items[0].resolved_func,
                abi,
                items[0].extern_symbol,
                items[0].internal_symbol,
                cx,
                m,
            ) {
                Err(e) => Err(e),
                Ok(m1) => with_wrappers(items.drop_first(), cx, m1),
            },
        }
    }
}

/// A module without anything in it.
pub open spec fn empty_module() -> ModuleView {
    ModuleView {
        decls: Seq::empty(),
        rust_symbols: Seq::empty(),
        methods: Seq::empty(),
        functions: Seq::empty(),
    }
}

/// The module with some functions: all bodies, and then all wrappers.
pub open spec fn filled(items: Seq<FnItemView>, cx: LowerCx) -> Result<ModuleView, LowerStopView> {
    match with_bodies(items, cx, empty_module()) {
        Err(e) => Err(e),
        Ok(m) => with_wrappers(items, cx, m),
    }
}

/// The symbols that have to stay although nothing in the module calls them.
pub open spec fn pinned_symbols(items: Seq<FnItemView>) -> Seq<Seq<char>>
    decreases items.len(),
{
    if items.len() == 0 {
        Seq::empty()
    } else {
        let before = pinned_symbols(items.drop_last());
        let item = items.last();
        if !item.wrapped {
            before.push(item.internal_symbol)
        } else if item.internal_symbol != item.extern_symbol {
            before.push(item.extern_symbol).push(item.internal_symbol)
        } else {
            before.push(item.extern_symbol)
        }
    }
}

/// The symbols of the wrappers of some functions.
pub open spec fn wrapper_symbols(items: Seq<FnItemView>) -> Seq<Seq<char>>
    decreases items.len(),
{
    if items.len() == 0 {
        Seq::empty()
    } else if items[0].wrapped {
        seq![items[0].extern_symbol] + wrapper_symbols(items.drop_first())
    } else {
        wrapper_symbols(items.drop_first())
    }
}

/// The symbols of some functions under toylang's own conventions.
pub open spec fn body_symbols(items: Seq<FnItemView>) -> Seq<Seq<char>> {
    Seq::new(items.len(), |i: int| items[i].internal_symbol)
}

/// The symbols of the functions that a module defines.
pub open spec fn defined_symbols(m: ModuleView) -> Seq<Seq<char>> {
    Seq::new(m.functions.len(), |i: int| m.functions[i].symbol)
}

/// No two items have the same symbol.
pub open spec fn symbols_differ(items: Seq<FnItemView>) -> bool {
    forall|i: int, j: int|
        0 <= i < j < items.len() ==> (#[trigger] items[i]).extern_symbol != (
        #[trigger] items[j]).extern_symbol
}

/// Each symbol goes into the module once, however many times it is used or is
/// to be emitted.
pub proof fn lemma_symbols_differ(
    ms: Seq<MonoItemView>,
    instances: Seq<InstanceView>,
    registry: RegistryView,
)
    ensures
        symbols_differ(fill_items(ms, instances, registry)),
{
    lemma_mono_differ(ms, instances, registry);
    lemma_instances_differ(mono_items(ms, instances, registry), instances);
}

proof fn lemma_mono_differ(
    ms: Seq<MonoItemView>,
    instances: Seq<InstanceView>,
    registry: RegistryView,
)
    ensures
        symbols_differ(mono_items(ms, instances, registry)),
    decreases ms.len(),
{
    if ms.len() > 0 {
        lemma_mono_differ(ms.drop_last(), instances, registry);
    }
}

proof fn lemma_instances_differ(items: Seq<FnItemView>, instances: Seq<InstanceView>)
    requires
        symbols_differ(items),
    ensures
        symbols_differ(with_instances(items, instances)),
    decreases instances.len(),
{
    if instances.len() > 0 {
        lemma_instances_differ(items, instances.drop_last());
    }
}

/// Every function that is to be emitted goes into the module.
pub proof fn lemma_instances_filled(
    ms: Seq<MonoItemView>,
    instances: Seq<InstanceView>,
    registry: RegistryView,
    i: int,
)
    requires
        0 <= i < instances.len(),
    ensures
        has_symbol(fill_items(ms, instances, registry), instances[i].extern_symbol),
{
    lemma_instance_in(mono_items(ms, instances, registry), instances, i);
}

proof fn lemma_instance_in(items: Seq<FnItemView>, instances: Seq<InstanceView>, i: int)
    requires
        0 <= i < instances.len(),
    ensures
        has_symbol(with_instances(items, instances), instances[i].extern_symbol),
    decreases instances.len(),
{
    let before = with_instances(items, instances.drop_last());
    let after = with_instances(items, instances);
    let symbol = instances[i].extern_symbol;
    if i < instances.len() - 1 {
        lemma_instance_in(items, instances.drop_last(), i);
        assert(has_symbol(before, instances.drop_last()[i].extern_symbol));
        let k = choose|k: int|
            0 <= k < before.len() && (#[trigger] before[k]).extern_symbol == symbol;
        assert(after[k].extern_symbol == symbol);
    } else if !has_symbol(before, symbol) {
        assert(after[before.len() as int].extern_symbol == symbol);
    }
}

/// A filled module defines the body of every item, in order, and then the
/// wrapper of every item that the Rust side calls, in order.
pub proof fn lemma_filled_defines(items: Seq<FnItemView>, cx: LowerCx)
    requires
        filled(items, cx) is Ok,
    ensures
        defined_symbols(filled(items, cx)->Ok_0) == body_symbols(items) + wrapper_symbols(items),
{
    let m = empty_module();
    lemma_bodies_define(items, cx, m);
    let m1 = with_bodies(items, cx, m)->Ok_0;
    lemma_wrappers_define(items, cx, m1);
    assert(defined_symbols(m) =~= Seq::empty());
    assert(defined_symbols(m1) =~= body_symbols(items));
}

proof fn lemma_bodies_define(items: Seq<FnItemView>, cx: LowerCx, m: ModuleView)
    requires
        with_bodies(items, cx, m) is Ok,
    ensures
        defined_symbols(with_bodies(items, cx, m)->Ok_0) == defined_symbols(m) + body_symbols(items),
    decreases items.len(),
{
    if items.len() > 0 {
        let m1 = internal_function(
            items[0].resolved_func,
            items[0].internal_symbol,
            cx,
            m,
        )->Ok_0;
        lemma_bodies_define(items.drop_first(), cx, m1);
        assert(defined_symbols(m1) =~= defined_symbols(m).push(items[0].internal_symbol));
        assert(body_symbols(items) =~= seq![items[0].internal_symbol] + body_symbols(
            items.drop_first(),
        ));
        assert(defined_symbols(with_bodies(items, cx, m)->Ok_0) =~= defined_symbols(m)
            + body_symbols(items));
    } else {
        assert(defined_symbols(m) + body_symbols(items) =~= defined_symbols(m));
    }
}

proof fn lemma_wrappers_define(items: Seq<FnItemView>, cx: LowerCx, m: ModuleView)
    requires
        with_wrappers(items, cx, m) is Ok,
    ensures
        defined_symbols(with_wrappers(items, cx, m)->Ok_0) == defined_symbols(m) + wrapper_symbols(
            items,
        ),
    decreases items.len(),
{
    if items.len() == 0 {
        assert(defined_symbols(m) + wrapper_symbols(items) =~= defined_symbols(m));
    } else if !items[0].wrapped {
        lemma_wrappers_define(items.drop_first(), cx, m);
    } else {
        let abi = ask_wrapper(cx.facts, items[0].extern_symbol)->Ok_0;
        let m1 = extern_wrapper(
            items[0].resolved_func,
            abi,
            items[0].extern_symbol,
            items[0].internal_symbol,
            cx,
            m,
        )->Ok_0;
        lemma_wrapper_defines(
            items[0].resolved_func,
            abi,
            items[0].extern_symbol,
            items[0].internal_symbol,
            cx,
            m,
        );
        lemma_wrappers_define(items.drop_first(), cx, m1);
        assert(defined_symbols(m1) =~= defined_symbols(m).push(items[0].extern_symbol));
        assert(defined_symbols(with_wrappers(items, cx, m)->Ok_0) =~= defined_symbols(m)
            + wrapper_symbols(items));
    }
}

proof fn lemma_wrapper_defines(
    f: ToyFunctionView,
    abi: crate::llvm_gen::abi::AbiView,
    symbol: Seq<char>,
    inner: Seq<char>,
    cx: LowerCx,
    m: ModuleView,
)
    requires
        extern_wrapper(f, abi, symbol, inner, cx, m) is Ok,
    ensures
        ({
            let m1 = extern_wrapper(f, abi, symbol, inner, cx, m)->Ok_0;
            &&& m1.functions.len() == m.functions.len() + 1
            &&& m1.functions.drop_last() == m.functions
            &&& m1.functions.last().symbol == symbol
        }),
{
    let m1 = extern_wrapper(f, abi, symbol, inner, cx, m)->Ok_0;
    assert(m1.functions.drop_last() =~= m.functions);
    lemma_found_symbol(
        crate::llvm_gen::code::declare(
            m.decls,
            crate::llvm_gen::code::DeclView {
                symbol,
                params: crate::llvm_gen::abi::signature(abi.ret is Indirect, abi.params),
                ret: crate::llvm_gen::functions::wrapper_return(
                    crate::toylang::type_resolve::return_type(
                        f,
                        crate::llvm_gen::functions::typing_of(cx),
                    )->Ok_0,
                    abi.ret,
                    cx,
                )->Ok_0,
                sret: None,
            },
        ),
        symbol,
    );
}

proof fn lemma_found_symbol(
    decls: Seq<crate::llvm_gen::code::DeclView>,
    symbol: Seq<char>,
)
    ensures
        crate::llvm_gen::code::find_decl(decls, symbol) matches Some(d) ==> d.symbol == symbol,
    decreases decls.len(),
{
    if decls.len() > 0 {
        lemma_found_symbol(decls.drop_first(), symbol);
    }
}

/// Every function that a filled module defines is pinned.
pub proof fn lemma_defined_pinned(items: Seq<FnItemView>, cx: LowerCx, i: int)
    requires
        filled(items, cx) is Ok,
        0 <= i < defined_symbols(filled(items, cx)->Ok_0).len(),
    ensures
        pinned_symbols(items).contains(defined_symbols(filled(items, cx)->Ok_0)[i]),
{
    lemma_filled_defines(items, cx);
    lemma_pinned_holds(items);
    let all = body_symbols(items) + wrapper_symbols(items);
    if i < items.len() {
        assert(all[i] == items[i].internal_symbol);
    } else {
        let k = i - items.len();
        assert(all[i] == wrapper_symbols(items)[k]);
        lemma_wrapper_symbol_of(items, k);
    }
}

proof fn lemma_wrapper_symbol_of(items: Seq<FnItemView>, k: int)
    requires
        0 <= k < wrapper_symbols(items).len(),
    ensures
        exists|i: int|
            0 <= i < items.len() && (#[trigger] items[i]).wrapped && items[i].extern_symbol
                == wrapper_symbols(items)[k],
    decreases items.len(),
{
    let rest = items.drop_first();
    if items[0].wrapped && k == 0 {
        assert(items[0].extern_symbol == wrapper_symbols(items)[k]);
    } else {
        let j = if items[0].wrapped {
            k - 1
        } else {
            k
        };
        lemma_wrapper_symbol_of(rest, j);
        let i = choose|i: int|
            0 <= i < rest.len() && (#[trigger] rest[i]).wrapped && rest[i].extern_symbol
                == wrapper_symbols(rest)[j];
        assert(items[i + 1] == rest[i]);
    }
}

proof fn lemma_pinned_holds(items: Seq<FnItemView>)
    ensures
        forall|i: int|
            0 <= i < items.len() ==> pinned_symbols(items).contains(
                (#[trigger] items[i]).internal_symbol,
            ) && (items[i].wrapped ==> pinned_symbols(items).contains(items[i].extern_symbol)),
    decreases items.len(),
{
    if items.len() > 0 {
        let before = pinned_symbols(items.drop_last());
        let after = pinned_symbols(items);
        lemma_pinned_holds(items.drop_last());
        let last = items.last();
        assert(after.take(before.len() as int) =~= before);
        assert forall|s: Seq<char>| before.contains(s) implies after.contains(s) by {
            let k = choose|k: int| 0 <= k < before.len() && before[k] == s;
            assert(after[k] == s);
        }
        assert(after.contains(last.internal_symbol)) by {
            assert(after.last() == last.internal_symbol);
            assert(after[after.len() - 1] == last.internal_symbol);
        }
        if last.wrapped {
            assert(after[before.len() as int] == last.extern_symbol);
        }
        assert forall|i: int| 0 <= i < items.len() implies after.contains(
            (#[trigger] items[i]).internal_symbol,
        ) && (items[i].wrapped ==> after.contains(items[i].extern_symbol)) by {
            if i < items.len() - 1 {
                assert(items.drop_last()[i] == items[i]);
            }
        }
    }
}

/// The name of a function in the registry, by the name of its stub.
pub fn registry_name_of(stub: &str) -> (r: String)
    ensures
        r@ == registry_name(stub@),
{
    if same_text(stub, TOYLANG_MAIN) {
        owned("main")
    } else {
        owned(stub)
    }
}

fn item_has_symbol(items: &Vec<FnItem>, symbol: &String) -> (r: bool)
    ensures
        r == has_symbol(views(items@), symbol@),
{
    let mut i: usize = 0;
    while i < items.len()
        invariant
            i <= items@.len(),
            forall|j: int| 0 <= j < i ==> (#[trigger] views(items@)[j]).extern_symbol != symbol@,
        decreases items@.len() - i,
    {
        if same_text(&items[i].extern_symbol, symbol) {
            assert(views(items@)[i as int].extern_symbol == symbol@);
            return true;
        }
        i += 1;
    }
    false
}

fn push_item(items: &mut Vec<FnItem>, item: FnItem)
    ensures
        views(final(items)@) == views(old(items)@).push(item@),
{
    let ghost before = views(items@);
    let ghost view = item@;
    items.push(item);
    assert(views(items@) =~= before.push(view));
}

fn lookup_instance<'a>(instances: &'a Vec<ToylangInstance>, symbol: &String) -> (r: Option<
    &'a ToylangInstance,
>)
    ensures
        (match r {
            Some(x) => Some(x@),
            None => None,
        }) == find_instance(views(instances@), symbol@),
{
    let ghost all = views(instances@);
    let mut i: usize = 0;
    assert(all.skip(0) =~= all);
    while i < instances.len()
        invariant
            i <= instances@.len(),
            all == views(instances@),
            find_instance(all, symbol@) == find_instance(all.skip(i as int), symbol@),
        decreases instances@.len() - i,
    {
        assert(all.skip(i as int).drop_first() =~= all.skip(i + 1));
        assert(all.skip(i as int)[0] == instances@[i as int]@);
        if same_text(&instances[i].extern_symbol, symbol) {
            return Some(&instances[i]);
        }
        i += 1;
    }
    None
}

/// The functions that go into the module.
pub fn collect_items(
    registry: &ToylangRegistry,
    ms: &Vec<MonoItem>,
    instances: &Vec<ToylangInstance>,
) -> (r: Vec<FnItem>)
    ensures
        views(r@) == fill_items(views(ms@), views(instances@), registry@),
{
    let ghost all = views(ms@);
    let ghost known = views(instances@);
    let mut items: Vec<FnItem> = Vec::new();
    let mut i: usize = 0;
    assert(all.take(0) =~= Seq::empty());
    assert(views(items@) =~= mono_items(all.take(0), known, registry@));
    while i < ms.len()
        invariant
            i <= ms@.len(),
            all == views(ms@),
            known == views(instances@),
            views(items@) == mono_items(all.take(i as int), known, registry@),
        decreases ms@.len() - i,
    {
        assert(all.take(i + 1).drop_last() =~= all.take(i as int));
        assert(all.take(i + 1).last() == ms@[i as int]@);
        let name = registry_name_of(&ms[i].name);
        match registry.functions.get(&name) {
            None => {},
            Some(f) => if !item_has_symbol(&items, &ms[i].extern_symbol) {
                let resolved_func = match lookup_instance(instances, &ms[i].extern_symbol) {
                    Some(inst) => inst.resolved_func.duplicate(),
                    None => resolve_toylang_callee(f, &ms[i].type_args),
                };
                let internal = compute_internal_symbol_from_type_args(&name, &ms[i].type_args);
                push_item(
                    &mut items,
                    FnItem {
                        resolved_func,
                        wrapped: true,
                        extern_symbol: ms[i].extern_symbol.clone(),
                        internal_symbol: internal,
                    },
                );
            },
        }
        i += 1;
    }
    assert(all.take(ms@.len() as int) =~= all);
    let ghost start = views(items@);
    let mut k: usize = 0;
    assert(known.take(0) =~= Seq::empty());
    while k < instances.len()
        invariant
            k <= instances@.len(),
            known == views(instances@),
            views(items@) == with_instances(start, known.take(k as int)),
        decreases instances@.len() - k,
    {
        assert(known.take(k + 1).drop_last() =~= known.take(k as int));
        assert(known.take(k + 1).last() == instances@[k as int]@);
        if !item_has_symbol(&items, &instances[k].extern_symbol) {
            push_item(
                &mut items,
                FnItem {
                    resolved_func: instances[k].resolved_func.duplicate(),
                    wrapped: instances[k].stub_def_id.is_some(),
                    extern_symbol: instances[k].extern_symbol.clone(),
                    internal_symbol: instances[k].internal_symbol.clone(),
                },
            );
        }
        k += 1;
    }
    assert(known.take(instances@.len() as int) =~= known);
    items
}

fn pin_symbols(items: &Vec<FnItem>) -> (r: Vec<String>)
    ensures
        views(r@) == pinned_symbols(views(items@)),
{
    let ghost all = views(items@);
    let mut out: Vec<String> = Vec::new();
    let mut i: usize = 0;
    assert(all.take(0) =~= Seq::empty());
    assert(views(out@) =~= Seq::empty());
    while i < items.len()
        invariant
            i <= items@.len(),
            all == views(items@),
            views(out@) == pinned_symbols(all.take(i as int)),
        decreases items@.len() - i,
    {
        let ghost before = views(out@);
        assert(all.take(i + 1).drop_last() =~= all.take(i as int));
        assert(all.take(i + 1).last() == items@[i as int]@);
        let same = same_text(&items[i].internal_symbol, &items[i].extern_symbol);
        if items[i].wrapped {
            out.push(items[i].extern_symbol.clone());
            assert(views(out@) =~= before.push(items@[i as int].extern_symbol@));
        }
        let ghost middle = views(out@);
        if !same || !items[i].wrapped {
            out.push(items[i].internal_symbol.clone());
            assert(views(out@) =~= middle.push(items@[i as int].internal_symbol@));
        }
        i += 1;
    }
    assert(all.take(items@.len() as int) =~= all);
    out
}

/// What goes into the LLVM module, and the symbols to pin there.
pub struct Filled {
    pub module: ModuleCode,
    pub pinned: Vec<String>,
}

/// Says what goes into the LLVM module of a crate: first the bodies of all
/// functions, under toylang's own conventions, and then wrappers for those
/// that the Rust side calls.
pub fn fill_module(
    registry: &ToylangRegistry,
    answers: &RustAnswers,
    facts: &CodeFacts,
    ms: &Vec<MonoItem>,
    emission: &Emission,
) -> (r: Result<Filled, LowerStop>)
    ensures
        ({
            let items = fill_items(views(ms@), emission@.instances, registry@);
            let cx = LowerCx { registry: registry@, answers: answers@, facts: facts@ };
            match filled(items, cx) {
                Ok(m) => r is Ok && r->Ok_0.module@ == m && views(r->Ok_0.pinned@)
                    == pinned_symbols(items),
                Err(e) => r is Err && r->Err_0@ == e,
            }
        }),
{
    let items = collect_items(registry, ms, &emission.toylang_instances);
    let gen = Codegen { registry, answers, facts };
    let ghost cx = gen.cx();
    let ghost all = views(items@);
    let mut module = ModuleCode {
        decls: Vec::new(),
        rust_symbols: Vec::new(),
        methods: NameSet::new(),
        functions: Vec::new(),
    };
    assert(module@.decls =~= Seq::empty());
    assert(module@.rust_symbols =~= Seq::empty());
    assert(module@.functions =~= Seq::empty());
    assert(module@ == empty_module());
    let ghost bodies = with_bodies(all, cx, module@);
    let mut i: usize = 0;
    assert(all.skip(0) =~= all);
    while i < items.len()
        invariant
            i <= items@.len(),
            all == views(items@),
            all == fill_items(views(ms@), emission@.instances, registry@),
            cx == gen.cx(),
            cx == (LowerCx { registry: registry@, answers: answers@, facts: facts@ }),
            bodies == with_bodies(all, cx, empty_module()),
            bodies == with_bodies(all.skip(i as int), cx, module@),
        decreases items@.len() - i,
    {
        assert(all.skip(i as int).drop_first() =~= all.skip(i + 1));
        assert(all.skip(i as int)[0] == items@[i as int]@);
        module = match gen.codegen_internal_function(
            module,
            &items[i].resolved_func,
            &items[i].internal_symbol,
        ) {
            Err(e) => {
                return Err(e);
            },
            Ok(m) => m,
        };
        i += 1;
    }
    assert(all.skip(i as int).len() == 0);
    let ghost whole = with_wrappers(all, cx, module@);
    let mut k: usize = 0;
    while k < items.len()
        invariant
            k <= items@.len(),
            all == views(items@),
            all == fill_items(views(ms@), emission@.instances, registry@),
            cx == gen.cx(),
            cx.facts == facts@,
            cx == (LowerCx { registry: registry@, answers: answers@, facts: facts@ }),
            whole == filled(all, cx),
            whole == with_wrappers(all.skip(k as int), cx, module@),
        decreases items@.len() - k,
    {
        assert(all.skip(k as int).drop_first() =~= all.skip(k + 1));
        assert(all.skip(k as int)[0] == items@[k as int]@);
        if items[k].wrapped {
            let abi = match facts.wrapper_of(&items[k].extern_symbol) {
                Err(e) => {
                    return Err(e);
                },
                Ok(abi) => abi,
            };
            module = match gen.codegen_extern_wrapper(
                module,
                &items[k].resolved_func,
                abi,
                &items[k].extern_symbol,
                &items[k].internal_symbol,
            ) {
                Err(e) => {
                    return Err(e);
                },
                Ok(m) => m,
            };
        }
        k += 1;
    }
    assert(all.skip(k as int).len() == 0);
    let pinned = pin_symbols(&items);
    Ok(Filled { module, pinned })
}

/// How a target keeps frame pointers.
#[derive(Clone, Copy, Debug, PartialEq, Eq, Structural)]
pub enum FramePointer {
    Always,
    NonLeaf,
    MayOmit,
}

/// How a target probes the stack.
#[derive(Clone, Copy, Debug, PartialEq, Eq, Structural)]
pub enum StackProbe {
    Unprobed,
    Inline,
    Call,
    InlineOrCall,
}

/// The attributes that every function of the module gets besides the target
/// CPU and `nounwind`, so that it can be inlined into functions of the Rust
/// side and they into it.
#[derive(Debug, PartialEq)]
pub struct CompatAttributes {
    /// The value of `frame-pointer`.
    pub frame_pointer: Option<&'static str>,
    /// The value of `probe-stack`.
    pub probe_stack: Option<&'static str>,
    /// The value of `uwtable`.
    pub unwind_tables: Option<u64>,
}

/// The attributes that belong to a target.
pub fn compat_attributes(
    frame_pointer: FramePointer,
    probe: StackProbe,
    must_emit_unwind_tables: bool,
) -> (r: CompatAttributes)
    ensures
        (match r.frame_pointer {
            Some(v) => Some(v@),
            None => None,
        }) == (match frame_pointer {
            FramePointer::Always => Some("all"@),
            FramePointer::NonLeaf => Some("non-leaf"@),
            FramePointer::MayOmit => None,
        }),
        (match r.probe_stack {
            Some(v) => Some(v@),
            None => None,
        }) == (match probe {
            StackProbe::Inline | StackProbe::InlineOrCall => Some("inline-asm"@),
            StackProbe::Unprobed | StackProbe::Call => None,
        }),
        r.unwind_tables == (if must_emit_unwind_tables {
            Some(1u64)
        } else {
            None
        }),
{
    CompatAttributes {
        frame_pointer: match frame_pointer {
            FramePointer::Always => Some("all"),
            FramePointer::NonLeaf => Some("non-leaf"),
            FramePointer::MayOmit => None,
        },
        probe_stack: match probe {
            StackProbe::Inline | StackProbe::InlineOrCall => Some("inline-asm"),
            StackProbe::Unprobed | StackProbe::Call => None,
        },
        unwind_tables: if must_emit_unwind_tables {
            Some(1)
        } else {
            None
        },
    }
}

} // verus!
