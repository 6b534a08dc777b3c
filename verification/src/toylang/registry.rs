//! The definitions that a compilation sees: structs, functions and trait impls.
use crate::names::NameMap;
use crate::text::{duplicate_all, views, Duplicate};
use crate::toylang::ast::{Block, BlockView, Expr, ExprView};
use crate::typeid::type_id;
use crate::toylang::typed_ast::{
    clone_resolved_types, clone_source_types, resolved_views, source_views, ResolvedType, ResolvedTypeView, SourceType, SourceTypeView,
};
use vstd::prelude::*;

verus! {

broadcast use {vstd::seq::group_seq_axioms, vstd::std_specs::vec::group_vec_axioms};

/// A field of a toylang struct.
#[derive(Clone, Debug, PartialEq)]
pub struct ToyField {
    pub name: String,
    pub rust_type: SourceType,
}

/// A toylang struct definition.
#[derive(Clone, Debug, PartialEq)]
pub struct ToyStruct {
    /// For example `["A", "B"]`; empty for a struct that is not generic.
    pub type_params: Vec<String>,
    pub fields: Vec<ToyField>,
}

/// A parameter in a function signature.
#[derive(Clone, Debug, PartialEq)]
pub struct ToyParam {
    pub name: String,
    pub ty: SourceType,
}

/// A toylang function definition. One without a body is declared here and
/// defined on the Rust side.
#[derive(Clone, Debug, PartialEq)]
pub struct ToyFunction {
    /// For example `["T"]`; empty for a function that is not generic.
    pub type_params: Vec<String>,
    pub params: Vec<ToyParam>,
    pub return_ty: Option<SourceType>,
    pub body: Option<Block>,
    /// Whether Rust code may call the function.
    pub is_export: bool,
}

/// A method of a trait impl.
#[derive(Clone, Debug, PartialEq)]
pub struct ToyImplMethod {
    pub name: String,
    pub func: ToyFunction,
    /// Whether the receiver is `&mut self` rather than `&self`.
    pub is_self_mut: bool,
}

/// An impl of a Rust trait for a toylang struct.
#[derive(Clone, Debug, PartialEq)]
pub struct ToyImpl {
    pub trait_name: String,
    pub self_type_name: String,
    pub is_export: bool,
    pub type_params: Vec<String>,
    /// Bounds on type parameters, as pairs of parameter and trait.
    pub type_param_bounds: Vec<(String, String)>,
    pub self_type_args: Vec<String>,
    pub methods: Vec<ToyImplMethod>,
}

/// A trait impl method that was seen instantiated with concrete types.
#[derive(Clone, Debug, PartialEq)]
pub struct DiscoveredTraitImplInstance {
    pub self_type_name: String,
    pub trait_name: String,
    pub method_name: String,
    pub concrete_args: Vec<ResolvedType>,
}

/// What a type id stands for.
#[derive(Clone, Debug, PartialEq)]
pub struct TypeIdEntry {
    pub id: u64,
    pub name: String,
    pub type_args: Vec<SourceType>,
}

/// All definitions visible to a compilation.
#[derive(Clone, Debug, PartialEq)]
pub struct ToylangRegistry {
    pub structs: NameMap<ToyStruct>,
    pub functions: NameMap<ToyFunction>,
    /// Rust `use` imports, such as `std::alloc::Global`.
    pub imports: Vec<String>,
    pub typeid_table: TypeIdTable,
    pub trait_impls: Vec<ToyImpl>,
    /// The struct fields that have an accessor, as pairs of struct and field.
    pub accessor_pairs: Vec<(String, String)>,
    pub discovered_trait_impl_instances: Vec<DiscoveredTraitImplInstance>,
}

/// What a [`ToyField`] says.
pub struct ToyFieldView {
    pub name: Seq<char>,
    pub rust_type: SourceTypeView,
}

/// What a [`ToyStruct`] says.
pub struct ToyStructView {
    pub type_params: Seq<Seq<char>>,
    pub fields: Seq<ToyFieldView>,
}

/// What a [`ToyParam`] says.
pub struct ToyParamView {
    pub name: Seq<char>,
    pub ty: SourceTypeView,
}

/// What a [`ToyFunction`] says.
pub struct ToyFunctionView {
    pub type_params: Seq<Seq<char>>,
    pub params: Seq<ToyParamView>,
    pub return_ty: Option<SourceTypeView>,
    pub body: Option<BlockView>,
    pub is_export: bool,
}

/// What a [`ToyImplMethod`] says.
pub struct ToyImplMethodView {
    pub name: Seq<char>,
    pub func: ToyFunctionView,
    pub is_self_mut: bool,
}

/// What a [`ToyImpl`] says.
pub struct ToyImplView {
    pub trait_name: Seq<char>,
    pub self_type_name: Seq<char>,
    pub is_export: bool,
    pub type_params: Seq<Seq<char>>,
    pub type_param_bounds: Seq<(Seq<char>, Seq<char>)>,
    pub self_type_args: Seq<Seq<char>>,
    pub methods: Seq<ToyImplMethodView>,
}

/// What a [`DiscoveredTraitImplInstance`] says.
pub struct DiscoveredView {
    pub self_type_name: Seq<char>,
    pub trait_name: Seq<char>,
    pub method_name: Seq<char>,
    pub concrete_args: Seq<ResolvedTypeView>,
}

/// What a [`TypeIdEntry`] says.
pub struct TypeIdEntryView {
    pub id: u64,
    pub name: Seq<char>,
    pub type_args: Seq<SourceTypeView>,
}

/// What a [`ToylangRegistry`] says.
pub struct RegistryView {
    pub structs: Seq<(Seq<char>, ToyStructView)>,
    pub functions: Seq<(Seq<char>, ToyFunctionView)>,
    pub imports: Seq<Seq<char>>,
    pub typeid_table: Seq<TypeIdEntryView>,
    pub trait_impls: Seq<ToyImplView>,
    pub accessor_pairs: Seq<(Seq<char>, Seq<char>)>,
    pub discovered_trait_impl_instances: Seq<DiscoveredView>,
}

/// The views of pairs of names.
pub open spec fn pair_views(s: Seq<(String, String)>) -> Seq<(Seq<char>, Seq<char>)> {
    Seq::new(s.len(), |i: int| (s[i].0@, s[i].1@))
}

impl View for ToyField {
    type V = ToyFieldView;

    open spec fn view(&self) -> ToyFieldView {
        ToyFieldView { name: self.name@, rust_type: self.rust_type@ }
    }
}

impl View for ToyStruct {
    type V = ToyStructView;

    open spec fn view(&self) -> ToyStructView {
        ToyStructView { type_params: views(self.type_params@), fields: views(self.fields@) }
    }
}

impl View for ToyParam {
    type V = ToyParamView;

    open spec fn view(&self) -> ToyParamView {
        ToyParamView { name: self.name@, ty: self.ty@ }
    }
}

impl View for ToyFunction {
    type V = ToyFunctionView;

    open spec fn view(&self) -> ToyFunctionView {
        ToyFunctionView {
            type_params: views(self.type_params@),
            params: views(self.params@),
            return_ty: match self.return_ty {
                Some(t) => Some(t@),
                None => None,
            },
            body: match self.body {
                Some(b) => Some(b@),
                None => None,
            },
            is_export: self.is_export,
        }
    }
}

impl View for ToyImplMethod {
    type V = ToyImplMethodView;

    open spec fn view(&self) -> ToyImplMethodView {
        ToyImplMethodView {
            name: self.name@,
            func: self.func@,
            is_self_mut: self.is_self_mut,
        }
    }
}

impl View for ToyImpl {
    type V = ToyImplView;

    open spec fn view(&self) -> ToyImplView {
        ToyImplView {
            trait_name: self.trait_name@,
            self_type_name: self.self_type_name@,
            is_export: self.is_export,
            type_params: views(self.type_params@),
            type_param_bounds: pair_views(self.type_param_bounds@),
            self_type_args: views(self.self_type_args@),
            methods: views(self.methods@),
        }
    }
}

impl View for DiscoveredTraitImplInstance {
    type V = DiscoveredView;

    open spec fn view(&self) -> DiscoveredView {
        DiscoveredView {
            self_type_name: self.self_type_name@,
            trait_name: self.trait_name@,
            method_name: self.method_name@,
            concrete_args: resolved_views(self.concrete_args@),
        }
    }
}

impl View for TypeIdEntry {
    type V = TypeIdEntryView;

    open spec fn view(&self) -> TypeIdEntryView {
        TypeIdEntryView {
            id: self.id,
            name: self.name@,
            type_args: source_views(self.type_args@),
        }
    }
}

impl View for ToylangRegistry {
    type V = RegistryView;

    open spec fn view(&self) -> RegistryView {
        RegistryView {
            structs: self.structs@,
            functions: self.functions@,
            imports: views(self.imports@),
            typeid_table: self.typeid_table@,
            trait_impls: views(self.trait_impls@),
            accessor_pairs: pair_views(self.accessor_pairs@),
            discovered_trait_impl_instances: views(self.discovered_trait_impl_instances@),
        }
    }
}

/// Copies of pairs of names.
pub fn clone_pairs(v: &Vec<(String, String)>) -> (r: Vec<(String, String)>)
    ensures
        pair_views(r@) == pair_views(v@),
{
    let mut r: Vec<(String, String)> = Vec::new();
    let mut i: usize = 0;
    while i < v.len()
        invariant
            i == r@.len(),
            i <= v@.len(),
            forall|j: int| 0 <= j < i ==> (#[trigger] r@[j]) == v@[j],
        decreases v@.len() - i,
    {
        r.push((v[i].0.clone(), v[i].1.clone()));
        i += 1;
    }
    assert(pair_views(r@) =~= pair_views(v@));
    r
}

impl Duplicate for ToyField {
    fn duplicate(&self) -> (r: Self) {
        ToyField { name: self.name.clone(), rust_type: self.rust_type.duplicate() }
    }
}

impl Duplicate for ToyStruct {
    fn duplicate(&self) -> (r: Self) {
        ToyStruct {
            type_params: duplicate_all(&self.type_params),
            fields: duplicate_all(&self.fields),
        }
    }
}

impl Duplicate for ToyParam {
    fn duplicate(&self) -> (r: Self) {
        ToyParam { name: self.name.clone(), ty: self.ty.duplicate() }
    }
}

impl Duplicate for ToyFunction {
    fn duplicate(&self) -> (r: Self) {
        ToyFunction {
            type_params: duplicate_all(&self.type_params),
            params: duplicate_all(&self.params),
            return_ty: match &self.return_ty {
                Some(t) => Some(t.duplicate()),
                None => None,
            },
            body: match &self.body {
                Some(b) => Some(b.duplicate()),
                None => None,
            },
            is_export: self.is_export,
        }
    }
}

impl Duplicate for ToyImplMethod {
    fn duplicate(&self) -> (r: Self) {
        ToyImplMethod {
            name: self.name.clone(),
            func: self.func.duplicate(),
            is_self_mut: self.is_self_mut,
        }
    }
}

impl Duplicate for ToyImpl {
    fn duplicate(&self) -> (r: Self) {
        ToyImpl {
            trait_name: self.trait_name.clone(),
            self_type_name: self.self_type_name.clone(),
            is_export: self.is_export,
            type_params: duplicate_all(&self.type_params),
            type_param_bounds: clone_pairs(&self.type_param_bounds),
            self_type_args: duplicate_all(&self.self_type_args),
            methods: duplicate_all(&self.methods),
        }
    }
}

impl Duplicate for DiscoveredTraitImplInstance {
    fn duplicate(&self) -> (r: Self) {
        DiscoveredTraitImplInstance {
            self_type_name: self.self_type_name.clone(),
            trait_name: self.trait_name.clone(),
            method_name: self.method_name.clone(),
            concrete_args: clone_resolved_types(&self.concrete_args),
        }
    }
}

impl Duplicate for TypeIdEntry {
    fn duplicate(&self) -> (r: Self) {
        TypeIdEntry {
            id: self.id,
            name: self.name.clone(),
            type_args: clone_source_types(&self.type_args),
        }
    }
}

impl Duplicate for ToylangRegistry {
    fn duplicate(&self) -> (r: Self) {
        ToylangRegistry {
            structs: self.structs.duplicate(),
            functions: self.functions.duplicate(),
            imports: duplicate_all(&self.imports),
            typeid_table: self.typeid_table.duplicate(),
            trait_impls: duplicate_all(&self.trait_impls),
            accessor_pairs: clone_pairs(&self.accessor_pairs),
            discovered_trait_impl_instances: duplicate_all(&self.discovered_trait_impl_instances),
        }
    }
}

/// The registry without any definition.
pub open spec fn empty_registry() -> RegistryView {
    RegistryView {
        structs: Seq::empty(),
        functions: Seq::empty(),
        imports: Seq::empty(),
        typeid_table: Seq::empty(),
        trait_impls: Seq::empty(),
        accessor_pairs: Seq::empty(),
        discovered_trait_impl_instances: Seq::empty(),
    }
}

impl Default for ToylangRegistry {
    fn default() -> (r: Self)
        ensures
            r@ == empty_registry(),
    {
        let r = ToylangRegistry {
            structs: NameMap::new(),
            functions: NameMap::new(),
            imports: Vec::new(),
            typeid_table: TypeIdTable::new(),
            trait_impls: Vec::new(),
            accessor_pairs: Vec::new(),
            discovered_trait_impl_instances: Vec::new(),
        };
        assert(r@.structs =~= empty_registry().structs);
        assert(r@.functions =~= empty_registry().functions);
        assert(r@.imports =~= empty_registry().imports);
        assert(r@.typeid_table =~= empty_registry().typeid_table);
        assert(r@.trait_impls =~= empty_registry().trait_impls);
        assert(r@.accessor_pairs =~= empty_registry().accessor_pairs);
        assert(r@.discovered_trait_impl_instances
            =~= empty_registry().discovered_trait_impl_instances);
        r
    }
}

/// Whether the ids of `entries` strictly increase.
pub open spec fn ids_increase(entries: Seq<TypeIdEntryView>) -> bool {
    forall|i: int, j: int|
        0 <= i < j < entries.len() ==> (#[trigger] entries[i]).id < (#[trigger] entries[j]).id
}

/// `entries` with `entry` at its place in the order, in the stead of what
/// stood under its id.
pub open spec fn put_id(entries: Seq<TypeIdEntryView>, entry: TypeIdEntryView) -> Seq<
    TypeIdEntryView,
>
    decreases entries.len(),
{
    if entries.len() == 0 {
        seq![entry]
    } else if entries[0].id == entry.id {
        seq![entry] + entries.drop_first()
    } else if entry.id < entries[0].id {
        seq![entry] + entries
    } else {
        seq![entries[0]] + put_id(entries.drop_first(), entry)
    }
}

proof fn lemma_put_id_new(entries: Seq<TypeIdEntryView>, entry: TypeIdEntryView, at: int)
    requires
        0 <= at <= entries.len(),
        forall|i: int| 0 <= i < at ==> (#[trigger] entries[i]).id < entry.id,
        at < entries.len() ==> entry.id < entries[at].id,
    ensures
        put_id(entries, entry) == entries.insert(at, entry),
    decreases at,
{
    if at > 0 {
        assert(entries[0].id < entry.id);
        lemma_put_id_new(entries.drop_first(), entry, at - 1);
    }
    assert(put_id(entries, entry) =~= entries.insert(at, entry));
}

proof fn lemma_put_id_old(entries: Seq<TypeIdEntryView>, entry: TypeIdEntryView, at: int)
    requires
        0 <= at < entries.len(),
        entries[at].id == entry.id,
        forall|i: int| 0 <= i < at ==> (#[trigger] entries[i]).id < entry.id,
    ensures
        put_id(entries, entry) == entries.update(at, entry),
    decreases at,
{
    if at > 0 {
        assert(entries[0].id < entry.id);
        lemma_put_id_old(entries.drop_first(), entry, at - 1);
    }
    assert(put_id(entries, entry) =~= entries.update(at, entry));
}

/// An id that all others precede goes to the end.
pub proof fn lemma_put_id_last(entries: Seq<TypeIdEntryView>, entry: TypeIdEntryView)
    requires
        forall|i: int| 0 <= i < entries.len() ==> (#[trigger] entries[i]).id < entry.id,
    ensures
        put_id(entries, entry) == entries.push(entry),
{
    lemma_put_id_new(entries, entry, entries.len() as int);
    assert(entries.insert(entries.len() as int, entry) =~= entries.push(entry));
}

/// A table from type ids to the struct and type arguments that they stand
/// for, in the order of the ids, each id once.
#[derive(Debug, PartialEq)]
pub struct TypeIdTable {
    items: Vec<TypeIdEntry>,
}

impl TypeIdTable {
    #[verifier::type_invariant]
    spec fn sorted(&self) -> bool {
        ids_increase(views(self.items@))
    }

    /// The entries by their views, in the order of their ids.
    pub closed spec fn entries(&self) -> Seq<TypeIdEntryView> {
        views(self.items@)
    }
}

impl View for TypeIdTable {
    type V = Seq<TypeIdEntryView>;

    open spec fn view(&self) -> Seq<TypeIdEntryView> {
        self.entries()
    }
}

impl TypeIdTable {
    /// The empty table.
    pub fn new() -> (t: Self)
        ensures
            t@.len() == 0,
    {
        TypeIdTable { items: Vec::new() }
    }

    /// How many ids the table holds.
    pub fn len(&self) -> (n: usize)
        ensures
            n == self@.len(),
            ids_increase(self@),
    {
        proof {
            use_type_invariant(self);
        }
        self.items.len()
    }

    /// Whether the table holds no id.
    pub fn is_empty(&self) -> (r: bool)
        ensures
            r == (self@.len() == 0),
    {
        self.items.len() == 0
    }

    /// The entry at position `i` of the order.
    pub fn entry_at(&self, i: usize) -> (e: &TypeIdEntry)
        requires
            i < self@.len(),
        ensures
            e@ == self@[i as int],
    {
        &self.items[i]
    }

    /// Puts an entry under its id, in the stead of what stood there.
    pub fn insert(&mut self, entry: TypeIdEntry)
        ensures
            final(self)@ == put_id(old(self)@, entry@),
    {
        proof {
            use_type_invariant(&*self);
        }
        let ghost before = self@;
        let ghost entry_view = entry@;
        let mut items: Vec<TypeIdEntry> = Vec::new();
        core::mem::swap(&mut items, &mut self.items);
        let mut i: usize = 0;
        while i < items.len() && items[i].id < entry.id
            invariant
                i <= items@.len() == before.len(),
                before == views(items@),
                forall|j: int| 0 <= j < i ==> (#[trigger] before[j]).id < entry.id,
            decreases items@.len() - i,
        {
            assert(before[i as int].id == items@[i as int].id);
            i += 1;
        }
        if i < items.len() && items[i].id == entry.id {
            proof {
                assert(before[i as int].id == items@[i as int].id);
                lemma_put_id_old(before, entry_view, i as int);
            }
            items.set(i, entry);
            assert(views(items@) =~= before.update(i as int, entry_view));
        } else {
            proof {
                if i < before.len() {
                    assert(before[i as int].id == items@[i as int].id);
                }
                lemma_put_id_new(before, entry_view, i as int);
            }
            items.insert(i, entry);
            assert(views(items@) =~= before.insert(i as int, entry_view));
        }
        let ghost done = views(items@);
        assert forall|a: int, b: int| 0 <= a < b < done.len() implies (#[trigger] done[a]).id < (
        #[trigger] done[b]).id by {
            if done.len() == before.len() {
                assert(done =~= before.update(i as int, entry_view));
            } else {
                assert(done =~= before.insert(i as int, entry_view));
            }
        }
        *self = TypeIdTable { items };
    }
}

impl Duplicate for TypeIdTable {
    fn duplicate(&self) -> (r: Self) {
        proof {
            use_type_invariant(self);
        }
        TypeIdTable { items: duplicate_all(&self.items) }
    }
}

impl Clone for TypeIdTable {
    fn clone(&self) -> (r: Self)
        ensures
            r@ == self@,
    {
        self.duplicate()
    }
}

impl ToyFunction {
    /// Whether the function still has type parameters to be filled in.
    pub fn has_abstract_args(&self) -> (r: bool)
        ensures
            r == (self@.type_params.len() > 0),
    {
        self.type_params.len() > 0
    }
}

/// The type of the field `name`, of the first one where several have it.
pub open spec fn field_type(fields: Seq<ToyFieldView>, name: Seq<char>) -> Option<SourceTypeView>
    decreases fields.len(),
{
    if fields.len() == 0 {
        None
    } else if fields[0].name == name {
        Some(fields[0].rust_type)
    } else {
        field_type(fields.drop_first(), name)
    }
}

/// The types that stand for some type parameters.
pub open spec fn param_types(names: Seq<Seq<char>>) -> Seq<SourceTypeView> {
    Seq::new(names.len(), |i: int| SourceTypeView::TypeParam(names[i]))
}

/// The fields of a struct, each with the name of the struct.
pub open spec fn field_pairs(name: Seq<char>, fields: Seq<ToyFieldView>) -> Seq<(Seq<char>, Seq<char>)> {
    Seq::new(fields.len(), |i: int| (name, fields[i].name))
}

/// The fields of some structs, each with the name of its struct.
pub open spec fn struct_pairs(structs: Seq<(Seq<char>, ToyStructView)>) -> Seq<(Seq<char>, Seq<char>)>
    decreases structs.len(),
{
    if structs.len() == 0 {
        Seq::empty()
    } else {
        struct_pairs(structs.drop_last()) + field_pairs(structs.last().0, structs.last().1.fields)
    }
}

/// The structs and fields that have an accessor: all of them.
pub fn synthesize_accessor_pairs(structs: &NameMap<ToyStruct>) -> (r: Vec<(String, String)>)
    ensures
        pair_views(r@) == struct_pairs(structs@),
{
    let ghost all = structs@;
    let n: usize = structs.len();
    let mut out: Vec<(String, String)> = Vec::new();
    let mut i: usize = 0;
    assert(all.take(0) =~= Seq::empty());
    assert(pair_views(out@) =~= Seq::empty());
    while i < n
        invariant
            i <= n,
            n == all.len(),
            all == structs@,
            pair_views(out@) == struct_pairs(all.take(i as int)),
        decreases n - i,
    {
        assert(all.take(i + 1).drop_last() =~= all.take(i as int));
        assert(all.take(i + 1).last() == all[i as int]);
        let name = structs.key_at(i);
        let toy_struct = structs.value_at(i);
        let ghost before = struct_pairs(all.take(i as int));
        let ghost pairs = field_pairs(name@, toy_struct@.fields);
        let mut j: usize = 0;
        assert(pair_views(out@) =~= before + pairs.take(0));
        while j < toy_struct.fields.len()
            invariant
                j <= toy_struct.fields@.len(),
                pairs == field_pairs(name@, toy_struct@.fields),
                pair_views(out@) == before + pairs.take(j as int),
            decreases toy_struct.fields@.len() - j,
        {
            let ghost so_far = pair_views(out@);
            out.push((name.clone(), toy_struct.fields[j].name.clone()));
            assert(toy_struct@.fields[j as int] == toy_struct.fields@[j as int]@);
            assert(pair_views(out@) =~= so_far.push(pairs[j as int]));
            assert(pairs.take(j + 1) =~= pairs.take(j as int).push(pairs[j as int]));
            assert(pair_views(out@) =~= before + pairs.take(j + 1));
            j += 1;
        }
        assert(pairs.take(j as int) =~= pairs);
        i += 1;
    }
    assert(all.take(n as int) =~= all);
    out
}

/// The accessor of a field: a function that takes a struct by reference and
/// returns a reference to the field.
pub open spec fn accessor_fn(
    struct_name: Seq<char>,
    toy_struct: ToyStructView,
    field: ToyFieldView,
) -> ToyFunctionView {
    ToyFunctionView {
        type_params: toy_struct.type_params,
        params: seq![
            ToyParamView {
                name: "self"@,
                ty: SourceTypeView::Ref {
                    inner: Box::new(
                        SourceTypeView::StructRef {
                            name: struct_name,
                            type_args: param_types(toy_struct.type_params),
                        },
                    ),
                },
            },
        ],
        return_ty: Some(SourceTypeView::Ref { inner: Box::new(field.rust_type) }),
        body: Some(
            BlockView {
                stmts: Seq::empty(),
                ret: Some(
                    ExprView::Ref(
                        Box::new(
                            ExprView::FieldAccess {
                                receiver: Box::new(ExprView::Var("self"@)),
                                field: field.name,
                            },
                        ),
                    ),
                ),
            },
        ),
        is_export: true,
    }
}

/// The accessor of a field: a function that takes a struct by reference and
/// returns a reference to the field.
pub fn synthesize_accessor_fn(
    struct_name: &str,
    toy_struct: &ToyStruct,
    field: &ToyField,
) -> (r: ToyFunction)
    ensures
        r@ == accessor_fn(struct_name@, toy_struct@, field@),
{
    let mut type_args: Vec<SourceType> = Vec::new();
    let mut i: usize = 0;
    while i < toy_struct.type_params.len()
        invariant
            i == type_args@.len(),
            i <= toy_struct.type_params@.len(),
            forall|j: int|
                0 <= j < i ==> (#[trigger] type_args@[j]).model() == SourceTypeView::TypeParam(
                    toy_struct.type_params@[j]@,
                ),
        decreases toy_struct.type_params@.len() - i,
    {
        type_args.push(SourceType::TypeParam(toy_struct.type_params[i].clone()));
        i += 1;
    }
    assert(source_views(type_args@) =~= param_types(toy_struct@.type_params));
    proof {
        reveal_with_fuel(SourceType::model, 3);
        reveal_with_fuel(Expr::model, 4);
        reveal_with_fuel(Block::model, 5);
    }
    let self_ty = SourceType::Ref {
        inner: Box::new(
            SourceType::StructRef { name: crate::text::owned(struct_name), type_args },
        ),
    };
    let mut params: Vec<ToyParam> = Vec::new();
    params.push(ToyParam { name: crate::text::owned("self"), ty: self_ty });
    let body = Block {
        stmts: Vec::new(),
        ret: Some(
            Expr::Ref(
                Box::new(
                    Expr::FieldAccess {
                        receiver: Box::new(Expr::Var(crate::text::owned("self"))),
                        field: field.name.clone(),
                    },
                ),
            ),
        ),
    };
    assert(body@.stmts =~= Seq::empty());
    assert(body@.ret == Some(
        ExprView::Ref(
            Box::new(
                ExprView::FieldAccess { receiver: Box::new(ExprView::Var("self"@)), field: field.name@ },
            ),
        ),
    ));
    let r = ToyFunction {
        type_params: duplicate_all(&toy_struct.type_params),
        params,
        return_ty: Some(SourceType::Ref { inner: Box::new(field.rust_type.duplicate()) }),
        body: Some(body),
        is_export: true,
    };
    assert(r@.params =~= accessor_fn(struct_name@, toy_struct@, field@).params);
    r
}

/// What stands under an id.
pub open spec fn find_id(entries: Seq<TypeIdEntryView>, id: u64) -> Option<TypeIdEntryView>
    decreases entries.len(),
{
    if entries.len() == 0 {
        None
    } else if entries[0].id == id {
        Some(entries[0])
    } else {
        find_id(entries.drop_first(), id)
    }
}

/// The entry of a struct itself, apart from what it is applied to.
pub open spec fn struct_entry(name: Seq<char>) -> TypeIdEntryView {
    TypeIdEntryView { id: type_id(name, Seq::empty()), name, type_args: Seq::empty() }
}

/// A table with the entries of some structs put in, one after the other.
pub open spec fn with_struct_ids(
    table: Seq<TypeIdEntryView>,
    structs: Seq<(Seq<char>, ToyStructView)>,
) -> Seq<TypeIdEntryView>
    decreases structs.len(),
{
    if structs.len() == 0 {
        table
    } else {
        put_id(with_struct_ids(table, structs.drop_last()), struct_entry(structs.last().0))
    }
}

impl ToylangRegistry {
    /// Enters every struct of the registry into the table of type ids.
    pub fn populate_typeid_table(&mut self)
        ensures
            final(self)@ == (RegistryView {
                typeid_table: with_struct_ids(old(self)@.typeid_table, old(self)@.structs),
                ..old(self)@
            }),
    {
        let ghost all = self.structs@;
        let ghost before = self.typeid_table@;
        let ghost start = self@;
        let n = self.structs.len();
        let mut i: usize = 0;
        assert(all.take(0) =~= Seq::empty());
        while i < n
            invariant
                i <= n,
                n == all.len(),
                all == self.structs@,
                self.typeid_table@ == with_struct_ids(before, all.take(i as int)),
                self@ == (RegistryView { typeid_table: self.typeid_table@, ..start }),
            decreases n - i,
        {
            let name = self.structs.key_at(i).clone();
            let none: Vec<SourceType> = Vec::new();
            assert(source_views(none@) =~= Seq::empty());
            let id = crate::typeid::compute(&name, &none);
            proof {
                assert(all.take(i + 1).drop_last() =~= all.take(i as int));
                assert(all.take(i + 1).last() == all[i as int]);
            }
            self.typeid_table.insert(TypeIdEntry { id, name, type_args: none });
            i += 1;
        }
        assert(all.take(n as int) =~= all);
    }
}

/// After an entry is put in, its id gives it and every other id gives what it
/// gave before.
pub proof fn lemma_find_put_id(entries: Seq<TypeIdEntryView>, entry: TypeIdEntryView, id: u64)
    ensures
        find_id(put_id(entries, entry), id) == (if id == entry.id {
            Some(entry)
        } else {
            find_id(entries, id)
        }),
    decreases entries.len(),
{
    let out = put_id(entries, entry);
    if entries.len() == 0 {
        assert(out.drop_first() =~= Seq::empty());
        assert(find_id(out.drop_first(), id) is None);
    } else if entries[0].id == entry.id {
        assert(out.drop_first() =~= entries.drop_first());
    } else if entry.id < entries[0].id {
        assert(out.drop_first() =~= entries);
    } else {
        assert(out.drop_first() =~= put_id(entries.drop_first(), entry));
        lemma_find_put_id(entries.drop_first(), entry, id);
    }
}

/// Putting an entry in keeps the ids in order.
pub proof fn lemma_put_id_increases(entries: Seq<TypeIdEntryView>, entry: TypeIdEntryView)
    requires
        ids_increase(entries),
    ensures
        ids_increase(put_id(entries, entry)),
        forall|i: int|
            0 <= i < put_id(entries, entry).len() ==> (#[trigger] put_id(entries, entry)[i]).id
                == entry.id || exists|j: int|
                0 <= j < entries.len() && (#[trigger] entries[j]).id == put_id(entries, entry)[i].id,
    decreases entries.len(),
{
    let out = put_id(entries, entry);
    if entries.len() == 0 {
    } else if entries[0].id == entry.id {
        assert forall|i: int| 0 <= i < out.len() implies (#[trigger] out[i]).id == entry.id
            || exists|j: int| 0 <= j < entries.len() && (#[trigger] entries[j]).id == out[i].id by {
            if i > 0 {
                assert(entries[i] == out[i]);
            }
        }
        assert forall|i: int, j: int| 0 <= i < j < out.len() implies (#[trigger] out[i]).id < (
        #[trigger] out[j]).id by {
            assert(out[i].id == entries[i].id && out[j].id == entries[j].id);
        }
    } else if entry.id < entries[0].id {
        assert forall|i: int| 0 <= i < out.len() implies (#[trigger] out[i]).id == entry.id
            || exists|j: int| 0 <= j < entries.len() && (#[trigger] entries[j]).id == out[i].id by {
            if i > 0 {
                assert(entries[i - 1] == out[i]);
            }
        }
        assert forall|i: int, j: int| 0 <= i < j < out.len() implies (#[trigger] out[i]).id < (
        #[trigger] out[j]).id by {
            assert(out[j] == entries[j - 1]);
            if i > 0 {
                assert(out[i] == entries[i - 1]);
            } else if j > 1 {
                assert(entries[0].id < entries[j - 1].id);
            }
        }
    } else {
        let rest = entries.drop_first();
        assert forall|i: int, j: int| 0 <= i < j < rest.len() implies (#[trigger] rest[i]).id < (
        #[trigger] rest[j]).id by {
            assert(rest[i] == entries[i + 1] && rest[j] == entries[j + 1]);
        }
        lemma_put_id_increases(rest, entry);
        let tail = put_id(rest, entry);
        assert forall|i: int| 0 <= i < out.len() implies (#[trigger] out[i]).id == entry.id
            || exists|j: int| 0 <= j < entries.len() && (#[trigger] entries[j]).id == out[i].id by {
            if i == 0 {
                assert(entries[0] == out[0]);
            } else {
                assert(out[i] == tail[i - 1]);
                if tail[i - 1].id != entry.id {
                    let j = choose|j: int|
                        0 <= j < rest.len() && (#[trigger] rest[j]).id == tail[i - 1].id;
                    assert(entries[j + 1].id == out[i].id);
                }
            }
        }
        assert forall|i: int, j: int| 0 <= i < j < out.len() implies (#[trigger] out[i]).id < (
        #[trigger] out[j]).id by {
            assert(out[j] == tail[j - 1]);
            if i > 0 {
                assert(out[i] == tail[i - 1]);
            } else if tail[j - 1].id != entry.id {
                let k = choose|k: int|
                    0 <= k < rest.len() && (#[trigger] rest[k]).id == tail[j - 1].id;
                assert(entries[k + 1].id == tail[j - 1].id);
            }
        }
    }
}

proof fn lemma_find_id_below(entries: Seq<TypeIdEntryView>, id: u64)
    requires
        forall|i: int| 0 <= i < entries.len() ==> (#[trigger] entries[i]).id != id,
    ensures
        find_id(entries, id) is None,
    decreases entries.len(),
{
    if entries.len() > 0 {
        assert(entries[0].id != id);
        assert forall|i: int| 0 <= i < entries.drop_first().len() implies (
        #[trigger] entries.drop_first()[i]).id != id by {
            assert(entries.drop_first()[i] == entries[i + 1]);
        }
        lemma_find_id_below(entries.drop_first(), id);
    }
}

/// Tables that give the same under every id are the same.
proof fn lemma_tables_equal(a: Seq<TypeIdEntryView>, b: Seq<TypeIdEntryView>)
    requires
        ids_increase(a),
        ids_increase(b),
        forall|id: u64| #[trigger] find_id(a, id) == find_id(b, id),
    ensures
        a == b,
    decreases a.len(),
{
    if a.len() == 0 || b.len() == 0 {
        if a.len() > 0 {
            assert(find_id(a, a[0].id) == find_id(b, a[0].id));
        }
        if b.len() > 0 {
            assert(find_id(a, b[0].id) == find_id(b, b[0].id));
        }
        assert(a =~= b);
    } else {
        let x = a[0].id;
        let y = b[0].id;
        assert(find_id(a, x) == find_id(b, x));
        assert(find_id(a, y) == find_id(b, y));
        if x < y {
            assert forall|i: int| 0 <= i < b.len() implies (#[trigger] b[i]).id != x by {
                if i > 0 {
                    assert(b[0].id < b[i].id);
                }
            }
            lemma_find_id_below(b, x);
        }
        if y < x {
            assert forall|i: int| 0 <= i < a.len() implies (#[trigger] a[i]).id != y by {
                if i > 0 {
                    assert(a[0].id < a[i].id);
                }
            }
            lemma_find_id_below(a, y);
        }
        assert(a[0] == b[0]);
        let ra = a.drop_first();
        let rb = b.drop_first();
        assert forall|i: int, j: int| 0 <= i < j < ra.len() implies (#[trigger] ra[i]).id < (
        #[trigger] ra[j]).id by {
            assert(ra[i] == a[i + 1] && ra[j] == a[j + 1]);
        }
        assert forall|i: int, j: int| 0 <= i < j < rb.len() implies (#[trigger] rb[i]).id < (
        #[trigger] rb[j]).id by {
            assert(rb[i] == b[i + 1] && rb[j] == b[j + 1]);
        }
        assert forall|id: u64| #[trigger] find_id(ra, id) == find_id(rb, id) by {
            assert(find_id(a, id) == find_id(b, id));
            if id == x {
                assert forall|i: int| 0 <= i < ra.len() implies (#[trigger] ra[i]).id != x by {
                    assert(ra[i] == a[i + 1]);
                    assert(a[0].id < a[i + 1].id);
                }
                assert forall|i: int| 0 <= i < rb.len() implies (#[trigger] rb[i]).id != x by {
                    assert(rb[i] == b[i + 1]);
                    assert(b[0].id < b[i + 1].id);
                }
                lemma_find_id_below(ra, x);
                lemma_find_id_below(rb, x);
            }
        }
        lemma_tables_equal(ra, rb);
        assert(a =~= seq![a[0]] + ra);
        assert(b =~= seq![b[0]] + rb);
    }
}

/// The last of some structs whose id this is.
pub open spec fn last_with_id(structs: Seq<(Seq<char>, ToyStructView)>, id: u64) -> Option<
    TypeIdEntryView,
>
    decreases structs.len(),
{
    if structs.len() == 0 {
        None
    } else if struct_entry(structs.last().0).id == id {
        Some(struct_entry(structs.last().0))
    } else {
        last_with_id(structs.drop_last(), id)
    }
}

/// What a populated table gives: under the id of a struct that struct, under
/// every other id what it gave before.
pub proof fn lemma_populated_gives(
    table: Seq<TypeIdEntryView>,
    structs: Seq<(Seq<char>, ToyStructView)>,
    id: u64,
)
    requires
        ids_increase(table),
    ensures
        ids_increase(with_struct_ids(table, structs)),
        find_id(with_struct_ids(table, structs), id) == (match last_with_id(structs, id) {
            Some(e) => Some(e),
            None => find_id(table, id),
        }),
    decreases structs.len(),
{
    if structs.len() > 0 {
        let rest = structs.drop_last();
        lemma_populated_gives(table, rest, id);
        lemma_put_id_increases(with_struct_ids(table, rest), struct_entry(structs.last().0));
        lemma_find_put_id(with_struct_ids(table, rest), struct_entry(structs.last().0), id);
    }
}

/// Populating a table that is already populated changes nothing.
pub proof fn lemma_populate_idempotent(
    table: Seq<TypeIdEntryView>,
    structs: Seq<(Seq<char>, ToyStructView)>,
)
    requires
        ids_increase(table),
    ensures
        with_struct_ids(with_struct_ids(table, structs), structs) == with_struct_ids(
            table,
            structs,
        ),
{
    let once = with_struct_ids(table, structs);
    lemma_populated_gives(table, structs, 0);
    lemma_populated_gives(once, structs, 0);
    assert forall|id: u64| #[trigger]
        find_id(with_struct_ids(once, structs), id) == find_id(once, id) by {
        lemma_populated_gives(table, structs, id);
        lemma_populated_gives(once, structs, id);
    }
    lemma_tables_equal(with_struct_ids(once, structs), once);
}

} // verus!
