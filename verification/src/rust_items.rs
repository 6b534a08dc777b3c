//! The Rust side as the compiler shows it: the items of its crates, the types
//! of its functions, and how they answer what toylang asks.
//!
//! [`RustcWorld`] holds what has been read from the Rust compiler so far.
//! Where an answer needs more, the function stops and names it.
use crate::names::{bind_all, find};
use crate::oracle::{field_types_of, ContextView, UnresolvedRustType, UnresolvedView};
use crate::text::{has_prefix, same_text, views, Duplicate};
use crate::toylang::registry::ToyStructView;
use crate::toylang::typed_ast::SourceTypeView;
use vstd::prelude::*;

verus! {

broadcast use {vstd::seq::group_seq_axioms, vstd::std_specs::vec::group_vec_axioms};

/// A type of the Rust compiler, or another argument of a generic type.
#[derive(Debug, PartialEq)]
pub enum RustcTy {
    /// A signed integer type, by its name.
    Int(String),
    /// An unsigned integer type, by its name.
    Uint(String),
    Float(String),
    Bool,
    Tuple(Vec<RustcTy>),
    Ref(Box<RustcTy>),
    /// A struct or an enum.
    Adt { def: u64, name: String, from_stubs: bool, args: Vec<RustcTy> },
    Slice(Box<RustcTy>),
    Str,
    Never,
    RawPtr(Box<RustcTy>),
    Dynamic,
    Param(String),
    /// A lifetime.
    Region,
    /// A constant.
    ConstArg,
    /// A type of any other kind.
    Other,
}

/// What a [`RustcTy`] says.
pub enum RustcTyView {
    Int(Seq<char>),
    Uint(Seq<char>),
    Float(Seq<char>),
    Bool,
    Tuple(Seq<RustcTyView>),
    Ref(Box<RustcTyView>),
    Adt { def: u64, name: Seq<char>, from_stubs: bool, args: Seq<RustcTyView> },
    Slice(Box<RustcTyView>),
    Str,
    Never,
    RawPtr(Box<RustcTyView>),
    Dynamic,
    Param(Seq<char>),
    Region,
    ConstArg,
    Other,
}

impl RustcTy {
    /// The type without its representation.
    pub open spec fn model(&self) -> RustcTyView
        decreases self,
    {
        match self {
            RustcTy::Int(n) => RustcTyView::Int(n@),
            RustcTy::Uint(n) => RustcTyView::Uint(n@),
            RustcTy::Float(n) => RustcTyView::Float(n@),
            RustcTy::Bool => RustcTyView::Bool,
            RustcTy::Tuple(ts) => RustcTyView::Tuple(rustc_views(ts@)),
            RustcTy::Ref(t) => RustcTyView::Ref(Box::new(t.model())),
            RustcTy::Adt { def, name, from_stubs, args } => RustcTyView::Adt {
                def: *def,
                name: name@,
                from_stubs: *from_stubs,
                args: rustc_views(args@),
            },
            RustcTy::Slice(t) => RustcTyView::Slice(Box::new(t.model())),
            RustcTy::Str => RustcTyView::Str,
            RustcTy::Never => RustcTyView::Never,
            RustcTy::RawPtr(t) => RustcTyView::RawPtr(Box::new(t.model())),
            RustcTy::Dynamic => RustcTyView::Dynamic,
            RustcTy::Param(n) => RustcTyView::Param(n@),
            RustcTy::Region => RustcTyView::Region,
            RustcTy::ConstArg => RustcTyView::ConstArg,
            RustcTy::Other => RustcTyView::Other,
        }
    }
}

/// The models of the types.
pub open spec fn rustc_views(s: Seq<RustcTy>) -> Seq<RustcTyView>
    decreases s,
{
    Seq::new(
        s.len(),
        |i: int|
            if 0 <= i < s.len() {
                s[i].model()
            } else {
                arbitrary()
            },
    )
}

impl View for RustcTy {
    type V = RustcTyView;

    open spec fn view(&self) -> RustcTyView {
        self.model()
    }
}

/// A copy of a type.
pub fn clone_rustc_ty(t: &RustcTy) -> (r: RustcTy)
    ensures
        r@ == t@,
    decreases t,
{
    match t {
        RustcTy::Int(n) => RustcTy::Int(n.clone()),
        RustcTy::Uint(n) => RustcTy::Uint(n.clone()),
        RustcTy::Float(n) => RustcTy::Float(n.clone()),
        RustcTy::Bool => RustcTy::Bool,
        RustcTy::Tuple(ts) => RustcTy::Tuple(clone_rustc_tys(ts)),
        RustcTy::Ref(t) => RustcTy::Ref(Box::new(clone_rustc_ty(t))),
        RustcTy::Adt { def, name, from_stubs, args } => RustcTy::Adt {
            def: *def,
            name: name.clone(),
            from_stubs: *from_stubs,
            args: clone_rustc_tys(args),
        },
        RustcTy::Slice(t) => RustcTy::Slice(Box::new(clone_rustc_ty(t))),
        RustcTy::Str => RustcTy::Str,
        RustcTy::Never => RustcTy::Never,
        RustcTy::RawPtr(t) => RustcTy::RawPtr(Box::new(clone_rustc_ty(t))),
        RustcTy::Dynamic => RustcTy::Dynamic,
        RustcTy::Param(n) => RustcTy::Param(n.clone()),
        RustcTy::Region => RustcTy::Region,
        RustcTy::ConstArg => RustcTy::ConstArg,
        RustcTy::Other => RustcTy::Other,
    }
}

impl Duplicate for RustcTy {
    fn duplicate(&self) -> (r: Self) {
        clone_rustc_ty(self)
    }
}

/// Copies of some types.
pub fn clone_rustc_tys(v: &Vec<RustcTy>) -> (r: Vec<RustcTy>)
    ensures
        rustc_views(r@) == rustc_views(v@),
    decreases v,
{
    let mut r: Vec<RustcTy> = Vec::new();
    let mut i: usize = 0;
    while i < v.len()
        invariant
            i == r@.len(),
            i <= v@.len(),
            forall|j: int| 0 <= j < i ==> (#[trigger] r@[j]).model() == v@[j].model(),
        decreases v@.len() - i,
    {
        r.push(clone_rustc_ty(&v[i]));
        i += 1;
    }
    assert(rustc_views(r@) =~= rustc_views(v@));
    r
}

/// Whether two types are the same.
pub fn same_rustc_ty(a: &RustcTy, b: &RustcTy) -> (r: bool)
    ensures
        r == (a@ == b@),
    decreases a,
{
    match (a, b) {
        (RustcTy::Int(x), RustcTy::Int(y)) => same_text(x, y),
        (RustcTy::Uint(x), RustcTy::Uint(y)) => same_text(x, y),
        (RustcTy::Float(x), RustcTy::Float(y)) => same_text(x, y),
        (RustcTy::Bool, RustcTy::Bool) => true,
        (RustcTy::Tuple(x), RustcTy::Tuple(y)) => same_rustc_tys(x, y),
        (RustcTy::Ref(x), RustcTy::Ref(y)) => same_rustc_ty(x, y),
        (
            RustcTy::Adt { def: d, name: n, from_stubs: f, args: x },
            RustcTy::Adt { def: e, name: m, from_stubs: g, args: y },
        ) => *d == *e && *f == *g && same_text(n, m) && same_rustc_tys(x, y),
        (RustcTy::Slice(x), RustcTy::Slice(y)) => same_rustc_ty(x, y),
        (RustcTy::Str, RustcTy::Str) => true,
        (RustcTy::Never, RustcTy::Never) => true,
        (RustcTy::RawPtr(x), RustcTy::RawPtr(y)) => same_rustc_ty(x, y),
        (RustcTy::Dynamic, RustcTy::Dynamic) => true,
        (RustcTy::Param(x), RustcTy::Param(y)) => same_text(x, y),
        (RustcTy::Region, RustcTy::Region) => true,
        (RustcTy::ConstArg, RustcTy::ConstArg) => true,
        (RustcTy::Other, RustcTy::Other) => true,
        _ => false,
    }
}

/// Whether two lists of types are the same.
pub fn same_rustc_tys(a: &Vec<RustcTy>, b: &Vec<RustcTy>) -> (r: bool)
    ensures
        r == (rustc_views(a@) == rustc_views(b@)),
    decreases a,
{
    if a.len() != b.len() {
        assert(rustc_views(a@).len() != rustc_views(b@).len());
        return false;
    }
    let mut i: usize = 0;
    while i < a.len()
        invariant
            i <= a@.len(),
            a@.len() == b@.len(),
            forall|j: int| 0 <= j < i ==> (#[trigger] a@[j]).model() == b@[j].model(),
        decreases a@.len() - i,
    {
        if !same_rustc_ty(&a[i], &b[i]) {
            assert(rustc_views(a@)[i as int] != rustc_views(b@)[i as int]);
            return false;
        }
        i += 1;
    }
    assert(rustc_views(a@) =~= rustc_views(b@));
    true
}

/// What kind of item a name stands for.
#[derive(Clone, Copy, Debug, PartialEq, Eq, Structural)]
pub enum ItemKind {
    Struct,
    Enum,
    Trait,
    Fn,
    ForeignMod,
    Other,
}

/// What kind of item is looked for.
#[derive(Clone, Copy, Debug, PartialEq, Eq, Structural)]
pub enum Wanted {
    Type,
    Trait,
    Fn,
}

/// Whether an item is of the kind that is looked for.
pub open spec fn is_wanted(kind: ItemKind, wanted: Wanted) -> bool {
    match wanted {
        Wanted::Type => kind == ItemKind::Struct || kind == ItemKind::Enum,
        Wanted::Trait => kind == ItemKind::Trait,
        Wanted::Fn => kind == ItemKind::Fn,
    }
}

/// An item.
#[derive(Debug, PartialEq)]
pub struct Item {
    /// The name that it has where it is defined.
    pub item_name: String,
    pub kind: ItemKind,
    pub def: u64,
    /// Whether it is defined in a stub crate.
    pub in_stubs: bool,
    /// Whether it is declared in a foreign block.
    pub foreign: bool,
}

/// What an [`Item`] says.
pub struct ItemView {
    pub item_name: Seq<char>,
    pub kind: ItemKind,
    pub def: u64,
    pub in_stubs: bool,
    pub foreign: bool,
}

impl View for Item {
    type V = ItemView;

    open spec fn view(&self) -> ItemView {
        ItemView {
            item_name: self.item_name@,
            kind: self.kind,
            def: self.def,
            in_stubs: self.in_stubs,
            foreign: self.foreign,
        }
    }
}

/// A name in a module, and what it stands for.
#[derive(Debug, PartialEq)]
pub struct ModuleChild {
    pub name: String,
    pub item: Item,
    /// What a foreign block holds: the names and the items.
    pub foreign_items: Vec<ForeignItem>,
}

/// A name in a foreign block, and what it stands for.
#[derive(Debug, PartialEq)]
pub struct ForeignItem {
    pub name: String,
    pub item: Item,
}

/// What a [`ForeignItem`] says.
pub struct ForeignItemView {
    pub name: Seq<char>,
    pub item: ItemView,
}

/// What a [`ModuleChild`] says.
pub struct ModuleChildView {
    pub name: Seq<char>,
    pub item: ItemView,
    pub foreign_items: Seq<ForeignItemView>,
}

impl View for ForeignItem {
    type V = ForeignItemView;

    open spec fn view(&self) -> ForeignItemView {
        ForeignItemView { name: self.name@, item: self.item@ }
    }
}

impl View for ModuleChild {
    type V = ModuleChildView;

    open spec fn view(&self) -> ModuleChildView {
        ModuleChildView {
            name: self.name@,
            item: self.item@,
            foreign_items: views(self.foreign_items@),
        }
    }
}

/// A module, or the root of a crate.
#[derive(Debug, PartialEq)]
pub struct Module {
    pub children: Vec<ModuleChild>,
}

impl View for Module {
    type V = Seq<ModuleChildView>;

    open spec fn view(&self) -> Seq<ModuleChildView> {
        views(self.children@)
    }
}

/// A method or another item of a type or a trait.
#[derive(Debug, PartialEq)]
pub struct AssocItem {
    pub name: String,
    pub def: u64,
}

/// What an [`AssocItem`] says.
pub struct AssocItemView {
    pub name: Seq<char>,
    pub def: u64,
}

impl View for AssocItem {
    type V = AssocItemView;

    open spec fn view(&self) -> AssocItemView {
        AssocItemView { name: self.name@, def: self.def }
    }
}

/// The items of the inherent impls of a type, or the items of a trait.
#[derive(Debug, PartialEq)]
pub struct AssocItems {
    pub owner: u64,
    pub items: Vec<AssocItem>,
}

/// What an [`AssocItems`] says.
pub struct AssocItemsView {
    pub owner: u64,
    pub items: Seq<AssocItemView>,
}

impl View for AssocItems {
    type V = AssocItemsView;

    open spec fn view(&self) -> AssocItemsView {
        AssocItemsView { owner: self.owner, items: views(self.items@) }
    }
}

/// A generic parameter.
#[derive(Clone, Copy, Debug, PartialEq, Eq, Structural)]
pub enum GenericParam {
    Lifetime,
    Type,
    Constant,
}

/// The generic parameters of an item, those of what it is in first.
#[derive(Debug, PartialEq)]
pub struct Generics {
    pub def: u64,
    pub params: Vec<GenericParam>,
}

/// What a [`Generics`] says.
pub struct GenericsView {
    pub def: u64,
    pub params: Seq<GenericParam>,
}

impl View for Generics {
    type V = GenericsView;

    open spec fn view(&self) -> GenericsView {
        GenericsView { def: self.def, params: self.params@ }
    }
}

/// The types of a function for some generic arguments.
#[derive(Debug, PartialEq)]
pub struct Signature {
    pub def: u64,
    pub args: Vec<RustcTy>,
    pub inputs: Vec<RustcTy>,
    pub output: RustcTy,
}

/// What a [`Signature`] says.
pub struct SignatureView {
    pub def: u64,
    pub args: Seq<RustcTyView>,
    pub inputs: Seq<RustcTyView>,
    pub output: RustcTyView,
}

impl View for Signature {
    type V = SignatureView;

    open spec fn view(&self) -> SignatureView {
        SignatureView {
            def: self.def,
            args: rustc_views(self.args@),
            inputs: rustc_views(self.inputs@),
            output: self.output@,
        }
    }
}

/// What has been read from the Rust compiler.
#[derive(Debug, PartialEq)]
pub struct RustcWorld {
    /// The modules of the crate that is compiled, its root last.
    pub local_modules: Vec<Module>,
    /// The functions that are defined or declared in that crate.
    pub local_fns: Vec<Item>,
    /// The roots of the stub crates that it depends on.
    pub stub_crates: Vec<Module>,
    pub assoc: Vec<AssocItems>,
    pub generics: Vec<Generics>,
    pub signatures: Vec<Signature>,
}

/// What a [`RustcWorld`] says.
pub struct WorldView {
    pub local_modules: Seq<Seq<ModuleChildView>>,
    pub local_fns: Seq<ItemView>,
    pub stub_crates: Seq<Seq<ModuleChildView>>,
    pub assoc: Seq<AssocItemsView>,
    pub generics: Seq<GenericsView>,
    pub signatures: Seq<SignatureView>,
}

impl View for RustcWorld {
    type V = WorldView;

    open spec fn view(&self) -> WorldView {
        WorldView {
            local_modules: views(self.local_modules@),
            local_fns: views(self.local_fns@),
            stub_crates: views(self.stub_crates@),
            assoc: views(self.assoc@),
            generics: views(self.generics@),
            signatures: views(self.signatures@),
        }
    }
}

/// Why an answer cannot be given, or not yet.
#[derive(Debug, PartialEq)]
pub enum OracleStop {
    /// The items of a type or a trait have to be read.
    NeedItems { owner: u64 },
    /// The generic parameters of an item have to be read.
    NeedGenerics { def: u64 },
    /// The types of a function have to be read.
    NeedSignature { def: u64, args: Vec<RustcTy> },
    /// A type is not imported.
    Unresolved(UnresolvedRustType),
    /// A type has no such method.
    NoMethod { owner: String, method: String },
    /// Rust does not see a struct.
    NoStruct { name: String },
    /// The generic arguments do not fit the parameters.
    GenericArgs { def: u64 },
    /// A type has no counterpart in toylang.
    Unsupported,
    /// A question about a trait names no receiver.
    NoReceiver,
}

/// What an [`OracleStop`] says.
pub enum OracleStopView {
    NeedItems { owner: u64 },
    NeedGenerics { def: u64 },
    NeedSignature { def: u64, args: Seq<RustcTyView> },
    Unresolved(UnresolvedView),
    NoMethod { owner: Seq<char>, method: Seq<char> },
    NoStruct { name: Seq<char> },
    GenericArgs { def: u64 },
    Unsupported,
    NoReceiver,
}

impl View for OracleStop {
    type V = OracleStopView;

    open spec fn view(&self) -> OracleStopView {
        match self {
            OracleStop::NeedItems { owner } => OracleStopView::NeedItems { owner: *owner },
            OracleStop::NeedGenerics { def } => OracleStopView::NeedGenerics { def: *def },
            OracleStop::NeedSignature { def, args } => OracleStopView::NeedSignature {
                def: *def,
                args: rustc_views(args@),
            },
            OracleStop::Unresolved(u) => OracleStopView::Unresolved(u@),
            OracleStop::NoMethod { owner, method } => OracleStopView::NoMethod {
                owner: owner@,
                method: method@,
            },
            OracleStop::NoStruct { name } => OracleStopView::NoStruct { name: name@ },
            OracleStop::GenericArgs { def } => OracleStopView::GenericArgs { def: *def },
            OracleStop::Unsupported => OracleStopView::Unsupported,
            OracleStop::NoReceiver => OracleStopView::NoReceiver,
        }
    }
}

/// The first item of a module that has the name and is of the kind that is
/// looked for.
pub open spec fn child_named(
    children: Seq<ModuleChildView>,
    name: Seq<char>,
    wanted: Wanted,
) -> Option<ItemView>
    decreases children.len(),
{
    if children.len() == 0 {
        None
    } else if children[0].name == name && is_wanted(children[0].item.kind, wanted) {
        Some(children[0].item)
    } else {
        child_named(children.drop_first(), name, wanted)
    }
}

/// The same over several modules, one after the other.
pub open spec fn child_in(
    modules: Seq<Seq<ModuleChildView>>,
    name: Seq<char>,
    wanted: Wanted,
) -> Option<ItemView>
    decreases modules.len(),
{
    if modules.len() == 0 {
        None
    } else {
        match child_named(modules[0], name, wanted) {
            Some(item) => Some(item),
            None => child_in(modules.drop_first(), name, wanted),
        }
    }
}

/// The item of a name: first in the modules of the crate itself, then in the
/// stub crates. A name that is handed on stands for the item that it had.
pub open spec fn resolve_path(w: WorldView, name: Seq<char>, wanted: Wanted) -> Option<ItemView> {
    match child_in(w.local_modules, name, wanted) {
        Some(item) => Some(item),
        None => child_in(w.stub_crates, name, wanted),
    }
}

/// The first function of the crate itself that has the name and is, or is
/// not, in the stubs.
pub open spec fn local_fn(fns: Seq<ItemView>, name: Seq<char>, in_stubs: bool) -> Option<u64>
    decreases fns.len(),
{
    if fns.len() == 0 {
        None
    } else if fns[0].kind == ItemKind::Fn && fns[0].item_name == name && fns[0].in_stubs
        == in_stubs {
        Some(fns[0].def)
    } else {
        local_fn(fns.drop_first(), name, in_stubs)
    }
}

/// The last function of the stubs in the crate itself that has the name and is
/// declared in a foreign block.
pub open spec fn local_foreign(fns: Seq<ItemView>, name: Seq<char>) -> Option<u64>
    decreases fns.len(),
{
    if fns.len() == 0 {
        None
    } else if fns.last().kind == ItemKind::Fn && fns.last().item_name == name && fns.last().in_stubs
        && fns.last().foreign {
        Some(fns.last().def)
    } else {
        local_foreign(fns.drop_last(), name)
    }
}

/// The first function of a foreign block that has the name.
pub open spec fn foreign_named(items: Seq<ForeignItemView>, name: Seq<char>) -> Option<u64>
    decreases items.len(),
{
    if items.len() == 0 {
        None
    } else if items[0].name == name && items[0].item.kind == ItemKind::Fn && items[0].item.foreign {
        Some(items[0].item.def)
    } else {
        foreign_named(items.drop_first(), name)
    }
}

/// The first function of that name at the root of a stub crate or in one of
/// its foreign blocks.
pub open spec fn declared_named(children: Seq<ModuleChildView>, name: Seq<char>) -> Option<u64>
    decreases children.len(),
{
    if children.len() == 0 {
        None
    } else {
        let c = children[0];
        let rest = declared_named(children.drop_first(), name);
        if c.item.kind == ItemKind::ForeignMod {
            match foreign_named(c.foreign_items, name) {
                Some(def) => Some(def),
                None => rest,
            }
        } else if c.item.kind == ItemKind::Fn && c.name == name {
            Some(c.item.def)
        } else {
            rest
        }
    }
}

/// The same over several stub crates.
pub open spec fn declared_in(crates: Seq<Seq<ModuleChildView>>, name: Seq<char>) -> Option<u64>
    decreases crates.len(),
{
    if crates.len() == 0 {
        None
    } else {
        match declared_named(crates[0], name) {
            Some(def) => Some(def),
            None => declared_in(crates.drop_first(), name),
        }
    }
}

/// The function that a declaration without a body stands for: one of the crate
/// itself, a declaration of the crate itself, or one in a stub crate.
pub open spec fn extern_fn(w: WorldView, name: Seq<char>) -> Option<u64> {
    match local_fn(w.local_fns, name, false) {
        Some(def) => Some(def),
        None => match local_foreign(w.local_fns, name) {
            Some(def) => Some(def),
            None => declared_in(w.stub_crates, name),
        },
    }
}

/// The first function of a module that has the name and a body.
pub open spec fn bodied_named(children: Seq<ModuleChildView>, name: Seq<char>) -> Option<u64>
    decreases children.len(),
{
    if children.len() == 0 {
        None
    } else if children[0].name == name && children[0].item.kind == ItemKind::Fn
        && !children[0].item.foreign {
        Some(children[0].item.def)
    } else {
        bodied_named(children.drop_first(), name)
    }
}

/// The function of that name with a body at the root of a stub crate.
pub open spec fn stub_fn(crates: Seq<Seq<ModuleChildView>>, name: Seq<char>) -> Option<u64>
    decreases crates.len(),
{
    if crates.len() == 0 {
        None
    } else {
        match bodied_named(crates[0], name) {
            Some(def) => Some(def),
            None => stub_fn(crates.drop_first(), name),
        }
    }
}

/// The function of the stubs that stands for a method.
pub open spec fn wrapper_fn(w: WorldView, name: Seq<char>) -> Option<u64> {
    match local_fn(w.local_fns, name, true) {
        Some(def) => Some(def),
        None => match child_in(w.stub_crates, name, Wanted::Fn) {
            Some(item) => Some(item.def),
            None => None,
        },
    }
}

/// What has been read of the items of a type or a trait.
pub open spec fn find_items(table: Seq<AssocItemsView>, owner: u64) -> Option<Seq<AssocItemView>>
    decreases table.len(),
{
    if table.len() == 0 {
        None
    } else if table[0].owner == owner {
        Some(table[0].items)
    } else {
        find_items(table.drop_first(), owner)
    }
}

/// The first item of that name.
pub open spec fn item_named(items: Seq<AssocItemView>, name: Seq<char>) -> Option<u64>
    decreases items.len(),
{
    if items.len() == 0 {
        None
    } else if items[0].name == name {
        Some(items[0].def)
    } else {
        item_named(items.drop_first(), name)
    }
}

/// The item of that name of a type or a trait, as far as they have been read.
pub open spec fn ask_item(w: WorldView, owner: u64, name: Seq<char>) -> Result<
    Option<u64>,
    OracleStopView,
> {
    match find_items(w.assoc, owner) {
        None => Err(OracleStopView::NeedItems { owner }),
        Some(items) => Ok(item_named(items, name)),
    }
}

/// What has been read of the generic parameters of an item.
pub open spec fn find_generics(table: Seq<GenericsView>, def: u64) -> Option<Seq<GenericParam>>
    decreases table.len(),
{
    if table.len() == 0 {
        None
    } else if table[0].def == def {
        Some(table[0].params)
    } else {
        find_generics(table.drop_first(), def)
    }
}

/// What has been read of the types of a function.
pub open spec fn find_signature(
    table: Seq<SignatureView>,
    def: u64,
    args: Seq<RustcTyView>,
) -> Option<SignatureView>
    decreases table.len(),
{
    if table.len() == 0 {
        None
    } else if table[0].def == def && table[0].args == args {
        Some(table[0])
    } else {
        find_signature(table.drop_first(), def, args)
    }
}

/// The generic arguments of an item: types for its type parameters, in order,
/// and nothing in particular for its lifetimes. Types that are left over are
/// not used. Nothing, where types are wanting, or a parameter is a constant.
pub open spec fn generic_args(params: Seq<GenericParam>, types: Seq<RustcTyView>) -> Option<
    Seq<RustcTyView>,
>
    decreases params.len(),
{
    if params.len() == 0 {
        Some(Seq::empty())
    } else {
        match params[0] {
            GenericParam::Lifetime => match generic_args(params.drop_first(), types) {
                Some(rest) => Some(seq![RustcTyView::Region] + rest),
                None => None,
            },
            GenericParam::Type => if types.len() == 0 {
                None
            } else {
                match generic_args(params.drop_first(), types.drop_first()) {
                    Some(rest) => Some(seq![types[0]] + rest),
                    None => None,
                }
            },
            GenericParam::Constant => None,
        }
    }
}

/// The type in toylang that a type of the Rust compiler stands for. What
/// toylang has no name of its own for, but may carry along, is a Rust type.
pub open spec fn to_source(t: RustcTyView) -> Option<SourceTypeView>
    decreases t,
{
    match t {
        RustcTyView::Int(name) => Some(
            if name == "i32"@ {
                SourceTypeView::I32
            } else if name == "i64"@ {
                SourceTypeView::I64
            } else {
                SourceTypeView::RustType { name, type_args: Seq::empty() }
            },
        ),
        RustcTyView::Uint(name) => Some(
            if name == "usize"@ {
                SourceTypeView::Usize
            } else {
                SourceTypeView::RustType { name, type_args: Seq::empty() }
            },
        ),
        RustcTyView::Float(name) => Some(
            if name == "f64"@ {
                SourceTypeView::F64
            } else {
                SourceTypeView::RustType { name, type_args: Seq::empty() }
            },
        ),
        RustcTyView::Bool => Some(SourceTypeView::Bool),
        RustcTyView::Tuple(ts) => if ts.len() == 0 {
            Some(SourceTypeView::Void)
        } else {
            match to_sources(ts) {
                Some(type_args) => Some(
                    SourceTypeView::RustType { name: "tuple"@, type_args },
                ),
                None => None,
            }
        },
        RustcTyView::Ref(inner) => match to_source(*inner) {
            Some(r) => Some(SourceTypeView::Ref { inner: Box::new(r) }),
            None => None,
        },
        RustcTyView::Adt { def, name, from_stubs, args } => match to_sources(args) {
            Some(type_args) => Some(
                if from_stubs {
                    SourceTypeView::StructRef { name, type_args }
                } else {
                    SourceTypeView::RustType { name, type_args }
                },
            ),
            None => None,
        },
        RustcTyView::Slice(elem) => if *elem == RustcTyView::Uint("u8"@) {
            Some(SourceTypeView::ByteSlice)
        } else {
            None
        },
        RustcTyView::Str => Some(SourceTypeView::Str),
        RustcTyView::Never => Some(
            SourceTypeView::RustType { name: "never"@, type_args: Seq::empty() },
        ),
        RustcTyView::RawPtr(inner) => match to_source(*inner) {
            Some(r) => Some(SourceTypeView::RustType { name: "raw_ptr"@, type_args: seq![r] }),
            None => None,
        },
        RustcTyView::Dynamic => Some(
            SourceTypeView::RustType { name: "dyn_trait"@, type_args: Seq::empty() },
        ),
        RustcTyView::Param(name) => Some(SourceTypeView::TypeParam(name)),
        RustcTyView::Region | RustcTyView::ConstArg | RustcTyView::Other => None,
    }
}

/// The types in toylang that some generic arguments stand for. What is no type
/// is left out.
pub open spec fn to_sources(ts: Seq<RustcTyView>) -> Option<Seq<SourceTypeView>>
    decreases ts,
{
    if ts.len() == 0 {
        Some(Seq::empty())
    } else if ts[0] is Region || ts[0] is ConstArg {
        to_sources(ts.drop_first())
    } else {
        match to_source(ts[0]) {
            None => None,
            Some(first) => match to_sources(ts.drop_first()) {
                None => None,
                Some(rest) => Some(seq![first] + rest),
            },
        }
    }
}

/// The primitive type of the Rust compiler that toylang has only as a Rust
/// type.
pub open spec fn primitive(name: Seq<char>) -> Option<RustcTyView> {
    if name == "u8"@ || name == "u16"@ || name == "u32"@ || name == "u64"@ {
        Some(RustcTyView::Uint(name))
    } else if name == "i8"@ || name == "i16"@ {
        Some(RustcTyView::Int(name))
    } else if name == "f32"@ {
        Some(RustcTyView::Float(name))
    } else {
        None
    }
}

/// The type of the Rust compiler that a type in toylang stands for. `context`
/// says where it is needed.
pub open spec fn to_rustc(t: SourceTypeView, context: ContextView, w: WorldView) -> Result<
    RustcTyView,
    OracleStopView,
>
    decreases t,
{
    match t {
        SourceTypeView::I32 => Ok(RustcTyView::Int("i32"@)),
        SourceTypeView::I64 => Ok(RustcTyView::Int("i64"@)),
        SourceTypeView::F64 => Ok(RustcTyView::Float("f64"@)),
        SourceTypeView::Bool => Ok(RustcTyView::Bool),
        SourceTypeView::Usize => Ok(RustcTyView::Uint("usize"@)),
        SourceTypeView::Void => Ok(RustcTyView::Tuple(Seq::empty())),
        SourceTypeView::StructRef { name, type_args } => match resolve_path(
            w,
            name,
            Wanted::Type,
        ) {
            None => Err(OracleStopView::NoStruct { name }),
            Some(item) => match to_rustcs(
                type_args,
                ContextView::NestedGenericArg { parent_type: name },
                w,
            ) {
                Err(e) => Err(e),
                Ok(args) => Ok(
                    RustcTyView::Adt {
                        def: item.def,
                        name: item.item_name,
                        from_stubs: item.in_stubs,
                        args,
                    },
                ),
            },
        },
        SourceTypeView::RustType { name, type_args } => match primitive(name) {
            Some(p) => Ok(p),
            None => match resolve_path(w, name, Wanted::Type) {
                None => Err(OracleStopView::Unresolved(UnresolvedView { name, context })),
                Some(item) => match to_rustcs(
                    type_args,
                    ContextView::NestedGenericArg { parent_type: name },
                    w,
                ) {
                    Err(e) => Err(e),
                    Ok(args) => Ok(
                        RustcTyView::Adt {
                            def: item.def,
                            name: item.item_name,
                            from_stubs: item.in_stubs,
                            args,
                        },
                    ),
                },
            },
        },
        SourceTypeView::Ref { inner } => match to_rustc(*inner, context, w) {
            Err(e) => Err(e),
            Ok(r) => Ok(RustcTyView::Ref(Box::new(r))),
        },
        SourceTypeView::Str => Ok(RustcTyView::Str),
        SourceTypeView::ByteSlice => Ok(
            RustcTyView::Slice(Box::new(RustcTyView::Uint("u8"@))),
        ),
        SourceTypeView::TypeParam(name) => Err(
            OracleStopView::Unresolved(
                UnresolvedView { name, context: ContextView::Deferred { type_param: name } },
            ),
        ),
    }
}

/// The types of the Rust compiler that some types in toylang stand for.
pub open spec fn to_rustcs(ts: Seq<SourceTypeView>, context: ContextView, w: WorldView) -> Result<
    Seq<RustcTyView>,
    OracleStopView,
>
    decreases ts,
{
    if ts.len() == 0 {
        Ok(Seq::empty())
    } else {
        match to_rustc(ts[0], context, w) {
            Err(e) => Err(e),
            Ok(first) => match to_rustcs(ts.drop_first(), context, w) {
                Err(e) => Err(e),
                Ok(rest) => Ok(seq![first] + rest),
            },
        }
    }
}

/// The type of the Rust compiler that the type of a field stands for, with
/// types of the Rust compiler for type parameters. A type parameter behind a
/// reference is not replaced.
pub open spec fn to_rustc_in(
    t: SourceTypeView,
    subst: Seq<(Seq<char>, RustcTyView)>,
    w: WorldView,
) -> Result<RustcTyView, OracleStopView>
    decreases t,
{
    match t {
        SourceTypeView::TypeParam(name) => match find(subst, name) {
            Some(r) => Ok(r),
            None => to_rustc(t, ContextView::Codegen, w),
        },
        SourceTypeView::StructRef { name, type_args } => match resolve_path(
            w,
            name,
            Wanted::Type,
        ) {
            None => Err(OracleStopView::NoStruct { name }),
            Some(item) => match to_rustcs_in(type_args, subst, w) {
                Err(e) => Err(e),
                Ok(args) => Ok(
                    RustcTyView::Adt {
                        def: item.def,
                        name: item.item_name,
                        from_stubs: item.in_stubs,
                        args,
                    },
                ),
            },
        },
        SourceTypeView::RustType { name, type_args } => match resolve_path(w, name, Wanted::Type) {
            None => Err(
                OracleStopView::Unresolved(UnresolvedView { name, context: ContextView::Codegen }),
            ),
            Some(item) => match to_rustcs_in(type_args, subst, w) {
                Err(e) => Err(e),
                Ok(args) => Ok(
                    RustcTyView::Adt {
                        def: item.def,
                        name: item.item_name,
                        from_stubs: item.in_stubs,
                        args,
                    },
                ),
            },
        },
        _ => to_rustc(t, ContextView::Codegen, w),
    }
}

/// The same for several types.
pub open spec fn to_rustcs_in(
    ts: Seq<SourceTypeView>,
    subst: Seq<(Seq<char>, RustcTyView)>,
    w: WorldView,
) -> Result<Seq<RustcTyView>, OracleStopView>
    decreases ts,
{
    if ts.len() == 0 {
        Ok(Seq::empty())
    } else {
        match to_rustc_in(ts[0], subst, w) {
            Err(e) => Err(e),
            Ok(first) => match to_rustcs_in(ts.drop_first(), subst, w) {
                Err(e) => Err(e),
                Ok(rest) => Ok(seq![first] + rest),
            },
        }
    }
}

/// The types among some generic arguments.
pub open spec fn only_types(args: Seq<RustcTyView>) -> Seq<RustcTyView>
    decreases args.len(),
{
    if args.len() == 0 {
        Seq::empty()
    } else if args.last() is Region || args.last() is ConstArg {
        only_types(args.drop_last())
    } else {
        only_types(args.drop_last()).push(args.last())
    }
}

/// The types of the fields of a struct for some generic arguments.
pub open spec fn field_tys(
    d: ToyStructView,
    args: Seq<RustcTyView>,
    w: WorldView,
) -> Result<Seq<RustcTyView>, OracleStopView> {
    to_rustcs_in(field_types_of(d.fields), bind_all(d.type_params, only_types(args)), w)
}

/// Whether the names in a type stand for items of those names: its structs for
/// items of the stubs, its Rust types for others. A primitive type takes no
/// arguments.
pub open spec fn names_kept(t: SourceTypeView, w: WorldView) -> bool
    decreases t,
{
    match t {
        SourceTypeView::StructRef { name, type_args } => {
            &&& resolve_path(w, name, Wanted::Type) matches Some(item) ==> item.item_name == name
                && item.in_stubs
            &&& all_names_kept(type_args, w)
        },
        SourceTypeView::RustType { name, type_args } => if primitive(name) is Some {
            type_args.len() == 0
        } else {
            &&& resolve_path(w, name, Wanted::Type) matches Some(item) ==> item.item_name == name
                && !item.in_stubs
            &&& all_names_kept(type_args, w)
        },
        SourceTypeView::Ref { inner } => names_kept(*inner, w),
        _ => true,
    }
}

/// The same for several types.
pub open spec fn all_names_kept(ts: Seq<SourceTypeView>, w: WorldView) -> bool
    decreases ts,
{
    ts.len() == 0 || names_kept(ts[0], w) && all_names_kept(ts.drop_first(), w)
}

/// A type that goes to the Rust compiler comes back as it was.
pub proof fn lemma_type_comes_back(t: SourceTypeView, context: ContextView, w: WorldView)
    requires
        to_rustc(t, context, w) is Ok,
        names_kept(t, w),
    ensures
        to_source(to_rustc(t, context, w)->Ok_0) == Some(t),
    decreases t,
{
    reveal_strlit("i32");
    reveal_strlit("i64");
    reveal_strlit("f64");
    reveal_strlit("usize");
    reveal_strlit("u8");
    reveal_strlit("u16");
    reveal_strlit("u32");
    reveal_strlit("u64");
    reveal_strlit("i8");
    reveal_strlit("i16");
    reveal_strlit("f32");
    match t {
        SourceTypeView::StructRef { name, type_args } => {
            lemma_types_come_back(
                type_args,
                ContextView::NestedGenericArg { parent_type: name },
                w,
            );
        },
        SourceTypeView::RustType { name, type_args } => {
            if primitive(name) is None {
                lemma_types_come_back(
                    type_args,
                    ContextView::NestedGenericArg { parent_type: name },
                    w,
                );
            } else {
                assert(type_args =~= Seq::empty());
                assert(name.len() <= 3);
                assert("i32"@[0] == 'i' && "i32"@[1] == '3');
                assert("i64"@[0] == 'i' && "i64"@[1] == '6');
                assert("f64"@[0] == 'f' && "f64"@[1] == '6');
                assert("usize"@.len() == 5);
                assert("f32"@[1] == '3');
                assert("i16"@[1] == '1');
                assert("i8"@.len() == 2);
                assert("u8"@.len() == 2);
                assert("u16"@.len() == 3);
                assert("u32"@.len() == 3);
                assert("u64"@.len() == 3);
            }
        },
        SourceTypeView::Ref { inner } => {
            lemma_type_comes_back(*inner, context, w);
        },
        _ => {
            assert("i32"@[1] == '3');
            assert("i64"@[1] == '6');
        },
    }
}

proof fn lemma_types_come_back(ts: Seq<SourceTypeView>, context: ContextView, w: WorldView)
    requires
        to_rustcs(ts, context, w) is Ok,
        all_names_kept(ts, w),
    ensures
        to_sources(to_rustcs(ts, context, w)->Ok_0) == Some(ts),
    decreases ts,
{
    if ts.len() == 0 {
        assert(ts =~= Seq::empty());
    } else {
        lemma_type_comes_back(ts[0], context, w);
        lemma_types_come_back(ts.drop_first(), context, w);
        let out = to_rustcs(ts, context, w)->Ok_0;
        let rest = to_rustcs(ts.drop_first(), context, w)->Ok_0;
        assert(out.drop_first() =~= rest);
        assert(seq![ts[0]] + ts.drop_first() =~= ts);
    }
}

/// The generic arguments of an item for given type arguments.
pub open spec fn args_of(def: u64, types: Seq<RustcTyView>, w: WorldView) -> Result<
    Seq<RustcTyView>,
    OracleStopView,
> {
    match find_generics(w.generics, def) {
        None => Err(OracleStopView::NeedGenerics { def }),
        Some(params) => match generic_args(params, types) {
            None => Err(OracleStopView::GenericArgs { def }),
            Some(args) => Ok(args),
        },
    }
}

/// The types of a function for given type arguments.
pub open spec fn signature_of(def: u64, types: Seq<RustcTyView>, w: WorldView) -> Result<
    SignatureView,
    OracleStopView,
> {
    match args_of(def, types, w) {
        Err(e) => Err(e),
        Ok(args) => match find_signature(w.signatures, def, args) {
            None => Err(OracleStopView::NeedSignature { def, args }),
            Some(sig) => Ok(sig),
        },
    }
}

/// The return type of a function in toylang.
pub open spec fn output_of(sig: SignatureView) -> Result<SourceTypeView, OracleStopView> {
    match to_source(sig.output) {
        Some(t) => Ok(t),
        None => Err(OracleStopView::Unsupported),
    }
}

/// The parameter types of a function in toylang.
pub open spec fn inputs_of(sig: SignatureView) -> Result<Seq<SourceTypeView>, OracleStopView> {
    match to_sources(sig.inputs) {
        Some(ts) => Ok(ts),
        None => Err(OracleStopView::Unsupported),
    }
}

/// A type without the references around it.
pub open spec fn source_referent(t: SourceTypeView) -> SourceTypeView
    decreases t,
{
    match t {
        SourceTypeView::Ref { inner } => source_referent(*inner),
        _ => t,
    }
}

/// The types of a method of a Rust type. Nothing, where the type or the method
/// is not there.
pub open spec fn method_signature(
    owner: Seq<char>,
    method: Seq<char>,
    type_args: Seq<SourceTypeView>,
    w: WorldView,
) -> Result<Option<SignatureView>, OracleStopView> {
    match resolve_path(w, owner, Wanted::Type) {
        None => Ok(None),
        Some(item) => match ask_item(w, item.def, method) {
            Err(e) => Err(e),
            Ok(None) => Ok(None),
            Ok(Some(def)) => match to_rustcs(
                type_args,
                ContextView::InherentMethodTypeArg { owner, method },
                w,
            ) {
                Err(e) => Err(e),
                Ok(types) => match signature_of(def, types, w) {
                    Err(e) => Err(e),
                    Ok(sig) => Ok(Some(sig)),
                },
            },
        },
    }
}

/// The types of a free function. Nothing, where it is not there.
pub open spec fn free_signature(
    name: Seq<char>,
    type_args: Seq<SourceTypeView>,
    w: WorldView,
) -> Result<Option<SignatureView>, OracleStopView> {
    match resolve_path(w, name, Wanted::Fn) {
        None => Ok(None),
        Some(item) => match to_rustcs(
            type_args,
            ContextView::FreeFunctionTypeArg { function_name: name },
            w,
        ) {
            Err(e) => Err(e),
            Ok(types) => match signature_of(item.def, types, w) {
                Err(e) => Err(e),
                Ok(sig) => Ok(Some(sig)),
            },
        },
    }
}

/// What a trait call finds.
pub enum TraitFound {
    NoTrait,
    NoMethod,
    Signature(SignatureView),
}

/// The types of a method of a trait, for the type of the receiver without
/// references and the other type arguments.
pub open spec fn trait_signature(
    trait_name: Seq<char>,
    method: Seq<char>,
    receiver: SourceTypeView,
    type_args: Seq<SourceTypeView>,
    w: WorldView,
) -> Result<TraitFound, OracleStopView> {
    match resolve_path(w, trait_name, Wanted::Trait) {
        None => Ok(TraitFound::NoTrait),
        Some(item) => match to_rustc(
            source_referent(receiver),
            ContextView::TraitCallSelf { trait_name, method },
            w,
        ) {
            Err(e) => Err(e),
            Ok(self_ty) => match ask_item(w, item.def, method) {
                Err(e) => Err(e),
                Ok(None) => Ok(TraitFound::NoMethod),
                Ok(Some(def)) => match to_rustcs(
                    type_args,
                    ContextView::TraitMethodTypeArg { trait_name, method },
                    w,
                ) {
                    Err(e) => Err(e),
                    Ok(types) => match signature_of(def, seq![self_ty] + types, w) {
                        Err(e) => Err(e),
                        Ok(sig) => Ok(TraitFound::Signature(sig)),
                    },
                },
            },
        },
    }
}

/// The return type of a method of a Rust type.
pub open spec fn method_return(
    owner: Seq<char>,
    method: Seq<char>,
    type_args: Seq<SourceTypeView>,
    w: WorldView,
) -> Result<SourceTypeView, OracleStopView> {
    match resolve_path(w, owner, Wanted::Type) {
        None => Err(
            OracleStopView::Unresolved(
                UnresolvedView {
                    name: owner,
                    context: ContextView::InherentMethodTypeArg { owner, method },
                },
            ),
        ),
        Some(_) => match method_signature(owner, method, type_args, w) {
            Err(e) => Err(e),
            Ok(None) => Err(OracleStopView::NoMethod { owner, method }),
            Ok(Some(sig)) => output_of(sig),
        },
    }
}

/// The parameter types of a method of a Rust type.
pub open spec fn method_params(
    owner: Seq<char>,
    method: Seq<char>,
    type_args: Seq<SourceTypeView>,
    w: WorldView,
) -> Result<Option<Seq<SourceTypeView>>, OracleStopView> {
    match method_signature(owner, method, type_args, w) {
        Err(e) => Err(e),
        Ok(None) => Ok(None),
        Ok(Some(sig)) => match inputs_of(sig) {
            Err(e) => Err(e),
            Ok(ts) => Ok(Some(ts)),
        },
    }
}

/// The return type of a free function.
pub open spec fn free_return(
    name: Seq<char>,
    type_args: Seq<SourceTypeView>,
    w: WorldView,
) -> Result<Option<SourceTypeView>, OracleStopView> {
    match free_signature(name, type_args, w) {
        Err(e) => Err(e),
        Ok(None) => Ok(None),
        Ok(Some(sig)) => match output_of(sig) {
            Err(e) => Err(e),
            Ok(t) => Ok(Some(t)),
        },
    }
}

/// The parameter types of a free function.
pub open spec fn free_params(
    name: Seq<char>,
    type_args: Seq<SourceTypeView>,
    w: WorldView,
) -> Result<Option<Seq<SourceTypeView>>, OracleStopView> {
    match free_signature(name, type_args, w) {
        Err(e) => Err(e),
        Ok(None) => Ok(None),
        Ok(Some(sig)) => match inputs_of(sig) {
            Err(e) => Err(e),
            Ok(ts) => Ok(Some(ts)),
        },
    }
}

/// The return type of a method of a trait.
pub open spec fn trait_return(
    trait_name: Seq<char>,
    method: Seq<char>,
    receiver: SourceTypeView,
    type_args: Seq<SourceTypeView>,
    w: WorldView,
) -> Result<SourceTypeView, OracleStopView> {
    match trait_signature(trait_name, method, receiver, type_args, w) {
        Err(e) => Err(e),
        Ok(TraitFound::NoTrait) => Err(
            OracleStopView::Unresolved(
                UnresolvedView {
                    name: trait_name,
                    context: ContextView::TraitCallName { method },
                },
            ),
        ),
        Ok(TraitFound::NoMethod) => Err(
            OracleStopView::Unresolved(
                UnresolvedView {
                    name: method,
                    context: ContextView::TraitMethodName { trait_name },
                },
            ),
        ),
        Ok(TraitFound::Signature(sig)) => output_of(sig),
    }
}

/// The parameter types of a method of a trait.
pub open spec fn trait_params(
    trait_name: Seq<char>,
    method: Seq<char>,
    receiver: SourceTypeView,
    type_args: Seq<SourceTypeView>,
    w: WorldView,
) -> Result<Option<Seq<SourceTypeView>>, OracleStopView> {
    match trait_signature(trait_name, method, receiver, type_args, w) {
        Err(e) => Err(e),
        Ok(TraitFound::Signature(sig)) => match inputs_of(sig) {
            Err(e) => Err(e),
            Ok(ts) => Ok(Some(ts)),
        },
        Ok(_) => Ok(None),
    }
}

/// What stands before the name of a trait in a question.
pub const TRAIT_PREFIX: &'static str = "__trait::";

/// The return type that answers a question: that of a free function (`Void`
/// where there is none), of a method of a trait, or of a method of a type.
pub open spec fn answer_return(
    owner: Seq<char>,
    method: Seq<char>,
    type_args: Seq<SourceTypeView>,
    w: WorldView,
) -> Result<SourceTypeView, OracleStopView> {
    if owner.len() == 0 {
        match free_return(method, type_args, w) {
            Err(e) => Err(e),
            Ok(Some(t)) => Ok(t),
            Ok(None) => Ok(SourceTypeView::Void),
        }
    } else if has_prefix(owner, TRAIT_PREFIX@) {
        if type_args.len() == 0 {
            Err(OracleStopView::NoReceiver)
        } else {
            trait_return(
                owner.skip(TRAIT_PREFIX@.len() as int),
                method,
                type_args[0],
                type_args.drop_first(),
                w,
            )
        }
    } else {
        method_return(owner, method, type_args, w)
    }
}

/// The parameter types that answer a question.
pub open spec fn answer_params(
    owner: Seq<char>,
    method: Seq<char>,
    type_args: Seq<SourceTypeView>,
    w: WorldView,
) -> Result<Option<Seq<SourceTypeView>>, OracleStopView> {
    if owner.len() == 0 {
        free_params(method, type_args, w)
    } else if has_prefix(owner, TRAIT_PREFIX@) {
        if type_args.len() == 0 {
            Err(OracleStopView::NoReceiver)
        } else {
            trait_params(
                owner.skip(TRAIT_PREFIX@.len() as int),
                method,
                type_args[0],
                type_args.drop_first(),
                w,
            )
        }
    } else {
        method_params(owner, method, type_args, w)
    }
}

} // verus!
