use vstd::prelude::*;

use crate::ident::{IdState, IdentView, Identifier};
use crate::scoped_id::ScopedId;
use crate::span::Span;

verus! {

/// Mathematical value of a type expression.
pub ghost enum TypeExprView {
    Named(IdentView),
}

impl TypeExprView {
    /// The identifier a type expression is made of.
    pub open spec fn ident(self) -> IdentView {
        match self {
            TypeExprView::Named(i) => i,
        }
    }
}

/// A named type expression: a bare type name such as `float` or `bool`,
/// carrying the identifier whose id cell a later type-resolution pass
/// fills in.
pub struct NamedTypeExpression {
    pub ident: Identifier,
}

impl View for NamedTypeExpression {
    type V = IdentView;

    open spec fn view(&self) -> IdentView {
        self.ident@
    }
}

impl NamedTypeExpression {
    /// Create a named type expression with the given name and an
    /// unassigned id cell inherited from `ident`.
    pub fn new(ident: Identifier) -> (r: NamedTypeExpression)
        ensures
            r@ == ident@,
    {
        NamedTypeExpression { ident }
    }

    /// The identifier of this type.
    pub fn ident(&self) -> (r: &Identifier)
        ensures
            r@ == self@,
    {
        &self.ident
    }

    pub fn name(&self) -> (r: &String)
        ensures
            r@ == self@.name,
    {
        &self.ident.name
    }

    pub fn id(&self) -> (r: &IdState)
        ensures
            r@ == self@.id,
    {
        &self.ident.id
    }

    pub fn set_id(&mut self, id: ScopedId)
        requires
            old(self)@.id is None,
        ensures
            final(self)@ == (IdentView { id: Option::Some(id@), ..old(self)@ }),
    {
        self.ident.set_id(id);
    }

    pub fn span(&self) -> (r: Span)
        ensures
            r == self@.span,
    {
        self.ident.span
    }
}

/// A type expression; only named types exist so far.
pub enum TypeExpression {
    Named(NamedTypeExpression),
}

impl View for TypeExpression {
    type V = TypeExprView;

    open spec fn view(&self) -> TypeExprView {
        match self {
            TypeExpression::Named(n) => TypeExprView::Named(n@),
        }
    }
}

impl TypeExpression {
    pub fn id(&self) -> (r: &IdState)
        ensures
            r@ == self@.ident().id,
    {
        match self {
            TypeExpression::Named(n) => n.id(),
        }
    }

    pub fn span(&self) -> (r: Span)
        ensures
            r == self@.ident().span,
    {
        match self {
            TypeExpression::Named(n) => n.span(),
        }
    }
}

/// Mathematical value of a function declaration.
pub ghost struct FnDeclView {
    pub ident: IdentView,
    pub params: Seq<(IdentView, TypeExprView)>,
}

/// The view of a parameter list.
pub open spec fn params_view(params: Seq<(Identifier, TypeExpression)>) -> Seq<
    (IdentView, TypeExprView),
> {
    params.map_values(|p: (Identifier, TypeExpression)| (p.0@, p.1@))
}

/// A top-level function declaration: its name and its ordered parameter
/// list, each parameter a name together with its declared type.
pub struct BlockFnDeclaration {
    pub ident: Identifier,
    pub params: Vec<(Identifier, TypeExpression)>,
}

impl View for BlockFnDeclaration {
    type V = FnDeclView;

    open spec fn view(&self) -> FnDeclView {
        FnDeclView { ident: self.ident@, params: params_view(self.params@) }
    }
}

impl BlockFnDeclaration {
    pub fn new(ident: Identifier, params: Vec<(Identifier, TypeExpression)>) -> (r:
        BlockFnDeclaration)
        ensures
            r@ == (FnDeclView { ident: ident@, params: params_view(params@) }),
    {
        BlockFnDeclaration { ident, params }
    }

    pub fn ident(&self) -> (r: &Identifier)
        ensures
            r@ == self@.ident,
    {
        &self.ident
    }

    pub fn name(&self) -> (r: &String)
        ensures
            r@ == self@.ident.name,
    {
        &self.ident.name
    }

    pub fn span(&self) -> (r: Span)
        ensures
            r == self@.ident.span,
    {
        self.ident.span
    }

    pub fn params(&self) -> (r: &Vec<(Identifier, TypeExpression)>)
        ensures
            params_view(r@) == self@.params,
    {
        &self.params
    }

    pub fn set_id(&mut self, id: ScopedId)
        requires
            old(self)@.ident.id is None,
        ensures
            final(self)@ == (FnDeclView {
                ident: IdentView { id: Option::Some(id@), ..old(self)@.ident },
                params: old(self)@.params,
            }),
    {
        self.ident.set_id(id);
    }
}

/// Mathematical value of a type alias declaration.
pub ghost struct TypedefView {
    pub ident: IdentView,
    pub ty: TypeExprView,
}

/// A type alias declaration, `typedef Name = Type`.
pub struct Typedef {
    pub ident: Identifier,
    pub ty: TypeExpression,
}

impl View for Typedef {
    type V = TypedefView;

    open spec fn view(&self) -> TypedefView {
        TypedefView { ident: self.ident@, ty: self.ty@ }
    }
}

impl Typedef {
    pub fn new(ident: Identifier, ty: TypeExpression) -> (r: Typedef)
        ensures
            r@ == (TypedefView { ident: ident@, ty: ty@ }),
    {
        Typedef { ident, ty }
    }

    pub fn ident(&self) -> (r: &Identifier)
        ensures
            r@ == self@.ident,
    {
        &self.ident
    }

    pub fn name(&self) -> (r: &String)
        ensures
            r@ == self@.ident.name,
    {
        &self.ident.name
    }

    pub fn span(&self) -> (r: Span)
        ensures
            r == self@.ident.span,
    {
        self.ident.span
    }

    pub fn type_expr(&self) -> (r: &TypeExpression)
        ensures
            r@ == self@.ty,
    {
        &self.ty
    }

    pub fn set_id(&mut self, id: ScopedId)
        requires
            old(self)@.ident.id is None,
        ensures
            final(self)@ == (TypedefView {
                ident: IdentView { id: Option::Some(id@), ..old(self)@.ident },
                ty: old(self)@.ty,
            }),
    {
        self.ident.set_id(id);
    }
}

/// Mathematical value of one declaration.
pub ghost enum ItemView {
    BlockFn(FnDeclView),
    Typedef(TypedefView),
}

/// One declaration of a compilation unit. The declaration kinds form a
/// closed set: a pass dispatches on the kind and walks the children of any
/// kind it does not override.
pub enum Item {
    BlockFn(BlockFnDeclaration),
    Typedef(Typedef),
}

impl View for Item {
    type V = ItemView;

    open spec fn view(&self) -> ItemView {
        match self {
            Item::BlockFn(f) => ItemView::BlockFn(f@),
            Item::Typedef(t) => ItemView::Typedef(t@),
        }
    }
}

/// Mathematical value of a compilation unit.
pub ghost struct UnitView {
    pub items: Seq<ItemView>,
}

/// The view of an item list.
pub open spec fn items_view(items: Seq<Item>) -> Seq<ItemView> {
    items.map_values(|it: Item| it@)
}

/// A compilation unit: the ordered declarations of one source file.
pub struct Unit {
    pub items: Vec<Item>,
}

impl View for Unit {
    type V = UnitView;

    open spec fn view(&self) -> UnitView {
        UnitView { items: items_view(self.items@) }
    }
}

impl Unit {
    pub fn new(items: Vec<Item>) -> (r: Unit)
        ensures
            r@ == (UnitView { items: items_view(items@) }),
    {
        Unit { items }
    }

    pub fn items(&self) -> (r: &Vec<Item>)
        ensures
            items_view(r@) == self@.items,
    {
        &self.items
    }
}

} // verus!
