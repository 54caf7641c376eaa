use vstd::prelude::*;

use crate::scoped_id::ScopedId;
use crate::span::Span;

verus! {

/// The write-once identifier cell of a declaration: it starts `Unassigned`
/// ("not yet visited") and is assigned at most once, when the resolution
/// pass stamps the declaration. Assigning an already-assigned cell is an
/// internal-consistency fault, excluded by `Identifier::set_id`'s
/// precondition rather than reported as a user diagnostic.
pub enum IdState {
    Unassigned,
    Assigned(ScopedId),
}

impl View for IdState {
    type V = Option<Seq<u64>>;

    open spec fn view(&self) -> Option<Seq<u64>> {
        match self {
            IdState::Unassigned => Option::None,
            IdState::Assigned(id) => Option::Some(id@),
        }
    }
}

impl IdState {
    /// Whether the cell still holds no id.
    pub fn is_unassigned(&self) -> (r: bool)
        ensures
            r == (self@ is None),
    {
        match self {
            IdState::Unassigned => true,
            IdState::Assigned(_) => false,
        }
    }

    /// The assigned id, where there is one.
    pub fn assigned(&self) -> (r: Option<&ScopedId>)
        ensures
            match r {
                Option::Some(id) => self@ == Option::Some(id@),
                Option::None => self@ is None,
            },
    {
        match self {
            IdState::Unassigned => Option::None,
            IdState::Assigned(id) => Option::Some(id),
        }
    }
}

/// Mathematical value of an `Identifier`: its raw name, its source span,
/// and the contents of its id cell.
pub ghost struct IdentView {
    pub name: Seq<char>,
    pub span: Span,
    pub id: Option<Seq<u64>>,
}

/// A raw name from the source text together with its span and the
/// write-once `ScopedId` cell filled in by the resolution pass.
pub struct Identifier {
    pub name: String,
    pub span: Span,
    pub id: IdState,
}

impl View for Identifier {
    type V = IdentView;

    open spec fn view(&self) -> IdentView {
        IdentView { name: self.name@, span: self.span, id: self.id@ }
    }
}

impl Identifier {
    /// A fresh identifier, with its id cell unassigned, as the parser
    /// produces it.
    pub fn new(name: String, span: Span) -> (r: Identifier)
        ensures
            r@ == (IdentView { name: name@, span, id: Option::None }),
    {
        Identifier { name, span, id: IdState::Unassigned }
    }

    pub fn name(&self) -> (r: &String)
        ensures
            r@ == self@.name,
    {
        &self.name
    }

    pub fn span(&self) -> (r: Span)
        ensures
            r == self@.span,
    {
        self.span
    }

    pub fn id(&self) -> (r: &IdState)
        ensures
            r@ == self@.id,
    {
        &self.id
    }

    /// Fill the write-once cell. Permitted only while the cell is
    /// unassigned.
    pub fn set_id(&mut self, id: ScopedId)
        requires
            old(self)@.id is None,
        ensures
            final(self)@ == (IdentView { id: Option::Some(id@), ..old(self)@ }),
    {
        self.id = IdState::Assigned(id);
    }
}

} // verus!
