use vstd::prelude::*;

use crate::ast::{FnDeclView, ItemView, TypeExprView, TypedefView, UnitView};
use crate::check::DiagView;
use crate::ident::IdentView;
use crate::identify::{frames_lookup, frames_rev_lookup, BindingView, BuilderView};
use crate::scoped_id::id_inc;
use crate::span::Span;

verus! {

/// The state one resolution pass carries while it walks a unit: the
/// cursor's current path, the scope builder's value, and the diagnostics
/// gathered so far.
pub ghost struct PassView {
    pub cursor: Seq<u64>,
    pub scopes: BuilderView,
    pub errors: Seq<DiagView>,
}

/// Message reported for a duplicate function name.
pub open spec fn fn_dup_message(name: Seq<char>) -> Seq<char> {
    "Function "@ + name + " is already declared"@
}

/// Message reported for a duplicate parameter name.
pub open spec fn param_dup_message(pname: Seq<char>, fname: Seq<char>) -> Seq<char> {
    "Parameter "@ + pname + " of function "@ + fname + " is already declared"@
}

/// Message reported for a duplicate type alias name.
pub open spec fn alias_dup_message(name: Seq<char>) -> Seq<char> {
    "Type alias "@ + name + " is already declared"@
}

/// The synthesized global name under which a function's parameter stays
/// resolvable after the pass.
pub open spec fn qualified_name(fname: Seq<char>, pname: Seq<char>) -> Seq<char> {
    fname + "::"@ + pname
}

/// The state with one more diagnostic recorded.
pub open spec fn with_error(st: PassView, spans: Seq<Span>, message: Seq<char>) -> PassView {
    PassView {
        cursor: st.cursor,
        scopes: st.scopes,
        errors: st.errors.push(DiagView { spans, message }),
    }
}

/// The state with a name bound in the innermost frame.
pub open spec fn bind_local(st: PassView, name: Seq<char>, id: Seq<u64>, span: Span) -> PassView {
    PassView {
        cursor: st.cursor,
        scopes: BuilderView {
            frames: st.scopes.frames.update(
                st.scopes.frames.len() - 1,
                st.scopes.frames.last().push(BindingView { name, id, span }),
            ),
            globals: st.scopes.globals,
        },
        errors: st.errors,
    }
}

/// The state with a name bound in the flat global namespace.
pub open spec fn bind_global(st: PassView, name: Seq<char>, id: Seq<u64>, span: Span) -> PassView {
    PassView {
        cursor: st.cursor,
        scopes: BuilderView {
            frames: st.scopes.frames,
            globals: st.scopes.globals.push(BindingView { name, id, span }),
        },
        errors: st.errors,
    }
}

/// The state with the cursor advanced to the next sibling slot.
pub open spec fn step_cursor(st: PassView) -> PassView {
    PassView { cursor: id_inc(st.cursor), scopes: st.scopes, errors: st.errors }
}

/// The state with a fresh innermost frame.
pub open spec fn enter_scope(st: PassView) -> PassView {
    PassView {
        cursor: st.cursor,
        scopes: BuilderView {
            frames: st.scopes.frames.push(Seq::<BindingView>::empty()),
            globals: st.scopes.globals,
        },
        errors: st.errors,
    }
}

/// Resolution of a parameter list, left to right. A parameter whose name
/// is already visible yields one diagnostic, citing the new occurrence's
/// span and the previous binding's span, and abandons the remaining
/// parameters of the same function; otherwise the parameter takes the
/// cursor's value, is bound locally and, under its qualified name,
/// globally, and the cursor advances.
pub open spec fn resolve_params(
    params: Seq<(IdentView, TypeExprView)>,
    fname: Seq<char>,
    fspan: Span,
    st: PassView,
) -> (Seq<(IdentView, TypeExprView)>, PassView)
    decreases params.len(),
{
    if params.len() == 0 {
        (params, st)
    } else {
        let p = params.first().0;
        let ty = params.first().1;
        if frames_lookup(st.scopes.frames, p.name) is Some {
            let prev = frames_lookup(st.scopes.frames, p.name).unwrap();
            let prev_span = frames_rev_lookup(st.scopes.frames, prev.id).unwrap().span;
            (params, with_error(st, seq![p.span, prev_span], param_dup_message(p.name, fname)))
        } else {
            let id = st.cursor;
            let st1 = bind_global(
                bind_local(st, p.name, id, p.span),
                qualified_name(fname, p.name),
                id,
                fspan,
            );
            let st2 = step_cursor(st1);
            let stamped = IdentView { name: p.name, span: p.span, id: Option::Some(id) };
            let rest = resolve_params(params.drop_first(), fname, fspan, st2);
            (seq![(stamped, ty)] + rest.0, rest.1)
        }
    }
}

/// Resolution of one function declaration. A name that already resolves
/// yields one diagnostic citing the new and the previous span and
/// abandons the whole declaration: its id stays unset and none of its
/// parameters are visited. Otherwise the function takes the cursor's
/// value and is bound locally and globally, so it stays resolvable after
/// the unit's scope closes; its parameters are resolved one level deeper
/// in a fresh scope; then the scope closes and the cursor returns to the
/// function's level and advances past it.
pub open spec fn resolve_block_fn(f: FnDeclView, st: PassView) -> (FnDeclView, PassView) {
    if frames_lookup(st.scopes.frames, f.ident.name) is Some {
        let prev = frames_lookup(st.scopes.frames, f.ident.name).unwrap();
        let prev_span = frames_rev_lookup(st.scopes.frames, prev.id).unwrap().span;
        (f, with_error(st, seq![f.ident.span, prev_span], fn_dup_message(f.ident.name)))
    } else {
        let fid = st.cursor;
        let st1 = bind_global(
            bind_local(st, f.ident.name, fid, f.ident.span),
            f.ident.name,
            fid,
            f.ident.span,
        );
        let st2 = enter_scope(
            PassView { cursor: id_inc(fid.push(0)), scopes: st1.scopes, errors: st1.errors },
        );
        let pr = resolve_params(f.params, f.ident.name, f.ident.span, st2);
        let st3 = pr.1;
        let st4 = PassView {
            cursor: id_inc(st3.cursor.drop_last()),
            scopes: BuilderView {
                frames: st3.scopes.frames.drop_last(),
                globals: st3.scopes.globals,
            },
            errors: st3.errors,
        };
        (
            FnDeclView {
                ident: IdentView {
                    name: f.ident.name,
                    span: f.ident.span,
                    id: Option::Some(fid),
                },
                params: pr.0,
            },
            st4,
        )
    }
}

/// Resolution of one type alias. Aliases live at the global level only,
/// so that aliases may reference each other regardless of textual order;
/// a name that already resolves among the visible frames yields one
/// diagnostic, citing the new occurrence's span and the previous
/// definition's span, and abandons only this alias's own assignment.
pub open spec fn resolve_typedef(t: TypedefView, st: PassView) -> (TypedefView, PassView) {
    if frames_lookup(st.scopes.frames, t.ident.name) is Some {
        let prev = frames_lookup(st.scopes.frames, t.ident.name).unwrap();
        let prev_span = frames_rev_lookup(st.scopes.frames, prev.id).unwrap().span;
        (t, with_error(st, seq![t.ident.span, prev_span], alias_dup_message(t.ident.name)))
    } else {
        let id = st.cursor;
        (
            TypedefView {
                ident: IdentView {
                    name: t.ident.name,
                    span: t.ident.span,
                    id: Option::Some(id),
                },
                ty: t.ty,
            },
            step_cursor(bind_global(st, t.ident.name, id, t.ident.span)),
        )
    }
}

/// Dispatch over the closed set of declaration kinds.
pub open spec fn resolve_item(it: ItemView, st: PassView) -> (ItemView, PassView) {
    match it {
        ItemView::BlockFn(f) => {
            let r = resolve_block_fn(f, st);
            (ItemView::BlockFn(r.0), r.1)
        },
        ItemView::Typedef(t) => {
            let r = resolve_typedef(t, st);
            (ItemView::Typedef(r.0), r.1)
        },
    }
}

/// Resolution of a unit's declarations in order. A diagnostic for one
/// declaration never stops its siblings from being resolved.
pub open spec fn resolve_items(items: Seq<ItemView>, st: PassView) -> (Seq<ItemView>, PassView)
    decreases items.len(),
{
    if items.len() == 0 {
        (items, st)
    } else {
        let first = resolve_item(items.first(), st);
        let rest = resolve_items(items.drop_first(), first.1);
        (seq![first.0] + rest.0, rest.1)
    }
}

/// Resolution of a whole compilation unit: open the unit's own scope,
/// resolve each declaration in order, then advance the cursor once more,
/// reserving a slot for a hypothetical next unit.
pub open spec fn resolve_unit(u: UnitView, st: PassView) -> (UnitView, PassView) {
    let r = resolve_items(u.items, enter_scope(st));
    (UnitView { items: r.0 }, step_cursor(r.1))
}

/// All id cells of one declaration are still unassigned, as the parser
/// delivers them.
pub open spec fn item_unassigned(it: ItemView) -> bool {
    match it {
        ItemView::BlockFn(f) => f.ident.id is None && forall|i: int|
            0 <= i < f.params.len() ==> (#[trigger] f.params[i]).0.id is None,
        ItemView::Typedef(t) => t.ident.id is None,
    }
}

/// The machine-limit room one declaration needs: a function cannot carry
/// more parameters than the cursor's component type can count.
pub open spec fn item_room(it: ItemView) -> bool {
    match it {
        ItemView::BlockFn(f) => f.params.len() < u64::MAX,
        ItemView::Typedef(_) => true,
    }
}

/// What resolution of a unit assumes of its input: a non-sentinel seed
/// with room to count the unit's declarations, and a unit whose id cells
/// are all unassigned.
pub open spec fn unit_ready(u: UnitView, st: PassView) -> bool {
    &&& st.cursor.len() > 0
    &&& st.cursor.last() + u.items.len() < u64::MAX
    &&& forall|i: int|
        0 <= i < u.items.len() ==> item_unassigned(#[trigger] u.items[i]) && item_room(
            u.items[i],
        )
}

/// Resolving a parameter list moves the cursor along its own level only:
/// the path keeps its length and its prefix, and the last component grows
/// by at most one slot per parameter. The frame stack keeps its depth and
/// the output list keeps its length.
pub proof fn lemma_resolve_params_shape(
    params: Seq<(IdentView, TypeExprView)>,
    fname: Seq<char>,
    fspan: Span,
    st: PassView,
)
    requires
        st.cursor.len() > 0,
        st.cursor.last() + params.len() <= u64::MAX,
        st.scopes.frames.len() > 0,
    ensures
        ({
            let r = resolve_params(params, fname, fspan, st);
            &&& r.1.cursor.len() == st.cursor.len()
            &&& r.1.cursor.drop_last() == st.cursor.drop_last()
            &&& st.cursor.last() <= r.1.cursor.last() <= st.cursor.last() + params.len()
            &&& r.1.scopes.frames.len() == st.scopes.frames.len()
            &&& r.0.len() == params.len()
        }),
    decreases params.len(),
{
    if params.len() > 0 {
        let p = params.first().0;
        if frames_lookup(st.scopes.frames, p.name) is Some {
        } else {
            let st1 = bind_global(
                bind_local(st, p.name, st.cursor, p.span),
                qualified_name(fname, p.name),
                st.cursor,
                fspan,
            );
            let st2 = step_cursor(st1);
            assert(st2.cursor == id_inc(st.cursor));
            assert(id_inc(st.cursor).len() == st.cursor.len());
            assert(id_inc(st.cursor).drop_last() =~= st.cursor.drop_last());
            assert(id_inc(st.cursor).last() == st.cursor.last() + 1);
            lemma_resolve_params_shape(params.drop_first(), fname, fspan, st2);
        }
    }
}

/// Resolving one declaration either leaves the cursor alone (the
/// declaration was abandoned) or advances it one sibling slot; the frame
/// stack keeps its depth.
pub proof fn lemma_resolve_item_shape(it: ItemView, st: PassView)
    requires
        st.cursor.len() > 0,
        st.cursor.last() < u64::MAX,
        st.scopes.frames.len() > 0,
        item_room(it),
    ensures
        ({
            let r = resolve_item(it, st);
            &&& r.1.cursor.len() == st.cursor.len()
            &&& r.1.cursor.drop_last() == st.cursor.drop_last()
            &&& st.cursor.last() <= r.1.cursor.last() <= st.cursor.last() + 1
            &&& r.1.scopes.frames.len() == st.scopes.frames.len()
        }),
{
    match it {
        ItemView::BlockFn(f) => {
            if frames_lookup(st.scopes.frames, f.ident.name) is Some {
            } else {
                let fid = st.cursor;
                let st1 = bind_global(
                    bind_local(st, f.ident.name, fid, f.ident.span),
                    f.ident.name,
                    fid,
                    f.ident.span,
                );
                let st2 = enter_scope(
                    PassView {
                        cursor: id_inc(fid.push(0)),
                        scopes: st1.scopes,
                        errors: st1.errors,
                    },
                );
                assert(st2.cursor =~= fid.push(1));
                assert(st2.cursor.last() == 1);
                lemma_resolve_params_shape(f.params, f.ident.name, f.ident.span, st2);
                let st3 = resolve_params(f.params, f.ident.name, f.ident.span, st2).1;
                assert(st3.cursor.drop_last() =~= fid.push(1).drop_last());
                assert(fid.push(1).drop_last() =~= fid);
                assert(id_inc(fid).len() == st.cursor.len());
                assert(id_inc(fid).drop_last() =~= st.cursor.drop_last());
            }
        },
        ItemView::Typedef(t) => {
            if frames_lookup(st.scopes.frames, t.ident.name) is Some {
            } else {
                assert(id_inc(st.cursor).drop_last() =~= st.cursor.drop_last());
            }
        },
    }
}

} // verus!
