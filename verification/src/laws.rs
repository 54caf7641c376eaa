use vstd::prelude::*;

use crate::ast::{FnDeclView, ItemView, TypeExprView, TypedefView, UnitView};
use crate::check::DiagView;
use crate::ident::IdentView;
use crate::identify::{
    frames_lookup, frames_rev_lookup, lemma_frames_lookup_none_each, lemma_scope_lookup_found,
    lemma_scope_lookup_present, scope_lookup, BindingView, BuilderView,
};
use crate::resolution::{
    bind_global, bind_local, enter_scope, fn_dup_message, item_room, item_unassigned,
    lemma_resolve_item_shape, lemma_resolve_params_shape, qualified_name, resolve_block_fn,
    resolve_item, resolve_items, resolve_params, resolve_typedef, resolve_unit, step_cursor,
    unit_ready, PassView,
};
use crate::scoped_id::{
    id_inc, id_lt, lemma_id_lt_inc, lemma_id_lt_inc_above_subtree, lemma_id_lt_irrefl,
    lemma_id_lt_prefix, lemma_id_lt_trans,
};

verus! {

/// The ids one identifier cell contributes: none while unassigned.
pub open spec fn opt_ids(id: Option<Seq<u64>>) -> Seq<Seq<u64>> {
    match id {
        Option::Some(i) => seq![i],
        Option::None => Seq::empty(),
    }
}

/// The assigned ids of a parameter list, in order.
pub open spec fn params_ids(ps: Seq<(IdentView, TypeExprView)>) -> Seq<Seq<u64>>
    decreases ps.len(),
{
    if ps.len() == 0 {
        Seq::empty()
    } else {
        opt_ids(ps.first().0.id) + params_ids(ps.drop_first())
    }
}

/// The assigned ids of one declaration, the declaration's own first.
pub open spec fn item_ids(it: ItemView) -> Seq<Seq<u64>> {
    match it {
        ItemView::BlockFn(f) => opt_ids(f.ident.id) + params_ids(f.params),
        ItemView::Typedef(t) => opt_ids(t.ident.id),
    }
}

/// The assigned ids of a declaration list, in traversal order.
pub open spec fn items_ids(items: Seq<ItemView>) -> Seq<Seq<u64>>
    decreases items.len(),
{
    if items.len() == 0 {
        Seq::empty()
    } else {
        item_ids(items.first()) + items_ids(items.drop_first())
    }
}

/// Every id assigned anywhere in a resolved unit, in traversal order.
pub open spec fn unit_ids(u: UnitView) -> Seq<Seq<u64>> {
    items_ids(u.items)
}

/// Every id in the list is at or above the cursor value `c`.
pub open spec fn ids_at_or_above(ids: Seq<Seq<u64>>, c: Seq<u64>) -> bool {
    forall|k: int| 0 <= k < ids.len() ==> !id_lt(#[trigger] ids[k], c)
}

/// Every id in the list lies strictly below the cursor value `c`.
pub open spec fn ids_below(ids: Seq<Seq<u64>>, c: Seq<u64>) -> bool {
    forall|k: int| 0 <= k < ids.len() ==> id_lt(#[trigger] ids[k], c)
}

/// Every binding of one namespace lies strictly below the cursor.
pub open spec fn scope_below(s: Seq<BindingView>, c: Seq<u64>) -> bool {
    forall|k: int| 0 <= k < s.len() ==> id_lt((#[trigger] s[k]).id, c)
}

/// Every binding the builder holds, local or global, lies strictly below
/// the cursor: the pass never binds an id the cursor has not yet passed.
pub open spec fn builder_below(b: BuilderView, c: Seq<u64>) -> bool {
    &&& forall|k: int| 0 <= k < b.frames.len() ==> scope_below(#[trigger] b.frames[k], c)
    &&& scope_below(b.globals, c)
}

proof fn lemma_ids_concat_no_dup(xs: Seq<Seq<u64>>, ys: Seq<Seq<u64>>, c: Seq<u64>)
    requires
        xs.no_duplicates(),
        ys.no_duplicates(),
        ids_below(xs, c),
        ids_at_or_above(ys, c),
    ensures
        (xs + ys).no_duplicates(),
{
    assert forall|i: int, j: int| 0 <= i < j < (xs + ys).len() implies (xs + ys)[i] != (xs
        + ys)[j] by {
        if i < xs.len() && j >= xs.len() {
            assert(id_lt(xs[i], c));
            assert(!id_lt(ys[j - xs.len()], c));
        }
    }
}

proof fn lemma_ids_below_mono(ids: Seq<Seq<u64>>, c1: Seq<u64>, c2: Seq<u64>)
    requires
        ids_below(ids, c1),
        c1 == c2 || id_lt(c1, c2),
    ensures
        ids_below(ids, c2),
{
    assert forall|k: int| 0 <= k < ids.len() implies id_lt(#[trigger] ids[k], c2) by {
        if c1 != c2 {
            lemma_id_lt_trans(ids[k], c1, c2);
        }
    }
}

proof fn lemma_ids_above_strengthen(ids: Seq<Seq<u64>>, c1: Seq<u64>, c2: Seq<u64>)
    requires
        ids_at_or_above(ids, c2),
        id_lt(c1, c2),
    ensures
        ids_at_or_above(ids, c1),
{
    assert forall|k: int| 0 <= k < ids.len() implies !id_lt(#[trigger] ids[k], c1) by {
        if id_lt(ids[k], c1) {
            lemma_id_lt_trans(ids[k], c1, c2);
        }
    }
}

proof fn lemma_params_ids_unassigned(ps: Seq<(IdentView, TypeExprView)>)
    requires
        forall|k: int| 0 <= k < ps.len() ==> (#[trigger] ps[k]).0.id is None,
    ensures
        params_ids(ps) == Seq::<Seq<u64>>::empty(),
    decreases ps.len(),
{
    if ps.len() > 0 {
        assert(ps.first() == ps[0]);
        lemma_params_ids_unassigned(ps.drop_first());
        assert(params_ids(ps) =~= Seq::<Seq<u64>>::empty());
    }
}

/// Resolving a parameter list keeps every binding below the cursor, and
/// the ids it assigns are pairwise distinct, all at or above the cursor's
/// entry value and strictly below its final value.
proof fn lemma_resolve_params_inv(
    params: Seq<(IdentView, TypeExprView)>,
    fname: Seq<char>,
    fspan: crate::span::Span,
    st: PassView,
)
    requires
        st.cursor.len() > 0,
        st.cursor.last() + params.len() <= u64::MAX,
        st.scopes.frames.len() > 0,
        builder_below(st.scopes, st.cursor),
        forall|k: int| 0 <= k < params.len() ==> (#[trigger] params[k]).0.id is None,
    ensures
        ({
            let r = resolve_params(params, fname, fspan, st);
            &&& builder_below(r.1.scopes, r.1.cursor)
            &&& params_ids(r.0).no_duplicates()
            &&& ids_at_or_above(params_ids(r.0), st.cursor)
            &&& ids_below(params_ids(r.0), r.1.cursor)
            &&& (st.cursor == r.1.cursor || id_lt(st.cursor, r.1.cursor))
        }),
    decreases params.len(),
{
    let r = resolve_params(params, fname, fspan, st);
    if params.len() == 0 {
        assert(params_ids(r.0) =~= Seq::<Seq<u64>>::empty());
    } else {
        let p = params.first().0;
        if frames_lookup(st.scopes.frames, p.name) is Some {
            lemma_params_ids_unassigned(params);
        } else {
            let id = st.cursor;
            let st1 = bind_global(
                bind_local(st, p.name, id, p.span),
                crate::resolution::qualified_name(fname, p.name),
                id,
                fspan,
            );
            let st2 = step_cursor(st1);
            lemma_id_lt_inc(st.cursor);
            assert(builder_below(st2.scopes, st2.cursor)) by {
                assert forall|k: int| 0 <= k < st2.scopes.frames.len() implies scope_below(
                    #[trigger] st2.scopes.frames[k],
                    st2.cursor,
                ) by {
                    assert forall|m: int| 0 <= m < st2.scopes.frames[k].len() implies id_lt(
                        (#[trigger] st2.scopes.frames[k][m]).id,
                        st2.cursor,
                    ) by {
                        if k == st.scopes.frames.len() - 1 && m == st2.scopes.frames[k].len()
                            - 1 {
                        } else {
                            lemma_id_lt_trans(st2.scopes.frames[k][m].id, st.cursor, st2.cursor);
                        }
                    }
                }
                assert forall|m: int| 0 <= m < st2.scopes.globals.len() implies id_lt(
                    (#[trigger] st2.scopes.globals[m]).id,
                    st2.cursor,
                ) by {
                    if m == st2.scopes.globals.len() - 1 {
                    } else {
                        lemma_id_lt_trans(st2.scopes.globals[m].id, st.cursor, st2.cursor);
                    }
                }
            }
            lemma_resolve_params_inv(params.drop_first(), fname, fspan, st2);
            let rest = resolve_params(params.drop_first(), fname, fspan, st2);
            assert(r.0.drop_first() =~= rest.0);
            assert(r.0.first().0.id == Option::Some(id));
            assert(params_ids(r.0) =~= seq![id] + params_ids(rest.0));
            assert(ids_below(seq![id], st2.cursor));
            lemma_ids_concat_no_dup(seq![id], params_ids(rest.0), st2.cursor);
            assert(params_ids(r.0).no_duplicates());
            assert(ids_at_or_above(params_ids(r.0), st.cursor)) by {
                lemma_id_lt_irrefl(id);
                lemma_ids_above_strengthen(params_ids(rest.0), st.cursor, st2.cursor);
            }
            assert(ids_below(params_ids(r.0), r.1.cursor)) by {
                lemma_ids_below_mono(seq![id], st2.cursor, r.1.cursor);
            }
            if st2.cursor != r.1.cursor {
                lemma_id_lt_trans(st.cursor, st2.cursor, r.1.cursor);
            }
        }
    }
}

/// Resolving one declaration keeps every binding below the cursor, and
/// the ids it assigns are pairwise distinct, all at or above the cursor's
/// entry value and strictly below its final value.
proof fn lemma_resolve_item_inv(it: ItemView, st: PassView)
    requires
        st.cursor.len() > 0,
        st.cursor.last() < u64::MAX,
        st.scopes.frames.len() > 0,
        builder_below(st.scopes, st.cursor),
        item_unassigned(it),
        item_room(it),
    ensures
        ({
            let r = resolve_item(it, st);
            &&& builder_below(r.1.scopes, r.1.cursor)
            &&& item_ids(r.0).no_duplicates()
            &&& ids_at_or_above(item_ids(r.0), st.cursor)
            &&& ids_below(item_ids(r.0), r.1.cursor)
            &&& (st.cursor == r.1.cursor || id_lt(st.cursor, r.1.cursor))
        }),
{
    let r = resolve_item(it, st);
    match it {
        ItemView::BlockFn(f) => {
            if frames_lookup(st.scopes.frames, f.ident.name) is Some {
                lemma_params_ids_unassigned(f.params);
                assert(item_ids(r.0) =~= Seq::<Seq<u64>>::empty());
            } else {
                let fid = st.cursor;
                let st1 = bind_global(
                    bind_local(st, f.ident.name, fid, f.ident.span),
                    f.ident.name,
                    fid,
                    f.ident.span,
                );
                let st2 = enter_scope(
                    PassView {
                        cursor: id_inc(fid.push(0)),
                        scopes: st1.scopes,
                        errors: st1.errors,
                    },
                );
                assert(st2.cursor =~= fid.push(1));
                assert(fid.push(1).take(fid.len() as int) =~= fid);
                lemma_id_lt_prefix(fid, fid.push(1));
                assert(builder_below(st2.scopes, st2.cursor)) by {
                    assert forall|k: int| 0 <= k < st2.scopes.frames.len() implies scope_below(
                        #[trigger] st2.scopes.frames[k],
                        st2.cursor,
                    ) by {
                        assert forall|m: int| 0 <= m < st2.scopes.frames[k].len() implies id_lt(
                            (#[trigger] st2.scopes.frames[k][m]).id,
                            st2.cursor,
                        ) by {
                            if k == st.scopes.frames.len() - 1 && m == st2.scopes.frames[k].len()
                                - 1 {
                            } else {
                                lemma_id_lt_trans(
                                    st2.scopes.frames[k][m].id,
                                    st.cursor,
                                    st2.cursor,
                                );
                            }
                        }
                    }
                    assert forall|m: int| 0 <= m < st2.scopes.globals.len() implies id_lt(
                        (#[trigger] st2.scopes.globals[m]).id,
                        st2.cursor,
                    ) by {
                        if m == st2.scopes.globals.len() - 1 {
                        } else {
                            lemma_id_lt_trans(st2.scopes.globals[m].id, st.cursor, st2.cursor);
                        }
                    }
                }
                assert(st2.cursor.last() == 1 && st2.cursor.len() == fid.len() + 1);
                lemma_resolve_params_inv(f.params, f.ident.name, f.ident.span, st2);
                lemma_resolve_params_shape(f.params, f.ident.name, f.ident.span, st2);
                let pr = resolve_params(f.params, f.ident.name, f.ident.span, st2);
                let st3 = pr.1;
                assert(st3.cursor.drop_last() =~= fid.push(1).drop_last());
                assert(fid.push(1).drop_last() =~= fid);
                let c4 = id_inc(fid);
                // Everything bound or assigned while inside the function
                // extends `fid`, so all of it lies below `id_inc(fid)`.
                assert(st3.cursor.take(fid.len() as int) =~= st3.cursor.drop_last());
                lemma_id_lt_inc_above_subtree(fid, st3.cursor);
                lemma_id_lt_inc(fid);
                assert(builder_below(r.1.scopes, c4)) by {
                    assert forall|k: int| 0 <= k < r.1.scopes.frames.len() implies scope_below(
                        #[trigger] r.1.scopes.frames[k],
                        c4,
                    ) by {
                        assert(r.1.scopes.frames[k] == st3.scopes.frames[k]);
                        assert forall|m: int| 0 <= m < r.1.scopes.frames[k].len() implies id_lt(
                            (#[trigger] r.1.scopes.frames[k][m]).id,
                            c4,
                        ) by {
                            lemma_id_lt_trans(r.1.scopes.frames[k][m].id, st3.cursor, c4);
                        }
                    }
                    assert forall|m: int| 0 <= m < r.1.scopes.globals.len() implies id_lt(
                        (#[trigger] r.1.scopes.globals[m]).id,
                        c4,
                    ) by {
                        lemma_id_lt_trans(r.1.scopes.globals[m].id, st3.cursor, c4);
                    }
                }
                assert(item_ids(r.0) =~= seq![fid] + params_ids(pr.0));
                assert(ids_below(seq![fid], st2.cursor));
                lemma_ids_concat_no_dup(seq![fid], params_ids(pr.0), st2.cursor);
                assert(ids_at_or_above(item_ids(r.0), st.cursor)) by {
                    lemma_id_lt_irrefl(fid);
                    lemma_ids_above_strengthen(params_ids(pr.0), st.cursor, st2.cursor);
                }
                assert(ids_below(item_ids(r.0), c4)) by {
                    assert forall|k: int| 0 <= k < params_ids(pr.0).len() implies id_lt(
                        #[trigger] params_ids(pr.0)[k],
                        c4,
                    ) by {
                        lemma_id_lt_trans(params_ids(pr.0)[k], st3.cursor, c4);
                    }
                }
            }
        },
        ItemView::Typedef(t) => {
            if frames_lookup(st.scopes.frames, t.ident.name) is Some {
                assert(item_ids(r.0) =~= Seq::<Seq<u64>>::empty());
            } else {
                lemma_id_lt_inc(st.cursor);
                assert(item_ids(r.0) =~= seq![st.cursor]);
                lemma_id_lt_irrefl(st.cursor);
                assert(builder_below(r.1.scopes, r.1.cursor)) by {
                    assert forall|k: int| 0 <= k < r.1.scopes.frames.len() implies scope_below(
                        #[trigger] r.1.scopes.frames[k],
                        r.1.cursor,
                    ) by {
                        assert forall|m: int| 0 <= m < r.1.scopes.frames[k].len() implies id_lt(
                            (#[trigger] r.1.scopes.frames[k][m]).id,
                            r.1.cursor,
                        ) by {
                            lemma_id_lt_trans(
                                r.1.scopes.frames[k][m].id,
                                st.cursor,
                                r.1.cursor,
                            );
                        }
                    }
                    assert forall|m: int| 0 <= m < r.1.scopes.globals.len() implies id_lt(
                        (#[trigger] r.1.scopes.globals[m]).id,
                        r.1.cursor,
                    ) by {
                        if m == r.1.scopes.globals.len() - 1 {
                        } else {
                            lemma_id_lt_trans(r.1.scopes.globals[m].id, st.cursor, r.1.cursor);
                        }
                    }
                }
            }
        },
    }
}

/// Resolving a declaration list in order keeps every binding below the
/// cursor; the ids assigned over the whole list are pairwise distinct.
proof fn lemma_resolve_items_inv(items: Seq<ItemView>, st: PassView)
    requires
        st.cursor.len() > 0,
        st.cursor.last() + items.len() <= u64::MAX,
        st.scopes.frames.len() > 0,
        builder_below(st.scopes, st.cursor),
        forall|i: int|
            0 <= i < items.len() ==> item_unassigned(#[trigger] items[i]) && item_room(items[i]),
    ensures
        ({
            let r = resolve_items(items, st);
            &&& builder_below(r.1.scopes, r.1.cursor)
            &&& items_ids(r.0).no_duplicates()
            &&& ids_at_or_above(items_ids(r.0), st.cursor)
            &&& ids_below(items_ids(r.0), r.1.cursor)
            &&& (st.cursor == r.1.cursor || id_lt(st.cursor, r.1.cursor))
        }),
    decreases items.len(),
{
    let r = resolve_items(items, st);
    if items.len() == 0 {
        assert(items_ids(r.0) =~= Seq::<Seq<u64>>::empty());
    } else {
        assert(items.first() == items[0]);
        lemma_resolve_item_shape(items.first(), st);
        lemma_resolve_item_inv(items.first(), st);
        let first = resolve_item(items.first(), st);
        assert(forall|i: int|
            0 <= i < items.drop_first().len() ==> item_unassigned(
                #[trigger] items.drop_first()[i],
            ) && item_room(items.drop_first()[i]));
        lemma_resolve_items_inv(items.drop_first(), first.1);
        let rest = resolve_items(items.drop_first(), first.1);
        assert(r.0.drop_first() =~= rest.0);
        assert(r.0.first() == first.0);
        assert(items_ids(r.0) =~= item_ids(first.0) + items_ids(rest.0));
        lemma_ids_concat_no_dup(item_ids(first.0), items_ids(rest.0), first.1.cursor);
        assert(ids_at_or_above(items_ids(r.0), st.cursor)) by {
            if st.cursor != first.1.cursor {
                lemma_ids_above_strengthen(items_ids(rest.0), st.cursor, first.1.cursor);
            }
        }
        assert(ids_below(items_ids(r.0), r.1.cursor)) by {
            lemma_ids_below_mono(item_ids(first.0), first.1.cursor, r.1.cursor);
        }
        if st.cursor != first.1.cursor && first.1.cursor != r.1.cursor {
            lemma_id_lt_trans(st.cursor, first.1.cursor, r.1.cursor);
        }
    }
}

/// Uniqueness: in one resolved unit, any two successfully-resolved
/// declarations carry distinct ids — over functions, parameters and type
/// aliases alike. The pass need not check this at run time: the cursor
/// never revisits a value once it has moved past it.
pub proof fn lemma_resolution_unique(u: UnitView, st: PassView)
    requires
        unit_ready(u, st),
        builder_below(st.scopes, st.cursor),
    ensures
        unit_ids(resolve_unit(u, st).0).no_duplicates(),
{
    let st1 = enter_scope(st);
    assert(builder_below(st1.scopes, st1.cursor));
    lemma_resolve_items_inv(u.items, st1);
    assert(unit_ids(resolve_unit(u, st).0) == items_ids(resolve_items(u.items, st1).0));
}

/// Nesting: when a function and its first parameter both resolve, the
/// parameter's id is the function's id one level deeper — a zero
/// appended, then advanced by one increment.
pub proof fn lemma_nesting(f: FnDeclView, st: PassView)
    requires
        st.cursor.len() > 0,
        f.ident.id is None,
        forall|k: int| 0 <= k < f.params.len() ==> (#[trigger] f.params[k]).0.id is None,
    ensures
        ({
            let r = resolve_block_fn(f, st);
            (r.0.ident.id is Some && r.0.params.len() > 0 && r.0.params[0].0.id is Some)
                ==> r.0.params[0].0.id.unwrap() == id_inc(r.0.ident.id.unwrap().push(0))
        }),
{
    let r = resolve_block_fn(f, st);
    if frames_lookup(st.scopes.frames, f.ident.name) is Some {
    } else {
        if f.params.len() > 0 {
            let st2 = enter_scope(
                PassView {
                    cursor: id_inc(st.cursor.push(0)),
                    scopes: bind_global(
                        bind_local(st, f.ident.name, st.cursor, f.ident.span),
                        f.ident.name,
                        st.cursor,
                        f.ident.span,
                    ).scopes,
                    errors: st.errors,
                },
            );
            let pr = resolve_params(f.params, f.ident.name, f.ident.span, st2);
            if frames_lookup(st2.scopes.frames, f.params.first().0.name) is Some {
                assert(pr.0[0].0.id is None);
            } else {
                assert(pr.0[0].0.id == Option::Some(st2.cursor));
            }
        }
    }
}

/// Abandoned subtree: a function whose name collides with a visible
/// binding is left exactly as it was — its id stays unset, none of its
/// parameters are stamped or registered, the builder's namespaces are
/// untouched — and exactly one diagnostic is recorded, citing the new
/// occurrence's span and the previous definition's span.
pub proof fn lemma_abandoned_subtree(f: FnDeclView, st: PassView)
    requires
        frames_lookup(st.scopes.frames, f.ident.name) is Some,
    ensures
        resolve_block_fn(f, st).0 == f,
        resolve_block_fn(f, st).1.scopes == st.scopes,
        resolve_block_fn(f, st).1.cursor == st.cursor,
        resolve_block_fn(f, st).1.errors == st.errors.push(
            DiagView {
                spans: seq![
                    f.ident.span,
                    frames_rev_lookup(
                        st.scopes.frames,
                        frames_lookup(st.scopes.frames, f.ident.name).unwrap().id,
                    ).unwrap().span,
                ],
                message: fn_dup_message(f.ident.name),
            },
        ),
{
}

/// Determinism: what a pass produces is a function of the unit and the
/// seed state alone — two runs from equal states over equal units agree
/// on every id, every binding and every diagnostic.
pub proof fn lemma_resolution_deterministic(u1: UnitView, u2: UnitView, st1: PassView, st2: PassView)
    requires
        u1 == u2,
        st1 == st2,
    ensures
        resolve_unit(u1, st1) == resolve_unit(u2, st2),
{
}

/// Some binding of the frame bears the name.
pub open spec fn scope_has_name(frame: Seq<BindingView>, name: Seq<char>) -> bool {
    exists|k: int| 0 <= k < frame.len() && (#[trigger] frame[k]).name == name
}

/// Qualified names synthesized under one function name differ exactly
/// where the parameter names differ.
proof fn lemma_qualified_name_injective(fname: Seq<char>, a: Seq<char>, b: Seq<char>)
    requires
        qualified_name(fname, a) == qualified_name(fname, b),
    ensures
        a == b,
{
    let sep = "::"@;
    assert(qualified_name(fname, a).len() == fname.len() + sep.len() + a.len());
    assert(qualified_name(fname, b).len() == fname.len() + sep.len() + b.len());
    assert forall|i: int| 0 <= i < a.len() implies a[i] == b[i] by {
        assert(qualified_name(fname, a)[fname.len() + sep.len() + i] == a[i]);
        assert(qualified_name(fname, b)[fname.len() + sep.len() + i] == b[i]);
    }
    assert(a =~= b);
}

proof fn lemma_resolve_params_len(
    params: Seq<(IdentView, TypeExprView)>,
    fname: Seq<char>,
    fspan: crate::span::Span,
    st: PassView,
)
    ensures
        resolve_params(params, fname, fspan, st).0.len() == params.len(),
    decreases params.len(),
{
    if params.len() > 0 {
        let p = params.first().0;
        if frames_lookup(st.scopes.frames, p.name) is Some {
        } else {
            let st2 = step_cursor(
                bind_global(
                    bind_local(st, p.name, st.cursor, p.span),
                    qualified_name(fname, p.name),
                    st.cursor,
                    fspan,
                ),
            );
            lemma_resolve_params_len(params.drop_first(), fname, fspan, st2);
        }
    }
}

/// What resolving a parameter list does to the global namespace: existing
/// entries stay in place, every appended entry is the qualified name of a
/// parameter whose bare name was not visible when it was bound, and each
/// resolved parameter is found under its qualified name, bound to the
/// id stamped on it.
proof fn lemma_params_global(
    params: Seq<(IdentView, TypeExprView)>,
    fname: Seq<char>,
    fspan: crate::span::Span,
    st: PassView,
)
    requires
        st.scopes.frames.len() > 0,
        forall|k: int| 0 <= k < params.len() ==> (#[trigger] params[k]).0.id is None,
    ensures
        ({
            let r = resolve_params(params, fname, fspan, st);
            &&& st.scopes.globals.len() <= r.1.scopes.globals.len()
            &&& forall|g: int|
                0 <= g < st.scopes.globals.len() ==> #[trigger] r.1.scopes.globals[g]
                    == st.scopes.globals[g]
            &&& forall|m: Seq<char>, g: int|
                #![trigger r.1.scopes.globals[g], qualified_name(fname, m)]
                scope_has_name(st.scopes.frames.last(), m) && st.scopes.globals.len() <= g
                    < r.1.scopes.globals.len() ==> r.1.scopes.globals[g].name != qualified_name(
                    fname,
                    m,
                )
            &&& forall|j: int|
                0 <= j < params.len() && (#[trigger] r.0[j]).0.id is Some ==> scope_lookup(
                    r.1.scopes.globals,
                    qualified_name(fname, params[j].0.name),
                ) == Option::Some(
                    BindingView {
                        name: qualified_name(fname, params[j].0.name),
                        id: r.0[j].0.id.unwrap(),
                        span: fspan,
                    },
                )
        }),
    decreases params.len(),
{
    let r = resolve_params(params, fname, fspan, st);
    if params.len() == 0 {
    } else {
        let p = params.first().0;
        if frames_lookup(st.scopes.frames, p.name) is Some {
            assert(forall|j: int| 0 <= j < params.len() ==> (#[trigger] r.0[j]).0.id is None);
        } else {
            let q0 = qualified_name(fname, p.name);
            let b0 = BindingView { name: q0, id: st.cursor, span: fspan };
            let st1 = bind_global(bind_local(st, p.name, st.cursor, p.span), q0, st.cursor, fspan);
            let st2 = step_cursor(st1);
            assert(st2.scopes.globals == st.scopes.globals.push(b0));
            assert(st2.scopes.frames.last() == st.scopes.frames.last().push(
                BindingView { name: p.name, id: st.cursor, span: p.span },
            ));
            lemma_params_global(params.drop_first(), fname, fspan, st2);
            lemma_resolve_params_len(params, fname, fspan, st);
            lemma_resolve_params_len(params.drop_first(), fname, fspan, st2);
            let rest = resolve_params(params.drop_first(), fname, fspan, st2);
            assert(r.0.drop_first() =~= rest.0);
            assert(r.1 == rest.1);
            lemma_frames_lookup_none_each(st.scopes.frames, p.name);
            assert(scope_lookup(st.scopes.frames.last(), p.name) is None);
            assert forall|m: Seq<char>, g: int|
                #![trigger r.1.scopes.globals[g], qualified_name(fname, m)]
                scope_has_name(st.scopes.frames.last(), m) && st.scopes.globals.len() <= g
                    < r.1.scopes.globals.len() implies r.1.scopes.globals[g].name
                != qualified_name(fname, m) by {
                let kw = choose|k: int|
                    0 <= k < st.scopes.frames.last().len()
                        && (#[trigger] st.scopes.frames.last()[k]).name == m;
                if g == st.scopes.globals.len() {
                    assert(r.1.scopes.globals[g] == b0);
                    if q0 == qualified_name(fname, m) {
                        lemma_qualified_name_injective(fname, m, p.name);
                        lemma_scope_lookup_present(st.scopes.frames.last(), m, kw);
                        assert(false);
                    }
                } else {
                    assert(st2.scopes.frames.last()[kw] == st.scopes.frames.last()[kw]);
                    assert(scope_has_name(st2.scopes.frames.last(), m));
                }
            }
            let pos = st.scopes.globals.len() as int;
            assert forall|j: int|
                0 <= j < params.len() && (#[trigger] r.0[j]).0.id is Some implies scope_lookup(
                r.1.scopes.globals,
                qualified_name(fname, params[j].0.name),
            ) == Option::Some(
                BindingView {
                    name: qualified_name(fname, params[j].0.name),
                    id: r.0[j].0.id.unwrap(),
                    span: fspan,
                },
            ) by {
                if j == 0 {
                    assert(r.1.scopes.globals[pos] == st2.scopes.globals[pos]);
                    assert(r.1.scopes.globals[pos] == b0);
                    assert(st2.scopes.frames.last().last().name == p.name);
                    assert(scope_has_name(st2.scopes.frames.last(), p.name));
                    assert forall|k: int| pos < k < r.1.scopes.globals.len() implies (
                    #[trigger] r.1.scopes.globals[k]).name != q0 by {
                        assert(st2.scopes.globals.len() <= k < rest.1.scopes.globals.len());
                    }
                    lemma_scope_lookup_found(r.1.scopes.globals, q0, pos);
                    assert(r.0[0].0.id == Option::Some(st.cursor));
                } else {
                    assert(r.0[j] == r.0.drop_first()[j - 1]);
                    assert(params.drop_first()[j - 1] == params[j]);
                }
            }
        }
    }
}

/// Global parameter visibility: after a function resolves, each of its
/// stamped parameters is found in the global namespace under
/// `"<function>::<param>"`, bound to the very id stamped on the
/// parameter — the binding the pass also placed in the local frame that
/// has since closed.
pub proof fn lemma_param_globally_visible(f: FnDeclView, st: PassView)
    requires
        st.scopes.frames.len() > 0,
        forall|k: int| 0 <= k < f.params.len() ==> (#[trigger] f.params[k]).0.id is None,
    ensures
        ({
            let r = resolve_block_fn(f, st);
            forall|j: int|
                0 <= j < r.0.params.len() && (#[trigger] r.0.params[j]).0.id is Some
                    ==> scope_lookup(
                    r.1.scopes.globals,
                    qualified_name(f.ident.name, f.params[j].0.name),
                ) == Option::Some(
                    BindingView {
                        name: qualified_name(f.ident.name, f.params[j].0.name),
                        id: r.0.params[j].0.id.unwrap(),
                        span: f.ident.span,
                    },
                )
        }),
{
    let r = resolve_block_fn(f, st);
    if frames_lookup(st.scopes.frames, f.ident.name) is Some {
        assert(forall|j: int|
            0 <= j < r.0.params.len() ==> (#[trigger] r.0.params[j]).0.id is None);
    } else {
        let st2 = enter_scope(
            PassView {
                cursor: id_inc(st.cursor.push(0)),
                scopes: bind_global(
                    bind_local(st, f.ident.name, st.cursor, f.ident.span),
                    f.ident.name,
                    st.cursor,
                    f.ident.span,
                ).scopes,
                errors: st.errors,
            },
        );
        lemma_params_global(f.params, f.ident.name, f.ident.span, st2);
        lemma_resolve_params_len(f.params, f.ident.name, f.ident.span, st2);
    }
}

/// Order-independent aliases: this pass never consults an alias's target
/// type — two aliases with the same name and span but different targets
/// resolve to the same id, bindings and diagnostics. An alias may
/// therefore name another alias that appears only later in the unit.
pub proof fn lemma_alias_target_ignored(t1: TypedefView, t2: TypedefView, st: PassView)
    requires
        t1.ident == t2.ident,
    ensures
        resolve_typedef(t1, st).1 == resolve_typedef(t2, st).1,
        resolve_typedef(t1, st).0.ident == resolve_typedef(t2, st).0.ident,
{
}

} // verus!
