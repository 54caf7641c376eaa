use vstd::prelude::*;
use vstd::string::StringExecFns;

use crate::ast::{BlockFnDeclaration, Item, Typedef, Unit};
use crate::check::{CheckerError, DiagView, ErrorCollector};
use crate::ident::IdentView;
use crate::identify::{
    frames_lookup, frames_rev_lookup, lemma_lookup_has_info, NameScopeBuilder,
};
use crate::resolution::{
    item_room, item_unassigned, param_dup_message, resolve_block_fn, resolve_item, resolve_items,
    resolve_params, resolve_typedef, resolve_unit, unit_ready, with_error,
    lemma_resolve_item_shape, lemma_resolve_params_shape, PassView,
};
use crate::scoped_id::{id_inc, ScopedId};
use crate::span::Span;

verus! {

/// The resolution pass over one compilation unit: it owns, for the
/// duration of the pass, the diagnostic collector, the scope builder and
/// the running cursor, and it stamps ids onto the declarations it visits.
///
/// Its whole effect is pinned to the `resolve_*` functions of
/// `crate::resolution`: running the pass again with a fresh builder and
/// collector and the same seed over the same unit gives identical ids,
/// bindings and diagnostics.
pub struct ItemVarIdentifier {
    pub errors: ErrorCollector,
    pub builder: NameScopeBuilder,
    pub current_id: ScopedId,
}

impl ItemVarIdentifier {
    /// The pass state as the resolution model sees it.
    pub open spec fn state(&self) -> PassView {
        PassView { cursor: self.current_id@, scopes: self.builder@, errors: self.errors@ }
    }

    /// A pass over one unit, seeded with a non-default starting id so the
    /// first top-level declaration is not mistaken for unset.
    pub fn new(errors: ErrorCollector, builder: NameScopeBuilder, current_id: ScopedId) -> (r:
        ItemVarIdentifier)
        ensures
            r.state() == (PassView { cursor: current_id@, scopes: builder@, errors: errors@ }),
    {
        ItemVarIdentifier { errors, builder, current_id }
    }

    /// Hand back the collector, the builder and the cursor once the pass
    /// is done.
    pub fn into_parts(self) -> (r: (ErrorCollector, NameScopeBuilder, ScopedId))
        ensures
            self.state() == (PassView { cursor: r.2@, scopes: r.1@, errors: r.0@ }),
    {
        (self.errors, self.builder, self.current_id)
    }

    /// Resolve one whole unit: open the unit's scope, resolve every
    /// declaration in order, and advance the cursor once more, reserving
    /// a slot for a hypothetical next unit.
    pub fn visit_unit(&mut self, unit: &mut Unit)
        requires
            unit_ready(old(unit)@, old(self).state()),
        ensures
            final(unit)@ == resolve_unit(old(unit)@, old(self).state()).0,
            final(self).state() == resolve_unit(old(unit)@, old(self).state()).1,
    {
        let ghost st0 = self.state();
        let ghost f_unit = unit@;
        let ghost all = unit@.items;
        self.builder.new_scope();
        let ghost st_enter = self.state();
        let n = unit.items.len();
        proof {
            assert(all.skip(0) =~= all);
            assert(unit@.items.take(0) + resolve_items(all, st_enter).0 =~= resolve_items(
                all,
                st_enter,
            ).0);
        }
        let mut i: usize = 0;
        while i < n
            invariant
                i <= n,
                n == unit@.items.len(),
                all.len() == n,
                unit_ready(f_unit, st0),
                f_unit.items == all,
                st_enter.cursor == st0.cursor,
                st_enter.scopes.frames.len() > 0,
                forall|k: int| i <= k < n ==> unit@.items[k] == all[k],
                self.state().cursor.len() == st_enter.cursor.len(),
                self.state().cursor.drop_last() == st_enter.cursor.drop_last(),
                st_enter.cursor.last() <= self.state().cursor.last() <= st_enter.cursor.last()
                    + i,
                self.state().scopes.frames.len() == st_enter.scopes.frames.len(),
                resolve_items(all, st_enter).1 == resolve_items(
                    all.skip(i as int),
                    self.state(),
                ).1,
                resolve_items(all, st_enter).0 == unit@.items.take(i as int) + resolve_items(
                    all.skip(i as int),
                    self.state(),
                ).0,
            decreases n - i,
        {
            let ghost st_i = self.state();
            let ghost pre_items = unit@.items;
            proof {
                assert(item_unassigned(all[i as int]) && item_room(all[i as int]));
                assert(all.skip(i as int).first() == all[i as int]);
            }
            let item = &mut unit.items[i];
            self.visit_item(item);
            proof {
                lemma_resolve_item_shape(all[i as int], st_i);
                assert(all.skip(i as int).drop_first() =~= all.skip(i + 1));
                assert(unit@.items =~= pre_items.update(i as int, unit@.items[i as int]));
                assert(unit@.items.take(i + 1) =~= pre_items.take(i as int).push(
                    unit@.items[i as int],
                ));
                assert(pre_items.take(i as int) + (seq![
                    resolve_item(all[i as int], st_i).0,
                ] + resolve_items(all.skip(i + 1), self.state()).0) =~= (pre_items.take(i as int)
                    + seq![resolve_item(all[i as int], st_i).0]) + resolve_items(
                    all.skip(i + 1),
                    self.state(),
                ).0);
            }
            i = i + 1;
        }
        proof {
            assert(all.skip(n as int).len() == 0);
            assert(unit@.items.take(n as int) + all.skip(n as int) =~= unit@.items);
        }
        self.current_id.increment();
        proof {
            assert(self.state() == resolve_unit(f_unit, st0).1);
            assert(unit@ == resolve_unit(f_unit, st0).0);
        }
    }

    /// Dispatch one declaration to the handler for its kind; the kinds
    /// form a closed set, so the dispatch is a total match.
    pub fn visit_item(&mut self, item: &mut Item)
        requires
            old(self).state().cursor.len() > 0,
            old(self).state().cursor.last() < u64::MAX,
            old(self).state().scopes.frames.len() > 0,
            item_unassigned(old(item)@),
            item_room(old(item)@),
        ensures
            final(item)@ == resolve_item(old(item)@, old(self).state()).0,
            final(self).state() == resolve_item(old(item)@, old(self).state()).1,
    {
        match item {
            Item::BlockFn(f) => {
                self.visit_block_fn_decl(f);
            },
            Item::Typedef(t) => {
                self.visit_typedef(t);
            },
        }
    }

    /// Resolve one function declaration, stamping the function and its
    /// parameters, or abandoning the whole declaration when its name
    /// collides with a visible binding.
    pub fn visit_block_fn_decl(&mut self, block_fn: &mut BlockFnDeclaration)
        requires
            old(self).state().cursor.len() > 0,
            old(self).state().cursor.last() < u64::MAX,
            old(self).state().scopes.frames.len() > 0,
            old(block_fn)@.params.len() < u64::MAX,
            old(block_fn)@.ident.id is None,
            forall|i: int|
                0 <= i < old(block_fn)@.params.len() ==> (#[trigger] old(
                    block_fn,
                )@.params[i]).0.id is None,
        ensures
            final(block_fn)@ == resolve_block_fn(old(block_fn)@, old(self).state()).0,
            final(self).state() == resolve_block_fn(old(block_fn)@, old(self).state()).1,
    {
        let ghost st0 = self.state();
        let ghost f0 = block_fn@;
        let previous = self.builder.get(block_fn.name());
        match previous {
            Option::Some(previous_def_id) => {
                // The function's name is already declared: report it,
                // citing both spans, and abandon this declaration and its
                // parameters entirely.
                proof {
                    lemma_lookup_has_info(st0.scopes.frames, f0.ident.name);
                }
                let previous_span = self.builder.info_for(&previous_def_id).unwrap();
                let mut spans: Vec<Span> = Vec::new();
                spans.push(block_fn.span());
                spans.push(previous_span);
                let msg = "Function ".to_owned().concat(block_fn.name().as_str()).concat(
                    " is already declared",
                );
                let ghost d = DiagView { spans: spans@, message: msg@ };
                self.errors.add_error(CheckerError::new(spans, msg));
                proof {
                    assert(d.spans =~= resolve_block_fn(f0, st0).1.errors.last().spans);
                    assert(self.state().errors =~= st0.errors.push(
                        resolve_block_fn(f0, st0).1.errors.last(),
                    ));
                    assert(self.state() == resolve_block_fn(f0, st0).1);
                }
                return ;
            },
            Option::None => {},
        }
        // Assign the function the cursor's value and make it visible,
        // both in the unit's frame and globally, so it stays resolvable
        // after the unit's scope closes.
        let fn_id = self.current_id.snapshot();
        self.builder.define_local(block_fn.name().clone(), fn_id.snapshot(), block_fn.span());
        self.builder.define_global(block_fn.name().clone(), fn_id.snapshot(), block_fn.span());
        block_fn.set_id(fn_id);
        // Name the parameters one level deeper, in a scope of their own:
        // a function with id [.., k] numbers its parameters [.., k, 1]
        // through [.., k, p], keeping [.., k, 0] for its body's own level.
        self.current_id.push();
        self.current_id.increment();
        self.builder.new_scope();
        let ghost st2 = self.state();
        let ghost all = f0.params;
        let ghost fname = f0.ident.name;
        let ghost fspan = f0.ident.span;
        let n = block_fn.params.len();
        proof {
            assert(all.skip(0) =~= all);
            assert(block_fn@.params.take(0) + resolve_params(all, fname, fspan, st2).0
                =~= resolve_params(all, fname, fspan, st2).0);
        }
        let mut i: usize = 0;
        let mut aborted = false;
        while i < n && !aborted
            invariant
                i <= n,
                n == block_fn@.params.len(),
                all.len() == n,
                n < u64::MAX,
                st0.cursor.len() > 0,
                forall|k: int| 0 <= k < n ==> (#[trigger] all[k]).0.id is None,
                block_fn@.ident == (IdentView {
                    name: fname,
                    span: fspan,
                    id: Option::Some(st0.cursor),
                }),
                forall|k: int| i <= k < n ==> block_fn@.params[k] == all[k],
                self.state().scopes.frames.len() == st2.scopes.frames.len(),
                st2.scopes.frames.len() > 0,
                !aborted ==> self.state().cursor.len() == st0.cursor.len() + 1,
                !aborted ==> self.state().cursor.drop_last() == st0.cursor,
                !aborted ==> self.state().cursor.last() == i + 1,
                !aborted ==> resolve_params(all, fname, fspan, st2) == (
                    block_fn@.params.take(i as int) + resolve_params(
                        all.skip(i as int),
                        fname,
                        fspan,
                        self.state(),
                    ).0,
                    resolve_params(all.skip(i as int), fname, fspan, self.state()).1,
                ),
                aborted ==> resolve_params(all, fname, fspan, st2) == (
                    block_fn@.params,
                    self.state(),
                ),
            decreases n - i + (if aborted { 0int } else { 1int }),
        {
            let ghost st_i = self.state();
            let ghost pre_params = block_fn@.params;
            proof {
                assert(all.skip(i as int).first() == all[i as int]);
            }
            let pname = block_fn.params[i].0.name.clone();
            let pspan = block_fn.params[i].0.span;
            match self.builder.get(&pname) {
                Option::Some(previous_def_id) => {
                    // A duplicate parameter: report it, citing the new
                    // occurrence's span and the previous binding's span,
                    // and stop checking this function's remaining
                    // parameters; siblings at the unit level are
                    // unaffected.
                    proof {
                        lemma_lookup_has_info(st_i.scopes.frames, all[i as int].0.name);
                    }
                    let previous_span = self.builder.info_for(&previous_def_id).unwrap();
                    let ghost prev_span_spec = frames_rev_lookup(
                        st_i.scopes.frames,
                        frames_lookup(st_i.scopes.frames, all[i as int].0.name).unwrap().id,
                    ).unwrap().span;
                    let mut spans: Vec<Span> = Vec::new();
                    spans.push(pspan);
                    spans.push(previous_span);
                    let msg = "Parameter ".to_owned().concat(pname.as_str()).concat(
                        " of function ",
                    ).concat(block_fn.name().as_str()).concat(" is already declared");
                    let ghost d = DiagView { spans: spans@, message: msg@ };
                    self.errors.add_error(CheckerError::new(spans, msg));
                    aborted = true;
                    proof {
                        assert(d.spans =~= seq![all[i as int].0.span, prev_span_spec]);
                        assert(d.message == param_dup_message(all[i as int].0.name, fname));
                        assert(resolve_params(all.skip(i as int), fname, fspan, st_i) == (
                            all.skip(i as int),
                            with_error(st_i, d.spans, d.message),
                        ));
                        assert(self.state() == with_error(st_i, d.spans, d.message));
                        assert(block_fn@.params.take(i as int) + all.skip(i as int)
                            =~= block_fn@.params);
                    }
                },
                Option::None => {
                    let param_id = self.current_id.snapshot();
                    self.builder.define_local(pname.clone(), param_id.snapshot(), pspan);
                    // The parameter is also put in the global namespace,
                    // under "<function>::<param>", the only namespace
                    // visible outside the pass.
                    let qualified = block_fn.name().clone().concat("::").concat(pname.as_str());
                    self.builder.define_global(qualified, param_id.snapshot(), block_fn.span());
                    block_fn.params[i].0.set_id(param_id);
                    self.current_id.increment();
                    proof {
                        assert(all.skip(i as int).drop_first() =~= all.skip(i + 1));
                        assert(block_fn@.params =~= pre_params.update(
                            i as int,
                            block_fn@.params[i as int],
                        ));
                        assert(block_fn@.params.take(i + 1) =~= pre_params.take(i as int).push(
                            block_fn@.params[i as int],
                        ));
                        assert(pre_params.take(i as int) + (seq![
                            (
                                IdentView {
                                    name: all[i as int].0.name,
                                    span: all[i as int].0.span,
                                    id: Option::Some(st_i.cursor),
                                },
                                all[i as int].1,
                            ),
                        ] + resolve_params(all.skip(i + 1), fname, fspan, self.state()).0) =~= (
                        pre_params.take(i as int) + seq![
                            (
                                IdentView {
                                    name: all[i as int].0.name,
                                    span: all[i as int].0.span,
                                    id: Option::Some(st_i.cursor),
                                },
                                all[i as int].1,
                            ),
                        ]) + resolve_params(all.skip(i + 1), fname, fspan, self.state()).0);
                    }
                    i = i + 1;
                },
            }
        }
        proof {
            if !aborted {
                assert(all.skip(n as int).len() == 0);
                assert(block_fn@.params.take(n as int) + all.skip(n as int) =~= block_fn@.params);
            }
            assert(resolve_params(all, fname, fspan, st2) == (block_fn@.params, self.state()));
            lemma_resolve_params_shape(all, fname, fspan, st2);
        }
        // Close the parameter scope, return the cursor to the function's
        // level and advance it past this declaration.
        self.builder.pop();
        self.current_id.pop();
        self.current_id.increment();
        proof {
            assert(resolve_params(all, fname, fspan, st2).1.cursor.drop_last() =~= st0.cursor);
            assert(self.state() == resolve_block_fn(f0, st0).1);
            assert(block_fn@ == resolve_block_fn(f0, st0).0);
        }
    }

    /// Resolve one type alias at the global level only, or abandon its
    /// assignment when its name collides with a visible binding.
    pub fn visit_typedef(&mut self, typedef: &mut Typedef)
        requires
            old(self).state().cursor.len() > 0,
            old(self).state().cursor.last() < u64::MAX,
            old(typedef)@.ident.id is None,
        ensures
            final(typedef)@ == resolve_typedef(old(typedef)@, old(self).state()).0,
            final(self).state() == resolve_typedef(old(typedef)@, old(self).state()).1,
    {
        let ghost st0 = self.state();
        let ghost t0 = typedef@;
        let previous = self.builder.get(typedef.name());
        match previous {
            Option::Some(previous_def_id) => {
                // The alias's name is already declared among the visible
                // frames: report it, citing the new occurrence's span and
                // the previous definition's span, and abandon only this
                // alias's own assignment.
                proof {
                    lemma_lookup_has_info(st0.scopes.frames, t0.ident.name);
                }
                let previous_span = self.builder.info_for(&previous_def_id).unwrap();
                let mut spans: Vec<Span> = Vec::new();
                spans.push(typedef.span());
                spans.push(previous_span);
                let msg = "Type alias ".to_owned().concat(typedef.name().as_str()).concat(
                    " is already declared",
                );
                let ghost d = DiagView { spans: spans@, message: msg@ };
                self.errors.add_error(CheckerError::new(spans, msg));
                proof {
                    assert(d.spans =~= resolve_typedef(t0, st0).1.errors.last().spans);
                    assert(self.state().errors =~= st0.errors.push(
                        resolve_typedef(t0, st0).1.errors.last(),
                    ));
                    assert(self.state() == resolve_typedef(t0, st0).1);
                }
            },
            Option::None => {
                let id = self.current_id.snapshot();
                typedef.set_id(id.snapshot());
                self.builder.define_global(typedef.name().clone(), id, typedef.span());
                self.current_id.increment();
                proof {
                    assert(self.state() == resolve_typedef(t0, st0).1);
                    assert(typedef@ == resolve_typedef(t0, st0).0);
                }
            },
        }
    }
}

} // verus!
