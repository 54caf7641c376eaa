use protosnirk::ast::{
    BlockFnDeclaration, Item, NamedTypeExpression, TypeExpression, Typedef, Unit,
};
use protosnirk::check::ErrorCollector;
use protosnirk::ident::{IdState, Identifier};
use protosnirk::identify::NameScopeBuilder;
use protosnirk::item_namer::ItemVarIdentifier;
use protosnirk::scoped_id::ScopedId;
use protosnirk::span::Span;

fn ident(name: &str, lo: usize) -> Identifier {
    Identifier::new(name.to_string(), Span::new(lo, lo + name.len()))
}

fn float_ty(lo: usize) -> TypeExpression {
    TypeExpression::Named(NamedTypeExpression::new(ident("float", lo)))
}

fn fn_decl(name: &str, lo: usize, params: &[&str]) -> Item {
    let mut ps = Vec::new();
    for (i, p) in params.iter().enumerate() {
        ps.push((ident(p, lo + 10 * (i + 1)), float_ty(lo + 10 * (i + 1) + 4)));
    }
    Item::BlockFn(BlockFnDeclaration::new(ident(name, lo), ps))
}

fn alias(name: &str, target: &str, lo: usize) -> Item {
    Item::Typedef(Typedef::new(ident(name, lo), TypeExpression::Named(NamedTypeExpression::new(
        ident(target, lo + 10),
    ))))
}

/// A non-default seed: the pass is handed `[1]`, so the first top-level
/// declaration cannot be mistaken for an unset id.
fn seed() -> ScopedId {
    let mut id = ScopedId::unset();
    id.push();
    id.increment();
    id
}

fn resolve(unit: &mut Unit) -> (ErrorCollector, NameScopeBuilder, ScopedId) {
    let mut namer = ItemVarIdentifier::new(ErrorCollector::new(), NameScopeBuilder::new(), seed());
    namer.visit_unit(unit);
    namer.into_parts()
}

fn id_of(state: &IdState) -> Vec<u64> {
    match state {
        IdState::Assigned(s) => s.components().clone(),
        IdState::Unassigned => panic!("id cell is unassigned"),
    }
}

fn opt_id(state: &IdState) -> Option<Vec<u64>> {
    match state {
        IdState::Assigned(s) => Some(s.components().clone()),
        IdState::Unassigned => None,
    }
}

fn as_fn(item: &Item) -> &BlockFnDeclaration {
    match item {
        Item::BlockFn(f) => f,
        Item::Typedef(_) => panic!("expected a function declaration"),
    }
}

fn as_alias(item: &Item) -> &Typedef {
    match item {
        Item::Typedef(t) => t,
        Item::BlockFn(_) => panic!("expected a type alias"),
    }
}

/// The last (overriding) global binding of a name, as a component path.
fn global_id(builder: &NameScopeBuilder, name: &str) -> Option<Vec<u64>> {
    let mut found = None;
    for b in builder.globals.iter() {
        if b.name == name {
            found = Some(b.id.components().clone());
        }
    }
    found
}

#[test]
fn single_function_exact_ids() {
    let mut unit = Unit::new(vec![fn_decl("f", 0, &["x", "y"])]);
    let (errors, builder, cursor) = resolve(&mut unit);
    assert_eq!(errors.errors.len(), 0);
    let f = as_fn(&unit.items[0]);
    assert_eq!(id_of(f.ident.id()), vec![1]);
    assert_eq!(id_of(f.params[0].0.id()), vec![1, 1]);
    assert_eq!(id_of(f.params[1].0.id()), vec![1, 2]);
    // The function is registered both locally and globally.
    assert_eq!(builder.get(&"f".to_string()).unwrap().components(), &vec![1]);
    assert_eq!(global_id(&builder, "f"), Some(vec![1]));
    // One item resolved, then the unit's own closing increment.
    assert_eq!(cursor.components().as_slice(), &[3]);
}

#[test]
fn nesting_first_param_one_level_deeper() {
    let mut unit = Unit::new(vec![fn_decl("g", 0, &["a"])]);
    let (_, _, _) = resolve(&mut unit);
    let g = as_fn(&unit.items[0]);
    let fn_id = id_of(g.ident.id());
    let mut expected = fn_id.clone();
    // The function's id with a zero appended, then advanced once.
    expected.push(0);
    *expected.last_mut().unwrap() += 1;
    assert_eq!(id_of(g.params[0].0.id()), expected);
    assert_eq!(expected, vec![1, 1]);
}

#[test]
fn rerun_with_same_seed_is_identical() {
    let build = || {
        Unit::new(vec![
            fn_decl("f", 0, &["x", "y"]),
            alias("T", "float", 100),
            fn_decl("g", 200, &["x"]),
            fn_decl("f", 300, &["z"]),
        ])
    };
    let mut first = build();
    let mut second = build();
    let (e1, b1, c1) = resolve(&mut first);
    let (e2, b2, c2) = resolve(&mut second);
    assert_eq!(c1.components(), c2.components());
    assert_eq!(e1.errors.len(), e2.errors.len());
    for (d1, d2) in e1.errors.iter().zip(e2.errors.iter()) {
        assert_eq!(d1.spans, d2.spans);
        assert_eq!(d1.text, d2.text);
    }
    assert_eq!(b1.globals.len(), b2.globals.len());
    for (g1, g2) in b1.globals.iter().zip(b2.globals.iter()) {
        assert_eq!(g1.name, g2.name);
        assert_eq!(g1.id.components(), g2.id.components());
        assert_eq!(g1.span, g2.span);
    }
    for (i1, i2) in first.items.iter().zip(second.items.iter()) {
        match (i1, i2) {
            (Item::BlockFn(f1), Item::BlockFn(f2)) => {
                assert_eq!(opt_id(f1.ident.id()), opt_id(f2.ident.id()));
                for (p1, p2) in f1.params.iter().zip(f2.params.iter()) {
                    assert_eq!(opt_id(p1.0.id()), opt_id(p2.0.id()));
                }
            },
            (Item::Typedef(t1), Item::Typedef(t2)) => {
                assert_eq!(opt_id(t1.ident.id()), opt_id(t2.ident.id()));
            },
            _ => panic!("differing item kinds"),
        }
    }
}

#[test]
fn duplicate_function_one_diagnostic_citing_both_spans() {
    let mut unit = Unit::new(vec![fn_decl("f", 0, &[]), fn_decl("f", 50, &[])]);
    let (errors, builder, _) = resolve(&mut unit);
    assert_eq!(errors.errors.len(), 1);
    let diag = &errors.errors[0];
    assert_eq!(diag.text, "Function f is already declared");
    // The new occurrence's span first, the previous definition's after.
    assert_eq!(diag.spans, vec![Span::new(50, 51), Span::new(0, 1)]);
    // The first f keeps a valid, globally registered id.
    assert_eq!(id_of(as_fn(&unit.items[0]).ident.id()), vec![1]);
    assert_eq!(global_id(&builder, "f"), Some(vec![1]));
    // The second f's id stays unset.
    assert!(matches!(as_fn(&unit.items[1]).ident.id(), IdState::Unassigned));
}

#[test]
fn duplicate_parameter_one_diagnostic_function_still_resolves() {
    let mut unit = Unit::new(vec![fn_decl("f", 0, &["x", "x"])]);
    let (errors, _, _) = resolve(&mut unit);
    assert_eq!(errors.errors.len(), 1);
    let diag = &errors.errors[0];
    assert_eq!(diag.text, "Parameter x of function f is already declared");
    // The second x's span first, the first x's binding span after it.
    assert_eq!(diag.spans, vec![Span::new(20, 21), Span::new(10, 11)]);
    let f = as_fn(&unit.items[0]);
    // f itself still receives a valid id, and so does the first x.
    assert_eq!(id_of(f.ident.id()), vec![1]);
    assert_eq!(id_of(f.params[0].0.id()), vec![1, 1]);
    // The second x is left unassigned.
    assert!(matches!(f.params[1].0.id(), IdState::Unassigned));
}

#[test]
fn duplicate_parameter_abandons_remaining_parameters() {
    let mut unit = Unit::new(vec![fn_decl("f", 0, &["x", "x", "z"]), fn_decl("g", 90, &[])]);
    let (errors, builder, _) = resolve(&mut unit);
    assert_eq!(errors.errors.len(), 1);
    let f = as_fn(&unit.items[0]);
    // z comes after the duplicate: unnumbered and unregistered.
    assert!(matches!(f.params[2].0.id(), IdState::Unassigned));
    assert_eq!(global_id(&builder, "f::z"), None);
    // Siblings at the unit level continue normally.
    assert_eq!(id_of(as_fn(&unit.items[1]).ident.id()), vec![2]);
}

#[test]
fn parameters_visible_globally_under_qualified_name() {
    let mut unit = Unit::new(vec![fn_decl("f", 0, &["x"])]);
    let (_, builder, _) = resolve(&mut unit);
    let f = as_fn(&unit.items[0]);
    // The global namespace holds "f::x", bound to the same id the pass
    // stamped on the parameter itself.
    assert_eq!(global_id(&builder, "f::x"), Some(id_of(f.params[0].0.id())));
    assert_eq!(global_id(&builder, "f::x"), Some(vec![1, 1]));
    // The bare name is local only and its frame has closed.
    assert_eq!(global_id(&builder, "x"), None);
}

#[test]
fn aliases_resolve_regardless_of_textual_order() {
    let mut unit = Unit::new(vec![alias("A", "B", 0), alias("B", "float", 40)]);
    let (errors, builder, _) = resolve(&mut unit);
    assert_eq!(errors.errors.len(), 0);
    let a = as_alias(&unit.items[0]);
    let b = as_alias(&unit.items[1]);
    let a_id = id_of(a.ident.id());
    let b_id = id_of(b.ident.id());
    assert_ne!(a_id, b_id);
    // A global lookup of A succeeds although B appears only afterward.
    assert_eq!(global_id(&builder, "A"), Some(a_id));
    assert_eq!(global_id(&builder, "B"), Some(b_id));
}

#[test]
fn alias_colliding_with_function_is_reported() {
    let mut unit = Unit::new(vec![fn_decl("A", 0, &[]), alias("A", "float", 30)]);
    let (errors, _, _) = resolve(&mut unit);
    assert_eq!(errors.errors.len(), 1);
    assert_eq!(errors.errors[0].text, "Type alias A is already declared");
    // The alias's own span first, the colliding function's after it.
    assert_eq!(errors.errors[0].spans, vec![Span::new(30, 31), Span::new(0, 1)]);
    assert!(matches!(as_alias(&unit.items[1]).ident.id(), IdState::Unassigned));
}

#[test]
fn abandoned_function_registers_none_of_its_parameters() {
    let mut unit = Unit::new(vec![fn_decl("f", 0, &[]), fn_decl("f", 60, &["unique1", "unique2"])]);
    let (errors, builder, _) = resolve(&mut unit);
    assert_eq!(errors.errors.len(), 1);
    let second = as_fn(&unit.items[1]);
    // The colliding function's parameters are individually unique, yet
    // none are visited, stamped, or registered globally.
    assert!(matches!(second.params[0].0.id(), IdState::Unassigned));
    assert!(matches!(second.params[1].0.id(), IdState::Unassigned));
    assert_eq!(global_id(&builder, "f::unique1"), None);
    assert_eq!(global_id(&builder, "f::unique2"), None);
}

#[test]
fn all_assigned_ids_in_a_unit_are_distinct() {
    let mut unit = Unit::new(vec![
        fn_decl("f", 0, &["x", "y"]),
        alias("T", "float", 100),
        fn_decl("g", 200, &["x", "z"]),
    ]);
    let (errors, _, _) = resolve(&mut unit);
    assert_eq!(errors.errors.len(), 0);
    let mut ids: Vec<Vec<u64>> = Vec::new();
    for item in unit.items.iter() {
        match item {
            Item::BlockFn(f) => {
                ids.push(id_of(f.ident.id()));
                for p in f.params.iter() {
                    ids.push(id_of(p.0.id()));
                }
            },
            Item::Typedef(t) => ids.push(id_of(t.ident.id())),
        }
    }
    for i in 0..ids.len() {
        for j in 0..ids.len() {
            if i != j {
                assert_ne!(ids[i], ids[j]);
            }
        }
    }
    assert_eq!(ids.len(), 7);
}

#[test]
fn empty_unit_still_advances_the_cursor() {
    let mut unit = Unit::new(Vec::new());
    let (errors, builder, cursor) = resolve(&mut unit);
    assert_eq!(errors.errors.len(), 0);
    assert_eq!(builder.globals.len(), 0);
    // The closing increment reserves a slot for a next unit.
    assert_eq!(cursor.components().as_slice(), &[2]);
}

#[test]
fn mixed_unit_exact_ids_in_order() {
    let mut unit = Unit::new(vec![
        fn_decl("f", 0, &["x"]),
        alias("T", "float", 100),
        fn_decl("g", 200, &["y"]),
    ]);
    let (errors, builder, cursor) = resolve(&mut unit);
    assert_eq!(errors.errors.len(), 0);
    assert_eq!(id_of(as_fn(&unit.items[0]).ident.id()), vec![1]);
    assert_eq!(id_of(as_fn(&unit.items[0]).params[0].0.id()), vec![1, 1]);
    assert_eq!(id_of(as_alias(&unit.items[1]).ident.id()), vec![2]);
    assert_eq!(id_of(as_fn(&unit.items[2]).ident.id()), vec![3]);
    assert_eq!(id_of(as_fn(&unit.items[2]).params[0].0.id()), vec![3, 1]);
    assert_eq!(global_id(&builder, "g::y"), Some(vec![3, 1]));
    assert_eq!(cursor.components().as_slice(), &[5]);
}

#[test]
fn function_remains_visible_to_get_after_the_pass() {
    let mut unit = Unit::new(vec![fn_decl("f", 0, &["x"])]);
    let (_, builder, _) = resolve(&mut unit);
    // The unit's frame is still open: the function resolves locally.
    assert!(builder.get(&"f".to_string()).is_some());
    // The parameter's frame has closed: the bare name does not.
    assert!(builder.get(&"x".to_string()).is_none());
}
