use rvsdg::id;
use rvsdg::{Argument, Edge, Origin, TranslationUnitContext, User};

fn edge(origin: Origin, user: User) -> Edge {
    Edge { origin, user }
}

#[test]
fn new_unit_has_the_root_region_only() {
    let ctx = TranslationUnitContext::new();
    assert_eq!(ctx.region, id::Region::from_u32(0));
    assert_eq!(ctx.region_count(), 1);
    assert_eq!(ctx.node_count(), 0);
    assert_eq!(ctx.arguments(ctx.region).len(), 0);
    assert_eq!(ctx.results(ctx.region).len(), 0);
    assert_eq!(ctx.nodes(ctx.region).len(), 0);
    assert_eq!(ctx.edges(ctx.region).len(), 0);
    assert_eq!(ctx.container_node(ctx.region), None);
}

#[test]
fn two_number_sum_placeholder() {
    let mut ctx = TranslationUnitContext::new();
    let lambda = ctx.add_lambda_node();
    let body = ctx.region(lambda.node.id);
    ctx.in_region(body, |ctx| {
        let x = ctx.add_argument();
        let num = ctx.add_number_node(1);
        let plus = ctx.add_placeholder_node("+");
        let plus_x = ctx.add_input(plus.node);
        let plus_y = ctx.add_input(plus.node);
        ctx.connect(x, plus_x);
        ctx.connect(num, plus_y);

        let apply = ctx.add_apply_node();
        let y = ctx.add_output(apply.node);
        let result = ctx.add_result();
        ctx.connect(y, result);
    });

    assert_eq!(ctx.inputs(lambda.node.id).len(), 0);
    assert_eq!(ctx.outputs(lambda.node.id).len(), 1);
    assert_eq!(ctx.arguments(body).len(), 1);
    assert_eq!(ctx.results(body).len(), 1);
    assert_eq!(ctx.nodes(body).len(), 3);
    assert_eq!(ctx.edges(body).len(), 3);
    assert_eq!(ctx.edges(ctx.region).len(), 0);
    assert_eq!(ctx.region, id::Region::from_u32(0));
}

#[test]
fn captured_variable() {
    let mut ctx = TranslationUnitContext::new();
    let omega = ctx.region;
    let n = ctx.add_number_node(42);
    let lambda = ctx.add_lambda_node();
    let body = ctx.region(lambda.node.id);
    let user = ctx.in_region(body, |ctx| {
        let user_node = ctx.add_placeholder_node("use");
        let user = ctx.add_input(user_node.node);
        ctx.connect(n, user);
        user
    });

    assert_eq!(ctx.inputs(lambda.node.id), vec![id::Input::from_u32(0)]);
    assert_eq!(ctx.arguments(body), vec![id::Argument::from_u32(0)]);
    assert_eq!(
        ctx.edges(omega).to_vec(),
        vec![edge(
            Origin::Output(n.node.id, n.id),
            User::Input(lambda.node.id, id::Input::from_u32(0))
        )]
    );
    assert_eq!(
        ctx.edges(body).to_vec(),
        vec![edge(
            Origin::Argument(body, id::Argument::from_u32(0)),
            User::Input(user.node.id, user.id)
        )]
    );
}

#[test]
fn captured_variable_comes_after_the_arguments_of_the_lambda() {
    let mut ctx = TranslationUnitContext::new();
    let omega = ctx.region;
    let n = ctx.add_number_node(42);
    let lambda = ctx.add_lambda_node();
    let body = ctx.region(lambda.node.id);
    let user = ctx.in_region(body, |ctx| {
        ctx.add_argument();
        ctx.add_argument();
        let user_node = ctx.add_placeholder_node("use");
        let user = ctx.add_input(user_node.node);
        assert!(ctx.try_connect(n, user));
        user
    });

    assert_eq!(ctx.inputs(lambda.node.id).len(), 1);
    assert_eq!(ctx.arguments(body).len(), 3);
    assert_eq!(
        ctx.edges(body).to_vec(),
        vec![edge(
            Origin::Argument(body, id::Argument::from_u32(2)),
            User::Input(user.node.id, user.id)
        )]
    );
    assert_eq!(ctx.edges(omega).len(), 1);
}

#[test]
fn two_level_capture() {
    let mut ctx = TranslationUnitContext::new();
    let omega = ctx.region;
    let n = ctx.add_number_node(7);
    let l1 = ctx.add_lambda_node();
    let r1 = ctx.region(l1.node.id);
    let (l2, r2, user) = ctx.in_region(r1, |ctx| {
        let l2 = ctx.add_lambda_node();
        let r2 = ctx.region(l2.node.id);
        let user = ctx.in_region(r2, |ctx| {
            let user_node = ctx.add_placeholder_node("use");
            let user = ctx.add_input(user_node.node);
            ctx.connect(n, user);
            user
        });
        (l2, r2, user)
    });

    assert_eq!(ctx.inputs(l1.node.id).len(), 1);
    assert_eq!(ctx.inputs(l2.node.id).len(), 1);
    assert_eq!(ctx.arguments(r1).len(), 1);
    assert_eq!(ctx.arguments(r2).len(), 1);
    assert_eq!(
        ctx.edges(omega).to_vec(),
        vec![edge(
            Origin::Output(n.node.id, n.id),
            User::Input(l1.node.id, id::Input::from_u32(0))
        )]
    );
    assert_eq!(
        ctx.edges(r1).to_vec(),
        vec![edge(
            Origin::Argument(r1, id::Argument::from_u32(0)),
            User::Input(l2.node.id, id::Input::from_u32(0))
        )]
    );
    assert_eq!(
        ctx.edges(r2).to_vec(),
        vec![edge(
            Origin::Argument(r2, id::Argument::from_u32(0)),
            User::Input(user.node.id, user.id)
        )]
    );
    assert_eq!(ctx.region, omega);
}

#[test]
fn argument_of_an_enclosing_region_is_forwarded() {
    let mut ctx = TranslationUnitContext::new();
    let outer = ctx.add_lambda_node();
    let outer_body = ctx.region(outer.node.id);
    let (x, inner, inner_body, user) = ctx.in_region(outer_body, |ctx| {
        let x = ctx.add_argument();
        let inner = ctx.add_lambda_node();
        let inner_body = ctx.region(inner.node.id);
        let user = ctx.in_region(inner_body, |ctx| {
            let user_node = ctx.add_placeholder_node("use");
            let user = ctx.add_input(user_node.node);
            assert!(ctx.try_connect(x, user));
            user
        });
        (x, inner, inner_body, user)
    });

    assert_eq!(ctx.inputs(outer.node.id).len(), 0);
    assert_eq!(ctx.inputs(inner.node.id).len(), 1);
    assert_eq!(
        ctx.edges(outer_body).to_vec(),
        vec![edge(
            Origin::Argument(x.region, x.id),
            User::Input(inner.node.id, id::Input::from_u32(0))
        )]
    );
    assert_eq!(
        ctx.edges(inner_body).to_vec(),
        vec![edge(
            Origin::Argument(inner_body, id::Argument::from_u32(0)),
            User::Input(user.node.id, user.id)
        )]
    );
}

#[test]
fn deduplicated_connect() {
    let mut ctx = TranslationUnitContext::new();
    let omega = ctx.region;
    let n = ctx.add_number_node(7);
    let l1 = ctx.add_lambda_node();
    let r1 = ctx.region(l1.node.id);
    let (l2, r2) = ctx.in_region(r1, |ctx| {
        let l2 = ctx.add_lambda_node();
        let r2 = ctx.region(l2.node.id);
        ctx.in_region(r2, |ctx| {
            let user_node = ctx.add_placeholder_node("use");
            let user = ctx.add_input(user_node.node);
            ctx.connect(n, user);
            ctx.connect(n, user);
            assert!(ctx.try_connect(n, user));
        });
        (l2, r2)
    });

    assert_eq!(ctx.edges(omega).len(), 1);
    assert_eq!(ctx.edges(r1).len(), 1);
    assert_eq!(ctx.edges(r2).len(), 1);
    assert_eq!(ctx.inputs(l1.node.id).len(), 1);
    assert_eq!(ctx.inputs(l2.node.id).len(), 1);
    assert_eq!(ctx.arguments(r1).len(), 1);
    assert_eq!(ctx.arguments(r2).len(), 1);
}

#[test]
fn connect_in_one_region_is_absorbed_the_second_time() {
    let mut ctx = TranslationUnitContext::new();
    let n = ctx.add_number_node(1);
    let plus = ctx.add_placeholder_node("+");
    let input = ctx.add_input(plus.node);
    ctx.connect(n, input);
    ctx.connect(n, input);
    assert_eq!(
        ctx.edges(ctx.region).to_vec(),
        vec![edge(Origin::Output(n.node.id, n.id), User::Input(plus.node.id, input.id))]
    );
}

#[test]
fn second_user_of_a_captured_value_gets_its_own_path() {
    let mut ctx = TranslationUnitContext::new();
    let n = ctx.add_number_node(7);
    let lambda = ctx.add_lambda_node();
    let body = ctx.region(lambda.node.id);
    ctx.in_region(body, |ctx| {
        let user_node = ctx.add_placeholder_node("use");
        let first = ctx.add_input(user_node.node);
        let second = ctx.add_input(user_node.node);
        ctx.connect(n, first);
        ctx.connect(n, second);
    });
    assert_eq!(ctx.inputs(lambda.node.id).len(), 2);
    assert_eq!(ctx.arguments(body).len(), 2);
    assert_eq!(ctx.edges(body).len(), 2);
    assert_eq!(ctx.edges(ctx.region).len(), 2);
}

#[test]
fn region_switch_restoration_under_failure() {
    let mut ctx = TranslationUnitContext::new();
    let omega = ctx.region;
    let first = ctx.add_lambda_node();
    let first_body = ctx.region(first.node.id);
    let hidden = ctx.in_region(first_body, |ctx| ctx.add_number_node(3));
    let second = ctx.add_lambda_node();
    let second_body = ctx.region(second.node.id);
    let inner = ctx.in_region(second_body, |ctx| ctx.add_lambda_node());
    let inner_body = ctx.region(inner.node.id);

    let connected = ctx.in_region(inner_body, |ctx| {
        let user_node = ctx.add_placeholder_node("use");
        let user = ctx.add_input(user_node.node);
        ctx.try_connect(hidden, user)
    });

    assert!(!connected);
    assert_eq!(ctx.region, omega);
    assert_eq!(ctx.inputs(second.node.id).len(), 0);
    assert_eq!(ctx.inputs(inner.node.id).len(), 0);
    assert_eq!(ctx.arguments(second_body).len(), 0);
    assert_eq!(ctx.arguments(inner_body).len(), 0);
    assert_eq!(ctx.edges(omega).len(), 0);
    assert_eq!(ctx.edges(first_body).len(), 0);
    assert_eq!(ctx.edges(second_body).len(), 0);
    assert_eq!(ctx.edges(inner_body).len(), 0);
}

#[test]
fn argument_of_a_region_beside_the_path_is_not_found() {
    let mut ctx = TranslationUnitContext::new();
    let first = ctx.add_lambda_node();
    let first_body = ctx.region(first.node.id);
    let x = ctx.in_region(first_body, |ctx| ctx.add_argument());
    let second = ctx.add_lambda_node();
    let second_body = ctx.region(second.node.id);
    let connected = ctx.in_region(second_body, |ctx| {
        let result = ctx.add_result();
        ctx.try_connect(x, result)
    });
    assert!(!connected);
    assert_eq!(ctx.inputs(second.node.id).len(), 0);
    assert_eq!(ctx.edges(second_body).len(), 0);
    assert_eq!(ctx.find_and_connect_argument(Argument { region: first_body, id: x.id }), None);
    assert_eq!(
        ctx.find_and_connect_output(first.node.id, first.id),
        Some(Origin::Output(first.node.id, first.id))
    );
}

#[test]
fn in_region_restores_the_current_region_and_returns_the_value() {
    let mut ctx = TranslationUnitContext::new();
    let lambda = ctx.add_lambda_node();
    let body = ctx.region(lambda.node.id);
    let seen = ctx.in_region(body, |ctx| {
        let nested = ctx.add_lambda_node();
        let nested_body = ctx.region(nested.node.id);
        let inner = ctx.in_region(nested_body, |ctx| ctx.region);
        (ctx.region, inner, nested_body)
    });
    assert_eq!(seen.0, body);
    assert_eq!(seen.1, seen.2);
    assert_eq!(ctx.region, id::Region::from_u32(0));
    ctx.switch_region(body);
    assert_eq!(ctx.region, body);
    assert_eq!(ctx.current_region(), body);
}

#[test]
fn every_stored_edge_joins_ports_that_its_region_sees() {
    let mut ctx = TranslationUnitContext::new();
    let n = ctx.add_number_node(7);
    let l1 = ctx.add_lambda_node();
    let r1 = ctx.region(l1.node.id);
    ctx.in_region(r1, |ctx| {
        let x = ctx.add_argument();
        let l2 = ctx.add_lambda_node();
        let r2 = ctx.region(l2.node.id);
        ctx.in_region(r2, |ctx| {
            let user_node = ctx.add_placeholder_node("use");
            let a = ctx.add_input(user_node.node);
            let b = ctx.add_input(user_node.node);
            ctx.connect(n, a);
            ctx.connect(x, b);
            let result = ctx.add_result();
            ctx.connect(user_node, result);
        });
    });

    let mut edges = 0;
    for r in 0..ctx.region_count() {
        let region = id::Region::from_u32(r as u32);
        let nodes = ctx.nodes(region).to_vec();
        for e in ctx.edges(region) {
            edges += 1;
            match e.origin {
                Origin::Output(node, _) => assert!(nodes.contains(&node)),
                Origin::Argument(named, _) => assert_eq!(named, region),
            }
            match e.user {
                User::Input(node, _) => assert!(nodes.contains(&node)),
                User::Result(named, _) => assert_eq!(named, region),
            }
        }
    }
    assert_eq!(edges, 6);
}

#[test]
fn every_region_hangs_below_the_root() {
    let mut ctx = TranslationUnitContext::new();
    let l1 = ctx.add_lambda_node();
    let r1 = ctx.region(l1.node.id);
    ctx.in_region(r1, |ctx| {
        let env = ctx.add_recenv_node();
        let env_region = ctx.region(env.id);
        ctx.in_region(env_region, |ctx| {
            ctx.add_globalv_node();
            ctx.add_lambda_node();
        });
    });
    assert_eq!(ctx.region_count(), 5);
    assert_eq!(ctx.container_node(id::Region::from_u32(0)), None);
    for r in 1..ctx.region_count() {
        let mut region = id::Region::from_u32(r as u32);
        let mut steps = 0;
        while let Some(owner) = ctx.container_node(region) {
            assert!(ctx.regions(owner).contains(&region));
            let parent = ctx.node_region(owner);
            assert!(parent.as_u32() < region.as_u32());
            region = parent;
            steps += 1;
        }
        assert_eq!(region, id::Region::from_u32(0));
        assert!(steps <= r);
    }
}
