use rvsdg::id;
use rvsdg::nodes::RecEnv;
use rvsdg::{Argument, Edge, Origin, TranslationUnitContext, User};

// fn fa x = fb (x + 1)
// fn fb y = fa (y - 1)
#[test]
fn phi() {
    let mut ctx = TranslationUnitContext::new();

    let fa = ctx.add_lambda_node();
    let fa_region = ctx.region(fa.node.id);
    let fa_fb_input = ctx.in_region(fa_region, |ctx| {
        let x = ctx.add_argument();
        let fb_input = ctx.add_input(fa.node);
        let fb = ctx.input_as_argument(fb_input);

        let num = ctx.add_number_node(1);

        let plus = ctx.add_placeholder_node("+");
        let plus_x = ctx.add_input(plus.node);
        let plus_y = ctx.add_input(plus.node);
        ctx.connect(x, plus_x);
        ctx.connect(num, plus_y);

        let apply = ctx.add_apply_node();
        let apply_output = ctx.add_output(apply.node);
        ctx.connect(fb, apply);

        let result = ctx.add_result();
        ctx.connect(apply_output, result);
        fb_input
    });

    let fb = ctx.add_lambda_node();
    let fb_region = ctx.region(fb.node.id);
    let fb_fa_input = ctx.in_region(fb_region, |ctx| {
        let x = ctx.add_argument();
        let fa_input = ctx.add_input(fb.node);
        let fa = ctx.input_as_argument(fa_input);

        let num = ctx.add_number_node(1);

        let minus = ctx.add_placeholder_node("-");
        let minus_x = ctx.add_input(minus.node);
        let minus_y = ctx.add_input(minus.node);
        ctx.connect(x, minus_x);
        ctx.connect(num, minus_y);

        let apply = ctx.add_apply_node();
        let apply_output = ctx.add_output(apply.node);
        ctx.connect(fa, apply);

        let result = ctx.add_result();
        ctx.connect(apply_output, result);
        fa_input
    });

    let recenv = ctx.add_recenv_node();
    let recenv_region = ctx.region(recenv.id);

    ctx.move_node(fa.node.id, recenv_region);
    ctx.move_node(fb.node.id, recenv_region);

    let (fa_arg, fb_arg, fa_out, fb_out) = ctx.in_region(recenv_region, |ctx| {
        let (fa_arg, fa_out) = ctx.move_lambda_to_recenv(fa.node);
        let (fb_arg, fb_out) = ctx.move_lambda_to_recenv(fb.node);
        (fa_arg, fb_arg, fa_out, fb_out)
    });

    // One output of the environment and one argument of its region for each lambda.
    assert_eq!(ctx.outputs(recenv.id).len(), 2);
    assert_eq!(ctx.arguments(recenv_region).len(), 2);
    assert_eq!(ctx.inputs(recenv.id).len(), 0);
    assert_eq!(fa_arg, id::Argument::from_u32(0));
    assert_eq!(fb_arg, id::Argument::from_u32(1));
    assert_eq!(fa_out.node.id, recenv.id);
    assert_eq!(fa_out.id, id::Output::from_u32(0));
    assert_eq!(fb_out.node.id, recenv.id);
    assert_eq!(fb_out.id, id::Output::from_u32(1));
    assert_eq!(ctx.nodes(recenv_region).to_vec(), vec![fa.node.id, fb.node.id]);
    assert_eq!(ctx.nodes(id::Region::from_u32(0)).to_vec(), vec![recenv.id]);
    let env: &RecEnv = ctx.get(recenv);
    assert_eq!(env.lambdas.len(), 2);
    assert_eq!(env.lambdas.get(&fa.node.id.as_u32()), Some(&(fa_arg, fa_out.id)));
    assert_eq!(env.lambdas.get(&fb.node.id.as_u32()), Some(&(fb_arg, fb_out.id)));

    // Neither lambda refers to the other through the environment yet.
    assert_eq!(ctx.get_lambda_in_recenv(recenv, fa.node, fb.node), Err(fb_arg));
    assert_eq!(ctx.get_lambda_in_recenv(recenv, fb.node, fa.node), Err(fa_arg));

    ctx.in_region(recenv_region, |ctx| {
        ctx.raw_connect_asserted(Argument { region: recenv_region, id: fb_arg }, fa_fb_input);
        ctx.raw_connect_asserted(Argument { region: recenv_region, id: fa_arg }, fb_fa_input);
    });

    // The apply inside each lambda takes the argument that stands for the
    // input of the lambda which the environment feeds with the other lambda.
    let in_fa = ctx.get_lambda_in_recenv(recenv, fa.node, fb.node);
    assert_eq!(in_fa, Ok(id::Argument::from_u32(1)));
    let in_fb = ctx.get_lambda_in_recenv(recenv, fb.node, fa.node);
    assert_eq!(in_fb, Ok(id::Argument::from_u32(1)));
    assert_eq!(ctx.get_lambda_in_recenv(recenv, fa.node, fa.node), Err(fa_arg));
    let callee_in_fa: Vec<Edge> = ctx
        .edges(fa_region)
        .iter()
        .filter(|e| e.origin == Origin::Argument(fa_region, id::Argument::from_u32(1)))
        .copied()
        .collect();
    assert_eq!(callee_in_fa.len(), 1);
    assert!(matches!(callee_in_fa[0].user, User::Input(_, i) if i == id::Input::from_u32(0)));
    assert_eq!(ctx.node_type(match callee_in_fa[0].user {
        User::Input(node, _) => node,
        User::Result(_, _) => recenv.id,
    }), "apply");
    assert_eq!(ctx.edges(fa_region).len(), 4);
    assert_eq!(ctx.edges(fb_region).len(), 4);
    assert_eq!(ctx.nodes(fa_region).len(), 3);
    assert_eq!(ctx.arguments(fa_region).len(), 2);
    assert_eq!(ctx.inputs(fa.node.id).len(), 1);

    let main = ctx.add_lambda_node();
    let main_region = ctx.region(main.node.id);
    let main_fa_input = ctx.add_input(main.node);
    ctx.connect(fa_out, main_fa_input);
    ctx.in_region(main_region, |ctx| {
        let main_fa_arg = ctx.input_as_argument(main_fa_input);

        let init = ctx.add_number_node(10);
        let apply = ctx.add_apply_node();
        ctx.connect(main_fa_arg, apply);
        ctx.connect(init, apply);

        let apply_output = ctx.add_output(apply.node);
        let result = ctx.add_result();
        ctx.connect(apply_output, result);
    });

    assert_eq!(
        ctx.edges(id::Region::from_u32(0)).to_vec(),
        vec![Edge {
            origin: Origin::Output(recenv.id, id::Output::from_u32(0)),
            user: User::Input(main.node.id, id::Input::from_u32(0)),
        }]
    );
    assert_eq!(ctx.edges(main_region).len(), 3);
    assert_eq!(ctx.inputs(main.node.id).len(), 1);
    assert_eq!(ctx.arguments(main_region).len(), 1);
    assert_eq!(ctx.region, id::Region::from_u32(0));
}

#[test]
fn binding_a_lambda_moves_it_to_the_end_of_the_environment() {
    let mut ctx = TranslationUnitContext::new();
    let env = ctx.add_recenv_node();
    let env_region = ctx.region(env.id);
    ctx.in_region(env_region, |ctx| {
        let first = ctx.add_lambda_node();
        let second = ctx.add_lambda_node();
        let (argument, output) = ctx.move_lambda_to_recenv(first.node);
        assert_eq!(argument, id::Argument::from_u32(0));
        assert_eq!(output.id, id::Output::from_u32(0));
        assert_eq!(ctx.nodes(env_region).to_vec(), vec![second.node.id, first.node.id]);
    });
    assert_eq!(ctx.node_type(env.id), "phi");
    assert_eq!(ctx.get(env).lambdas.len(), 1);
}

#[test]
fn first_matching_edge_of_the_environment_decides() {
    let mut ctx = TranslationUnitContext::new();
    let env = ctx.add_recenv_node();
    let env_region = ctx.region(env.id);
    let (caller, callee, callee_arg) = ctx.in_region(env_region, |ctx| {
        let caller = ctx.add_lambda_node();
        let callee = ctx.add_lambda_node();
        let caller_body = ctx.region(caller.node.id);
        ctx.in_region(caller_body, |ctx| {
            ctx.add_argument();
            ctx.add_argument();
        });
        let unrelated = ctx.add_argument();
        let (callee_arg, _) = ctx.move_lambda_to_recenv(callee.node);
        let a = ctx.add_input(caller.node);
        let b = ctx.add_input(caller.node);
        let c = ctx.add_input(caller.node);
        ctx.raw_connect_asserted(unrelated, a);
        ctx.raw_connect_asserted(Argument { region: env_region, id: callee_arg }, c);
        ctx.raw_connect_asserted(Argument { region: env_region, id: callee_arg }, b);
        (caller, callee, callee_arg)
    });
    assert_eq!(callee_arg, id::Argument::from_u32(1));
    // two arguments of the caller's own, then one for each input: input 2 is argument 4
    assert_eq!(
        ctx.get_lambda_in_recenv(env, caller.node, callee.node),
        Ok(id::Argument::from_u32(4))
    );
}
