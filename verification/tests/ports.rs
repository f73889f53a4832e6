use cranelift_entity::EntityRef;
use rvsdg::id;
use rvsdg::nodes::{
    Apply, DoWhile, GlobalV, Kind, Lambda, Number, Placeholder, RecEnv, TranslationUnit,
};
use rvsdg::{Argument, Edge, Input, NodeKind, Origin, Output, TranslationUnitContext, User};
use std::collections::HashMap;

#[test]
fn ids_keep_their_number() {
    assert_eq!(id::AnyNode::from_u32(7).as_u32(), 7);
    assert_eq!(id::Region::from_u32(8).as_u32(), 8);
    assert_eq!(id::Argument::from_u32(9).as_u32(), 9);
    assert_eq!(id::Result::from_u32(10).as_u32(), 10);
    assert_eq!(id::Input::from_u32(11).as_u32(), 11);
    assert_eq!(id::Output::from_u32(12).as_u32(), 12);
    assert_eq!(id::AnyNode::from_u32(3), id::AnyNode::from_u32(3));
    assert_ne!(id::AnyNode::from_u32(3), id::AnyNode::from_u32(4));
    assert_eq!(id::AnyNode::new(42).as_u32(), 42);
    assert_eq!(id::AnyNode::from_u32(42).index(), 42);
    assert_eq!(id::Region::new(5).as_u32(), 5);
    assert_eq!(id::Region::from_u32(5).index(), 5);
    assert_eq!(id::Node::<id::AnyNode>::from(id::AnyNode::from_u32(6)).id.as_u32(), 6);
    assert_eq!(id::Node::<Lambda>::new(id::AnyNode::from_u32(6)).clone().id.as_u32(), 6);
}

#[test]
fn ports_convert_to_the_ends_of_an_edge() {
    let node = id::AnyNode::from_u32(3);
    let region = id::Region::from_u32(2);
    let input = Input { node: id::Node::<Apply>::new(node), id: id::Input::from_u32(1) };
    let output = Output { node: id::Node::<Apply>::new(node), id: id::Output::from_u32(4) };
    let argument = Argument { region, id: id::Argument::from_u32(5) };
    let result = rvsdg::Result { region, id: id::Result::from_u32(6) };
    assert_eq!(User::from(input), User::Input(node, id::Input::from_u32(1)));
    assert_eq!(User::from(result), User::Result(region, id::Result::from_u32(6)));
    assert_eq!(Origin::from(output), Origin::Output(node, id::Output::from_u32(4)));
    assert_eq!(Origin::from(argument), Origin::Argument(region, id::Argument::from_u32(5)));
    let plain_input = input.downgrade();
    assert_eq!(plain_input.node.id, node);
    assert_eq!(plain_input.id, id::Input::from_u32(1));
    let plain_output = output.downgrade();
    assert_eq!(plain_output.node.id, node);
    assert_eq!(plain_output.id, id::Output::from_u32(4));
    let copy = input.clone();
    assert_eq!(copy.id, input.id);
    let copy = output.clone();
    assert_eq!(copy.id, output.id);
}

#[test]
fn kinds_have_their_classifier() {
    assert_eq!(Apply {}.node_type(), "apply");
    assert_eq!(DoWhile {}.node_type(), "theta");
    assert_eq!(GlobalV {}.node_type(), "delta");
    assert_eq!(Lambda {}.node_type(), "lambda");
    assert_eq!(Number(3).node_type(), "simple");
    assert_eq!(Placeholder("+").node_type(), "simple");
    assert_eq!(RecEnv { lambdas: HashMap::new() }.node_type(), "phi");
    assert_eq!(TranslationUnit { region: id::Region::from_u32(0) }.node_type(), "omega");
    assert_eq!(Number(3).into_kind().node_type(), "simple");
    assert_eq!(DoWhile {}.into_kind().node_type(), "theta");
    assert_eq!(TranslationUnit { region: id::Region::from_u32(0) }.into_kind().node_type(), "omega");
}

#[test]
fn a_kind_gives_back_its_own_record_only() {
    let mut kind = Number(5).into_kind();
    assert_eq!(Number::from_kind(&kind).map(|n| n.0), Some(5));
    assert!(Lambda::from_kind(&kind).is_none());
    assert!(Placeholder::from_kind(&kind).is_none());
    Number::from_kind_mut(&mut kind).unwrap().0 = 6;
    assert!(matches!(kind, Kind::Number(Number(6))));
    assert!(Apply::from_kind_mut(&mut kind).is_none());
    let mut name = Placeholder("x").into_kind();
    assert_eq!(Placeholder::from_kind(&name).map(|p| p.0), Some("x"));
    Placeholder::from_kind_mut(&mut name).unwrap().0 = "y";
    assert_eq!(Placeholder::from_kind(&name).map(|p| p.0), Some("y"));
}

#[test]
fn nodes_are_numbered_in_the_order_in_which_they_are_made() {
    let mut ctx = TranslationUnitContext::new();
    let number = ctx.add_number_node(5);
    let lambda = ctx.add_lambda_node();
    let (result, global) = ctx.add_globalv_node();
    let env = ctx.add_recenv_node();
    let apply = ctx.add_apply_node();
    let name = ctx.add_placeholder_node("todo");

    assert_eq!(number.node.id.as_u32(), 0);
    assert_eq!(lambda.node.id.as_u32(), 1);
    assert_eq!(global.node.id.as_u32(), 2);
    assert_eq!(env.id.as_u32(), 3);
    assert_eq!(apply.node.id.as_u32(), 4);
    assert_eq!(name.node.id.as_u32(), 5);
    assert_eq!(ctx.node_count(), 6);
    assert_eq!(ctx.region_count(), 4);
    let omega = id::Region::from_u32(0);
    assert_eq!(
        ctx.nodes(omega).to_vec(),
        (0..6).map(id::AnyNode::from_u32).collect::<Vec<_>>()
    );
    for n in 0..6 {
        assert_eq!(ctx.node_region(id::AnyNode::from_u32(n)), omega);
    }

    assert_eq!(ctx.node_type(number.node.id), "simple");
    assert_eq!(ctx.node_type(lambda.node.id), "lambda");
    assert_eq!(ctx.node_type(global.node.id), "delta");
    assert_eq!(ctx.node_type(env.id), "phi");
    assert_eq!(ctx.node_type(apply.node.id), "apply");
    assert_eq!(ctx.node_type(name.node.id), "simple");

    // number: no regions, one output
    assert_eq!(ctx.regions(number.node.id).len(), 0);
    assert_eq!(ctx.outputs(number.node.id), vec![id::Output::from_u32(0)]);
    assert_eq!(ctx.inputs(number.node.id).len(), 0);
    assert_eq!(number.id, id::Output::from_u32(0));
    // lambda: one region without ports, one output
    assert_eq!(ctx.regions(lambda.node.id).to_vec(), vec![id::Region::from_u32(1)]);
    assert_eq!(ctx.region(lambda.node.id), id::Region::from_u32(1));
    assert_eq!(ctx.outputs(lambda.node.id).len(), 1);
    assert_eq!(ctx.lambda_output(lambda.node), id::Output::from_u32(0));
    assert_eq!(ctx.arguments(id::Region::from_u32(1)).len(), 0);
    assert_eq!(ctx.results(id::Region::from_u32(1)).len(), 0);
    assert_eq!(ctx.container_node(id::Region::from_u32(1)), Some(lambda.node.id));
    // global value: one region with one result, one output
    assert_eq!(ctx.region(global.node.id), id::Region::from_u32(2));
    assert_eq!(ctx.results(id::Region::from_u32(2)), vec![id::Result::from_u32(0)]);
    assert_eq!(ctx.arguments(id::Region::from_u32(2)).len(), 0);
    assert_eq!(result, id::Result::from_u32(0));
    assert_eq!(ctx.outputs(global.node.id).len(), 1);
    assert_eq!(ctx.container_node(id::Region::from_u32(2)), Some(global.node.id));
    // recursion environment: one region, no ports, nothing bound
    assert_eq!(ctx.region(env.id), id::Region::from_u32(3));
    assert_eq!(ctx.outputs(env.id).len(), 0);
    assert_eq!(ctx.inputs(env.id).len(), 0);
    assert!(ctx.get(env).lambdas.is_empty());
    // apply: no regions, one input
    assert_eq!(ctx.regions(apply.node.id).len(), 0);
    assert_eq!(ctx.inputs(apply.node.id), vec![id::Input::from_u32(0)]);
    assert_eq!(ctx.outputs(apply.node.id).len(), 0);
    assert_eq!(apply.id, id::Input::from_u32(0));
    // placeholder: no regions, one output
    assert_eq!(ctx.regions(name.node.id).len(), 0);
    assert_eq!(ctx.outputs(name.node.id).len(), 1);
    assert_eq!(ctx.inputs(name.node.id).len(), 0);
}

#[test]
fn records_are_read_and_changed_by_kind() {
    let mut ctx = TranslationUnitContext::new();
    let number = ctx.add_number_node(-17);
    let name = ctx.add_placeholder_node("todo");
    assert_eq!(ctx.get(number.node).0, -17);
    assert_eq!(ctx.get(name.node).0, "todo");
    ctx.get_mut(number.node).0 = 99;
    assert_eq!(ctx.get(number.node).0, 99);
    assert_eq!(ctx.get(name.node).0, "todo");
    assert_eq!(ctx.outputs(number.node.id).len(), 1);
}

#[test]
fn a_node_made_by_hand_takes_the_regions_that_its_initializer_returns() {
    let mut ctx = TranslationUnitContext::new();
    let expected = id::AnyNode::from_u32(0);
    let node = ctx.add_node(|ctx: &mut TranslationUnitContext, preview: id::Node<DoWhile>| {
        assert_eq!(preview.id, expected);
        let body = ctx.add_region(2, 3);
        let other = ctx.add_region(0, 1);
        (DoWhile {}, [body, other])
    });
    assert_eq!(node.id, expected);
    assert_eq!(ctx.node_type(node.id), "theta");
    assert_eq!(
        ctx.regions(node.id).to_vec(),
        vec![id::Region::from_u32(1), id::Region::from_u32(2)]
    );
    assert_eq!(ctx.container_node(id::Region::from_u32(1)), Some(node.id));
    assert_eq!(ctx.container_node(id::Region::from_u32(2)), Some(node.id));
    assert_eq!(ctx.arguments(id::Region::from_u32(1)).len(), 2);
    assert_eq!(ctx.results(id::Region::from_u32(1)).len(), 3);
    assert_eq!(ctx.results(id::Region::from_u32(2)).len(), 1);
    assert_eq!(ctx.inputs(node.id).len(), 0);
    assert_eq!(ctx.outputs(node.id).len(), 0);
    assert_eq!(ctx.nodes(id::Region::from_u32(0)).to_vec(), vec![node.id]);
    assert_eq!(ctx.node_region(node.id), id::Region::from_u32(0));

    // an input of a node with two regions is an argument of both
    let input = ctx.add_input(node);
    assert_eq!(input.id, id::Input::from_u32(0));
    assert_eq!(ctx.arguments(id::Region::from_u32(1)).len(), 3);
    assert_eq!(ctx.arguments(id::Region::from_u32(2)).len(), 1);
    assert_eq!(ctx.arguments(id::Region::from_u32(0)).len(), 0);
}

#[test]
fn an_input_adds_one_argument_to_each_child_region_and_to_no_other() {
    let mut ctx = TranslationUnitContext::new();
    let lambda = ctx.add_lambda_node();
    let other = ctx.add_lambda_node();
    let body = ctx.region(lambda.node.id);
    let other_body = ctx.region(other.node.id);
    ctx.in_region(body, |ctx| {
        ctx.add_argument();
        ctx.add_argument();
    });
    let first = ctx.add_input(lambda.node);
    assert_eq!(first.id.as_u32(), 0);
    assert_eq!(first.node.id, lambda.node.id);
    assert_eq!(ctx.arguments(body).len(), 3);
    assert_eq!(ctx.arguments(other_body).len(), 0);
    let before = ctx.argument_as_input(body, id::Argument::from_u32(2)).map(|i| i.id);
    let second = ctx.add_input(lambda.node);
    assert_eq!(second.id.as_u32(), 1);
    assert_eq!(ctx.inputs(lambda.node.id).len(), 2);
    assert_eq!(ctx.arguments(body).len(), 4);
    assert_eq!(ctx.arguments(other_body).len(), 0);
    assert_eq!(ctx.inputs(other.node.id).len(), 0);
    // the argument that stood for the first input still does
    let after = ctx.argument_as_input(body, id::Argument::from_u32(2)).map(|i| i.id);
    assert_eq!(before, Some(id::Input::from_u32(0)));
    assert_eq!(after, before);
}

#[test]
fn input_and_argument_name_each_other() {
    let mut ctx = TranslationUnitContext::new();
    let lambda = ctx.add_lambda_node();
    let body = ctx.region(lambda.node.id);
    ctx.in_region(body, |ctx| {
        ctx.add_argument();
        ctx.add_argument();
    });
    for _ in 0..3 {
        ctx.add_input(lambda.node);
    }
    // two arguments of the region's own, then inputs 0, 1, 2 as arguments 2, 3, 4
    for k in 0..3 {
        let input = Input { node: lambda.node, id: id::Input::from_u32(k) };
        let argument = ctx.input_as_argument(input);
        assert_eq!(argument.region, body);
        assert_eq!(argument.id, id::Argument::from_u32(2 + k));
        let back = ctx.argument_as_input(argument.region, argument.id).unwrap();
        assert_eq!(back.node.id, lambda.node.id);
        assert_eq!(back.id, input.id);
    }
    assert!(ctx.argument_as_input(body, id::Argument::from_u32(0)).is_none());
    assert!(ctx.argument_as_input(body, id::Argument::from_u32(1)).is_none());
    // an argument added later is the region's own too: the inputs move up
    ctx.in_region(body, |ctx| {
        ctx.add_argument();
    });
    let moved = ctx.input_as_argument(Input { node: lambda.node, id: id::Input::from_u32(0) });
    assert_eq!(moved.id, id::Argument::from_u32(3));
    assert!(ctx.argument_as_input(body, id::Argument::from_u32(2)).is_none());
    // the root has no owner: none of its arguments stands for an input
    ctx.add_argument();
    assert!(ctx.argument_as_input(id::Region::from_u32(0), id::Argument::from_u32(0)).is_none());
}

#[test]
fn ports_are_numbered_from_zero() {
    let mut ctx = TranslationUnitContext::new();
    let node = ctx.add_placeholder_node("f");
    assert_eq!(ctx.add_output(node.node).id, id::Output::from_u32(1));
    assert_eq!(ctx.add_output(node.node).id, id::Output::from_u32(2));
    assert_eq!(ctx.add_input(node.node).id, id::Input::from_u32(0));
    assert_eq!(ctx.add_input(node.node).id, id::Input::from_u32(1));
    let a = ctx.add_argument();
    let b = ctx.add_argument();
    assert_eq!((a.region, a.id), (ctx.region, id::Argument::from_u32(0)));
    assert_eq!((b.region, b.id), (ctx.region, id::Argument::from_u32(1)));
    let r = ctx.add_result();
    let s = ctx.add_result();
    assert_eq!((r.region, r.id), (ctx.region, id::Result::from_u32(0)));
    assert_eq!((s.region, s.id), (ctx.region, id::Result::from_u32(1)));
    assert_eq!(
        ctx.outputs(node.node.id),
        vec![id::Output::from_u32(0), id::Output::from_u32(1), id::Output::from_u32(2)]
    );
    assert_eq!(ctx.inputs(node.node.id), vec![id::Input::from_u32(0), id::Input::from_u32(1)]);
    assert_eq!(
        ctx.arguments(ctx.region),
        vec![id::Argument::from_u32(0), id::Argument::from_u32(1)]
    );
    assert_eq!(ctx.results(ctx.region), vec![id::Result::from_u32(0), id::Result::from_u32(1)]);
}

#[test]
fn raw_connect_appends_in_order() {
    let mut ctx = TranslationUnitContext::new();
    let n = ctx.add_number_node(1);
    let m = ctx.add_number_node(2);
    let sink = ctx.add_placeholder_node("sink");
    let a = ctx.add_input(sink.node);
    let result = ctx.add_result();
    let argument = ctx.add_argument();
    ctx.raw_connect_asserted(m, a);
    ctx.raw_connect_asserted(n, result);
    ctx.raw_connect_asserted(argument, a);
    ctx.raw_connect_asserted(m, a);
    let omega = ctx.region;
    assert_eq!(
        ctx.edges(omega).to_vec(),
        vec![
            Edge { origin: Origin::Output(m.node.id, m.id), user: User::Input(sink.node.id, a.id) },
            Edge { origin: Origin::Output(n.node.id, n.id), user: User::Result(omega, result.id) },
            Edge { origin: Origin::Argument(omega, argument.id), user: User::Input(sink.node.id, a.id) },
            Edge { origin: Origin::Output(m.node.id, m.id), user: User::Input(sink.node.id, a.id) },
        ]
    );
    assert!(ctx.connection_exists(omega, Origin::Output(n.node.id, n.id), User::Result(omega, result.id)));
    assert!(!ctx.connection_exists(omega, Origin::Output(m.node.id, m.id), User::Result(omega, result.id)));
    assert!(ctx.holds(n.node.id));
    assert!(!ctx.holds(id::AnyNode::from_u32(17)));
}

#[test]
fn a_moved_node_leaves_its_place_and_goes_to_the_end() {
    let mut ctx = TranslationUnitContext::new();
    let a = ctx.add_number_node(1);
    let b = ctx.add_number_node(2);
    let c = ctx.add_number_node(3);
    let lambda = ctx.add_lambda_node();
    let body = ctx.region(lambda.node.id);
    let inside = ctx.in_region(body, |ctx| ctx.add_number_node(4));
    let omega = ctx.region;

    ctx.move_node(b.node.id, body);
    assert_eq!(ctx.nodes(omega).to_vec(), vec![a.node.id, c.node.id, lambda.node.id]);
    assert_eq!(ctx.nodes(body).to_vec(), vec![inside.node.id, b.node.id]);
    // the region in which the node was made and the owners of regions stay
    assert_eq!(ctx.node_region(b.node.id), omega);
    assert_eq!(ctx.container_node(body), Some(lambda.node.id));

    ctx.move_node(a.node.id, omega);
    assert_eq!(ctx.nodes(omega).to_vec(), vec![c.node.id, lambda.node.id, a.node.id]);
    assert_eq!(ctx.region, omega);
}

#[test]
fn names_are_stored_by_node() {
    let mut ctx = TranslationUnitContext::new();
    let a = ctx.add_number_node(1);
    let b = ctx.add_number_node(2);
    let c = ctx.add_number_node(3);
    assert_eq!(ctx.symbol(a.node.id), None);
    ctx.add_symbol(b.node.id, "two".to_string());
    // the table has grown up to the named node, with empty names before it
    assert_eq!(ctx.symbol(a.node.id).map(|s| s.as_str()), Some(""));
    assert_eq!(ctx.symbol(b.node.id).map(|s| s.as_str()), Some("two"));
    assert_eq!(ctx.symbol(c.node.id), None);
    ctx.add_symbol(b.node.id, "deux".to_string());
    ctx.add_symbol(a.node.id, "one".to_string());
    assert_eq!(ctx.symbol(a.node.id).map(|s| s.as_str()), Some("one"));
    assert_eq!(ctx.symbol(b.node.id).map(|s| s.as_str()), Some("deux"));
    assert_eq!(ctx.symbol(c.node.id), None);
    assert_eq!(ctx.node_count(), 3);
}

#[test]
fn regions_are_numbered_in_the_order_in_which_they_are_made() {
    let mut ctx = TranslationUnitContext::new();
    let first = ctx.add_region(1, 2);
    let second = ctx.add_region(3, 0);
    assert_eq!(first, id::Region::from_u32(1));
    assert_eq!(second, id::Region::from_u32(2));
    assert_eq!(ctx.region_count(), 3);
    assert_eq!(ctx.arguments(first).len(), 1);
    assert_eq!(ctx.results(first).len(), 2);
    assert_eq!(ctx.arguments(second).len(), 3);
    assert_eq!(ctx.results(second).len(), 0);
    assert_eq!(ctx.container_node(first), None);
    assert_eq!(ctx.nodes(first).len(), 0);
    assert_eq!(ctx.edges(second).len(), 0);
    assert_eq!(ctx.region, id::Region::from_u32(0));
}

#[test]
fn ids_are_written_with_their_kind_and_number() {
    assert_eq!(id::AnyNode::from_u32(0).to_string(), "node0");
    assert_eq!(id::AnyNode::from_u32(12).to_string(), "node12");
    assert_eq!(id::Region::from_u32(7).to_string(), "region7");
    assert_eq!(id::Argument::from_u32(10).to_string(), "a10");
    assert_eq!(id::Result::from_u32(909).to_string(), "r909");
    assert_eq!(id::Input::from_u32(4294967295).to_string(), "i4294967295");
    assert_eq!(id::Output::from_u32(1000000).to_string(), "o1000000");
    assert_eq!(id::label("x", 3456789012), "x3456789012");
}
