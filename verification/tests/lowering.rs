use protocol_core::ast::{
    GraphIdent, MessageDecl, ProtocolGraph, Root, Span, Spanned, Sum, SumBind, SystemsDecl, Ty,
    TyDecl,
};
use protocol_core::intermediate::{
    self, intermediate_ast, IdentStyle, NamingConvention,
};

fn lsp(s: &str) -> Spanned<String> {
    Spanned { node: s.to_string(), span: Span { start: 0, end: 0 } }
}

fn lapply(name: &str, args: Vec<Ty>) -> Ty {
    Ty::TyApply(lsp(name), args)
}

fn lmsg(sender: &str, name: &str, t: Ty) -> MessageDecl {
    MessageDecl { sender: lsp(sender), name: lsp(name), t }
}

fn lident(name: &str) -> GraphIdent {
    GraphIdent::Identifier(name.to_string())
}

fn lgraph(nodes: &[GraphIdent], edges: &[(usize, usize)]) -> ProtocolGraph {
    let mut g: ProtocolGraph = petgraph::graph::Graph::new();
    let mut idx = Vec::new();
    for n in nodes {
        idx.push(g.add_node(Spanned { node: n.clone(), span: Span { start: 0, end: 0 } }));
    }
    for (a, b) in edges {
        g.add_edge(idx[*a], idx[*b], ());
    }
    g
}

fn reference_root() -> Root {
    let types = vec![
        TyDecl::Type(
            lsp("color"),
            Sum(vec![SumBind(lsp("red"), None), SumBind(lsp("blue"), None)]),
        ),
        TyDecl::Alias(
            lsp("place_column"),
            Ty::Product(vec![
                lapply("color", vec![]),
                lapply(
                    "integer",
                    vec![Ty::IntLiteral("0".to_string()), Ty::IntLiteral("7".to_string())],
                ),
            ]),
        ),
        TyDecl::Alias(lsp("game_state"), lapply("color", vec![])),
        TyDecl::Alias(lsp("game_over_state"), lapply("color", vec![])),
    ];
    let messages = vec![
        lmsg("gui", "place_disc", lapply("place_column", vec![])),
        lmsg("model", "update_board", lapply("game_state", vec![])),
        lmsg("model", "announce_game_over", lapply("game_over_state", vec![])),
    ];
    let graph = lgraph(
        &[
            GraphIdent::Connect,
            lident("place_disc"),
            lident("update_board"),
            lident("announce_game_over"),
            GraphIdent::Disconnect,
        ],
        &[(0, 1), (1, 2), (2, 1), (1, 3), (3, 4)],
    );
    Root { systems: SystemsDecl(lsp("gui"), lsp("model")), types, messages, graph }
}

fn verbatim() -> NamingConvention {
    NamingConvention {
        types: IdentStyle::Underscore,
        aliases: IdentStyle::Underscore,
        variant_labels: IdentStyle::Underscore,
        function_names: IdentStyle::Underscore,
    }
}

#[test]
fn lowering_model_has_recv_place_disc() {
    let root = reference_root();
    protocol_core::ast::validate(&root).unwrap();
    let ir = intermediate_ast(&root, "model", verbatim());
    // The model receives `connect` (the first exchange comes from gui) and
    // `place_disc`; it sends the other two messages.
    assert_eq!(ir.functions.len(), 2);
    assert_eq!(ir.functions[0].name, "recv_connect");
    let f = &ir.functions[1];
    assert_eq!(f.name, "recv_place_disc");
    // The argument is place_disc's payload type.
    match &f.arg {
        Some(intermediate::Ty::TyApply(name, args)) => {
            assert_eq!(name.as_str(), "place_column");
            assert!(args.is_empty());
        },
        other => panic!("unexpected argument shape: {:?}", other.is_some()),
    }
    // The response sum has one variant per successor of place_disc,
    // most recently declared edge first.
    assert_eq!(f.ret.0, "place_disc_response");
    let labels: Vec<&str> = f.ret.1.iter().map(|b| b.0.as_str()).collect();
    assert_eq!(labels, vec!["announce_game_over", "update_board"]);
    assert!(f.ret.1[0].1.is_some());
    assert!(f.ret.1[1].1.is_some());
}

#[test]
fn lowering_gui_receives_the_model_messages() {
    let root = reference_root();
    let ir = intermediate_ast(&root, "gui", verbatim());
    let names: Vec<&str> = ir.functions.iter().map(|f| f.name.as_str()).collect();
    assert_eq!(names, vec!["recv_update_board", "recv_announce_game_over"]);
    // announce_game_over's only successor is disconnect: a payload-less
    // variant.
    let f = &ir.functions[1];
    assert_eq!(f.ret.1.len(), 1);
    assert_eq!(f.ret.1[0].0, "disconnect");
    assert!(f.ret.1[0].1.is_none());
    // recv_connect is not generated for gui: gui itself opens the exchange.
    assert_eq!(ir.functions.len(), 2);
}

#[test]
fn lowering_renames_types_and_functions() {
    let root = reference_root();
    let naming = NamingConvention {
        types: IdentStyle::Pascal,
        aliases: IdentStyle::Pascal,
        variant_labels: IdentStyle::Underscore,
        function_names: IdentStyle::Camel,
    };
    let ir = intermediate_ast(&root, "model", naming);
    match &ir.types[0] {
        intermediate::TyDecl::Type(name, sum) => {
            assert_eq!(name.as_str(), "Color");
            assert_eq!(sum.len(), 2);
        },
        _ => panic!("first declaration should be the color sum type"),
    }
    match &ir.types[1] {
        intermediate::TyDecl::Alias(name, _) => assert_eq!(name.as_str(), "PlaceColumn"),
        _ => panic!("second declaration should be the place_column alias"),
    }
    assert_eq!(ir.functions[0].name, "recvConnect");
    assert_eq!(ir.functions[1].name, "recvPlaceDisc");
}

#[test]
fn lowering_is_deterministic() {
    let root = reference_root();
    let a = intermediate_ast(&root, "model", verbatim());
    let b = intermediate_ast(&root, "model", verbatim());
    assert_eq!(a.types.len(), b.types.len());
    assert_eq!(a.functions.len(), b.functions.len());
    for (fa, fb) in a.functions.iter().zip(b.functions.iter()) {
        assert_eq!(fa.name, fb.name);
        assert_eq!(fa.ret.0, fb.ret.0);
        let la: Vec<&str> = fa.ret.1.iter().map(|x| x.0.as_str()).collect();
        let lb: Vec<&str> = fb.ret.1.iter().map(|x| x.0.as_str()).collect();
        assert_eq!(la, lb);
    }
}

#[test]
fn lowering_one_skeleton_per_graph_position() {
    // One message at two graph positions with different successors yields
    // two distinct skeletons for the receiving system.
    let messages = vec![
        lmsg("gui", "ping", lapply("bool", vec![])),
        lmsg("model", "pong", lapply("bool", vec![])),
    ];
    // connect => ping => pong => ping => disconnect, with the two `ping`
    // occurrences as separate graph nodes.
    let graph = lgraph(
        &[
            GraphIdent::Connect,
            lident("ping"),
            lident("pong"),
            lident("ping"),
            GraphIdent::Disconnect,
        ],
        &[(0, 1), (1, 2), (2, 3), (3, 4)],
    );
    let root = Root {
        systems: SystemsDecl(lsp("gui"), lsp("model")),
        types: vec![],
        messages,
        graph,
    };
    let ir = intermediate_ast(&root, "model", verbatim());
    let names: Vec<&str> = ir.functions.iter().map(|f| f.name.as_str()).collect();
    assert_eq!(names, vec!["recv_connect", "recv_ping", "recv_ping"]);
    // The two ping skeletons answer differently: one with pong, one with
    // disconnect.
    assert_eq!(ir.functions[1].ret.1[0].0, "pong");
    assert_eq!(ir.functions[2].ret.1[0].0, "disconnect");
}
