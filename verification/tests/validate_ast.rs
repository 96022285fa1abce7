use protocol_core::ast::{
    basis, validate, validate_ty, GraphIdent, MessageDecl, ProtocolGraph, Root, Span, Spanned, Sum,
    SumBind, SystemsDecl, Ty, TyDecl, ValidateErrorKind,
};

fn sp(s: &str) -> Spanned<String> {
    Spanned { node: s.to_string(), span: Span { start: 0, end: 0 } }
}

fn apply(name: &str, args: Vec<Ty>) -> Ty {
    Ty::TyApply(sp(name), args)
}

fn msg(sender: &str, name: &str, t: Ty) -> MessageDecl {
    MessageDecl { sender: sp(sender), name: sp(name), t }
}

fn graph_of(nodes: &[GraphIdent], edges: &[(usize, usize)]) -> ProtocolGraph {
    let mut g: ProtocolGraph = petgraph::graph::Graph::new();
    let mut idx = Vec::new();
    for n in nodes {
        idx.push(g.add_node(Spanned { node: n.clone(), span: Span { start: 0, end: 0 } }));
    }
    for (a, b) in edges {
        g.add_edge(idx[*a], idx[*b], ());
    }
    g
}

fn ident(name: &str) -> GraphIdent {
    GraphIdent::Identifier(name.to_string())
}

/// The reference two-system protocol: systems `gui`/`model`, two sum types,
/// three aliases, three messages, and the five-node graph.
fn example_root() -> Root {
    let types = vec![
        TyDecl::Type(
            sp("color"),
            Sum(vec![SumBind(sp("red"), None), SumBind(sp("blue"), None)]),
        ),
        TyDecl::Type(
            sp("maybecolor"),
            Sum(vec![
                SumBind(sp("red"), None),
                SumBind(sp("blue"), None),
                SumBind(sp("neither"), None),
            ]),
        ),
        TyDecl::Alias(
            sp("place_column"),
            Ty::Product(vec![
                apply("color", vec![]),
                apply(
                    "integer",
                    vec![Ty::IntLiteral("0".to_string()), Ty::IntLiteral("7".to_string())],
                ),
            ]),
        ),
        TyDecl::Alias(
            sp("game_state"),
            Ty::Product(vec![
                apply("color", vec![]),
                apply(
                    "array",
                    vec![
                        apply(
                            "array",
                            vec![apply("maybecolor", vec![]), Ty::IntLiteral("6".to_string())],
                        ),
                        Ty::IntLiteral("7".to_string()),
                    ],
                ),
            ]),
        ),
        TyDecl::Alias(
            sp("game_over_state"),
            Ty::Product(vec![apply("maybecolor", vec![]), apply("game_state", vec![])]),
        ),
    ];
    let messages = vec![
        msg("gui", "place_disc", apply("place_column", vec![])),
        msg("model", "update_board", apply("game_state", vec![])),
        msg("model", "announce_game_over", apply("game_over_state", vec![])),
    ];
    // connect => place_disc => update_board => place_disc;
    // place_disc => announce_game_over => disconnect;
    let graph = graph_of(
        &[
            GraphIdent::Connect,
            ident("place_disc"),
            ident("update_board"),
            ident("announce_game_over"),
            GraphIdent::Disconnect,
        ],
        &[(0, 1), (1, 2), (2, 1), (1, 3), (3, 4)],
    );
    Root { systems: SystemsDecl(sp("gui"), sp("model")), types, messages, graph }
}

#[test]
fn example_pass() {
    let root = example_root();
    validate(&root).unwrap();
    assert_eq!(root.systems.0.node, "gui".to_string());
    assert_eq!(root.systems.1.node, "model".to_string());
    assert_eq!(root.types.len(), 5);
    assert_eq!(root.messages.len(), 3);
    assert_eq!(root.graph.node_count(), 5);
    assert_eq!(root.graph.edge_count(), 5);
}

#[test]
fn connect_ident_disconnect_pass() {
    let root = Root {
        systems: SystemsDecl(sp("gui"), sp("model")),
        types: vec![],
        messages: vec![msg("model", "istrue", apply("bool", vec![]))],
        graph: graph_of(
            &[GraphIdent::Connect, ident("istrue"), GraphIdent::Disconnect],
            &[(0, 1), (1, 2)],
        ),
    };
    validate(&root).unwrap();
}

fn one_message_root(graph: ProtocolGraph) -> Root {
    Root {
        systems: SystemsDecl(sp("gui"), sp("model")),
        types: vec![],
        messages: vec![msg("model", "name", apply("bool", vec![]))],
        graph,
    }
}

#[test]
fn validate_connect_loop_err() {
    // connect => name => disconnect; connect => connect;
    let graph = graph_of(
        &[GraphIdent::Connect, ident("name"), GraphIdent::Disconnect],
        &[(0, 1), (1, 2), (0, 0)],
    );
    let e = validate(&one_message_root(graph)).unwrap_err();
    assert_eq!(e.kind, ValidateErrorKind::ConnectTargetInvalid);
}

#[test]
fn validate_connect_disconnect_err() {
    // connect => name => disconnect; connect => disconnect;
    let graph = graph_of(
        &[GraphIdent::Connect, ident("name"), GraphIdent::Disconnect],
        &[(0, 1), (1, 2), (0, 2)],
    );
    let e = validate(&one_message_root(graph)).unwrap_err();
    assert_eq!(e.kind, ValidateErrorKind::ConnectTargetInvalid);
}

fn two_message_root(graph: ProtocolGraph) -> Root {
    Root {
        systems: SystemsDecl(sp("gui"), sp("model")),
        types: vec![],
        messages: vec![
            msg("model", "hi", apply("bool", vec![])),
            msg("gui", "sup", apply("bool", vec![])),
        ],
        graph,
    }
}

#[test]
fn validate_missing_connect_err() {
    // hi => sup => disconnect;
    let graph = graph_of(
        &[ident("hi"), ident("sup"), GraphIdent::Disconnect],
        &[(0, 1), (1, 2)],
    );
    let e = validate(&two_message_root(graph)).unwrap_err();
    assert_eq!(e.kind, ValidateErrorKind::MissingConnectNode);
}

#[test]
fn validate_connect_incoming_edge_err() {
    // connect => hi => disconnect; hi => sup => connect;
    let graph = graph_of(
        &[GraphIdent::Connect, ident("hi"), GraphIdent::Disconnect, ident("sup")],
        &[(0, 1), (1, 2), (1, 3), (3, 0)],
    );
    let e = validate(&two_message_root(graph)).unwrap_err();
    assert_eq!(e.kind, ValidateErrorKind::ConnectHasIncoming);
}

#[test]
fn validate_same_system_adjacent_err() {
    // Both hi and sup are sent by model: hi => sup breaks turn alternation.
    let graph = graph_of(
        &[GraphIdent::Connect, ident("hi"), ident("sup"), GraphIdent::Disconnect],
        &[(0, 1), (1, 2), (2, 3)],
    );
    let root = Root {
        systems: SystemsDecl(sp("gui"), sp("model")),
        types: vec![],
        messages: vec![
            msg("model", "hi", apply("bool", vec![])),
            msg("model", "sup", apply("bool", vec![])),
        ],
        graph,
    };
    let e = validate(&root).unwrap_err();
    assert_eq!(e.kind, ValidateErrorKind::SameSystemAdjacent);
}

fn minimal_graph() -> ProtocolGraph {
    graph_of(
        &[GraphIdent::Connect, ident("m"), GraphIdent::Disconnect],
        &[(0, 1), (1, 2)],
    )
}

fn root_with(types: Vec<TyDecl>, messages: Vec<MessageDecl>) -> Root {
    Root { systems: SystemsDecl(sp("gui"), sp("model")), types, messages, graph: minimal_graph() }
}

#[test]
fn validate_arity_mismatch_err() {
    let root = root_with(
        vec![],
        vec![msg("gui", "m", apply("integer", vec![Ty::IntLiteral("0".to_string())]))],
    );
    let e = validate(&root).unwrap_err();
    assert_eq!(e.kind, ValidateErrorKind::ArityMismatch { expected: 2, actual: 1 });
}

#[test]
fn validate_kind_mismatch_err() {
    // `integer` wants two integer literals, not a type.
    let root = root_with(
        vec![],
        vec![msg(
            "gui",
            "m",
            apply("integer", vec![apply("bool", vec![]), Ty::IntLiteral("7".to_string())]),
        )],
    );
    let e = validate(&root).unwrap_err();
    assert_eq!(e.kind, ValidateErrorKind::KindMismatch);
}

#[test]
fn validate_unknown_type_err() {
    let root = root_with(vec![], vec![msg("gui", "m", apply("nosuch", vec![]))]);
    let e = validate(&root).unwrap_err();
    assert_eq!(e.kind, ValidateErrorKind::UnknownType);
}

#[test]
fn validate_duplicate_variant_err() {
    let root = root_with(
        vec![TyDecl::Type(
            sp("color"),
            Sum(vec![SumBind(sp("red"), None), SumBind(sp("red"), None)]),
        )],
        vec![msg("gui", "m", apply("bool", vec![]))],
    );
    let e = validate(&root).unwrap_err();
    assert_eq!(e.kind, ValidateErrorKind::DuplicateVariantLabel);
}

#[test]
fn validate_name_collision_with_basis_err() {
    let root = root_with(
        vec![TyDecl::Type(sp("bool"), Sum(vec![SumBind(sp("yes"), None)]))],
        vec![msg("gui", "m", apply("bool", vec![]))],
    );
    let e = validate(&root).unwrap_err();
    assert_eq!(e.kind, ValidateErrorKind::NameCollision);
}

#[test]
fn validate_alias_forward_reference_err() {
    // Aliases must be declared before use: the environment grows in order.
    let root = root_with(
        vec![
            TyDecl::Alias(sp("early"), apply("late", vec![])),
            TyDecl::Alias(sp("late"), apply("bool", vec![])),
        ],
        vec![msg("gui", "m", apply("bool", vec![]))],
    );
    let e = validate(&root).unwrap_err();
    assert_eq!(e.kind, ValidateErrorKind::UnknownType);
}

#[test]
fn validate_bare_integer_payload_err() {
    let root = root_with(vec![], vec![msg("gui", "m", Ty::IntLiteral("3".to_string()))]);
    let e = validate(&root).unwrap_err();
    assert_eq!(e.kind, ValidateErrorKind::UnexpectedBareIntegerPayload);
}

#[test]
fn validate_sender_not_a_system_err() {
    let root = root_with(vec![], vec![msg("robot", "m", apply("bool", vec![]))]);
    let e = validate(&root).unwrap_err();
    assert_eq!(e.kind, ValidateErrorKind::SenderNotASystem);
}

#[test]
fn validate_duplicate_message_name_err() {
    let root = root_with(
        vec![],
        vec![
            msg("gui", "m", apply("bool", vec![])),
            msg("model", "m", apply("bool", vec![])),
        ],
    );
    let e = validate(&root).unwrap_err();
    assert_eq!(e.kind, ValidateErrorKind::DuplicateMessageName);
}

#[test]
fn validate_duplicate_connect_err() {
    let graph = graph_of(
        &[GraphIdent::Connect, ident("m"), GraphIdent::Connect],
        &[(0, 1)],
    );
    let root = Root {
        systems: SystemsDecl(sp("gui"), sp("model")),
        types: vec![],
        messages: vec![msg("model", "m", apply("bool", vec![]))],
        graph,
    };
    let e = validate(&root).unwrap_err();
    assert_eq!(e.kind, ValidateErrorKind::DuplicateConnectNode);
}

#[test]
fn validate_connect_missing_outgoing_err() {
    let graph = graph_of(&[GraphIdent::Connect, ident("m")], &[]);
    let root = Root {
        systems: SystemsDecl(sp("gui"), sp("model")),
        types: vec![],
        messages: vec![msg("model", "m", apply("bool", vec![]))],
        graph,
    };
    let e = validate(&root).unwrap_err();
    assert_eq!(e.kind, ValidateErrorKind::ConnectMissingOutgoing);
}

#[test]
fn validate_disconnect_outgoing_err() {
    let graph = graph_of(
        &[GraphIdent::Connect, ident("m"), GraphIdent::Disconnect],
        &[(0, 1), (1, 2), (2, 1)],
    );
    let root = Root {
        systems: SystemsDecl(sp("gui"), sp("model")),
        types: vec![],
        messages: vec![msg("model", "m", apply("bool", vec![]))],
        graph,
    };
    let e = validate(&root).unwrap_err();
    assert_eq!(e.kind, ValidateErrorKind::DisconnectHasOutgoing);
}

#[test]
fn validate_unknown_message_err() {
    let graph = graph_of(
        &[GraphIdent::Connect, ident("m"), ident("ghostly"), GraphIdent::Disconnect],
        &[(0, 1), (1, 3)],
    );
    let root = Root {
        systems: SystemsDecl(sp("gui"), sp("model")),
        types: vec![],
        messages: vec![msg("model", "m", apply("bool", vec![]))],
        graph,
    };
    let e = validate(&root).unwrap_err();
    assert_eq!(e.kind, ValidateErrorKind::UnknownMessage);
}

#[test]
fn basis_has_the_eight_builtins() {
    let b = basis();
    let names: Vec<&str> = b.iter().map(|t| t.name.as_str()).collect();
    assert_eq!(
        names,
        vec!["bool", "integer", "float", "double", "blob", "unicode", "array", "vector"]
    );
    assert_eq!(b[1].params.len(), 2);
    assert_eq!(b[6].params.len(), 2);
    assert_eq!(b[7].params.len(), 1);
    assert_eq!(b[0].params.len(), 0);
}

#[test]
fn validate_ty_accepts_nested_vector() {
    let b = basis();
    let aliases: Vec<String> = vec![];
    let t = apply("vector", vec![apply("vector", vec![apply("unicode", vec![])])]);
    validate_ty(&t, &b, &aliases).unwrap();
}

#[test]
fn validate_ty_error_spans_point_at_name() {
    let b = basis();
    let aliases: Vec<String> = vec![];
    let t = Ty::TyApply(
        Spanned { node: "nosuch".to_string(), span: Span { start: 11, end: 17 } },
        vec![],
    );
    let e = validate_ty(&t, &b, &aliases).unwrap_err();
    assert_eq!(e.kind, ValidateErrorKind::UnknownType);
    assert_eq!(e.span, Span { start: 11, end: 17 });
}
