//! The abstract syntax tree of the protocol language and its validator.
//!
//! A program declares two systems, a list of type and alias declarations,
//! a list of messages, and a directed graph over message names (plus the
//! `connect` / `disconnect` sentinels) giving the legal message orderings.
//! `validate` checks all of it and reports the first violation.

use vstd::prelude::*;

verus! {

/// A source location: a byte-offset pair `(start, end)`.
#[derive(Debug, Clone, Copy, PartialEq, Eq, Structural)]
pub struct Span {
    pub start: usize,
    pub end: usize,
}

impl Span {
    /// The sentinel span carried by purely structural errors.
    pub fn sentinel() -> (r: Span)
        ensures
            r == (Span { start: 0, end: 0 }),
    {
        Span { start: 0, end: 0 }
    }
}

/// A syntactic element together with its source span.
#[derive(Clone)]
pub struct Spanned<T> {
    pub node: T,
    pub span: Span,
}

/// The names of the two communicating systems.
pub struct SystemsDecl(pub Spanned<String>, pub Spanned<String>);

/// A user declaration: a sum type or a named alias for a type expression.
pub enum TyDecl {
    Type(Spanned<String>, Sum),
    Alias(Spanned<String>, Ty),
}

/// The ordered variants of a sum type.
pub struct Sum(pub Vec<SumBind>);

/// One variant of a sum type: a label and an optional payload type.
pub struct SumBind(pub Spanned<String>, pub Option<Ty>);

/// A type expression.
pub enum Ty {
    /// An integer literal, legal only as a type-constructor argument.
    IntLiteral(String),
    /// A constructor application; with no arguments it may also name an alias.
    TyApply(Spanned<String>, Vec<Ty>),
    /// A product of at least two types (an internal invariant, not user-checked).
    Product(Vec<Ty>),
}

/// A message declaration: which system sends it, its name, and its payload type.
pub struct MessageDecl {
    pub sender: Spanned<String>,
    pub name: Spanned<String>,
    pub t: Ty,
}

/// A node of the protocol graph: a message name or one of the two sentinels.
#[derive(Debug, PartialEq, Eq, Hash, Clone)]
pub enum GraphIdent {
    Identifier(String),
    Connect,
    Disconnect,
}

/// The protocol graph: nodes carry spanned graph identifiers, edges mean
/// "may legally be followed by".
pub type ProtocolGraph = petgraph::graph::Graph<Spanned<GraphIdent>, ()>;

/// A whole parsed program.
pub struct Root {
    pub systems: SystemsDecl,
    pub types: Vec<TyDecl>,
    pub messages: Vec<MessageDecl>,
    pub graph: ProtocolGraph,
}

/// The parameter kind of one argument position of a type constructor.
#[derive(Copy, Clone)]
pub enum TyArg {
    /// Matches a `TyApply` or `Product` argument.
    Generic,
    /// Matches only an `IntLiteral` argument.
    Integer,
}

/// One known type constructor: its name and its parameter kinds.
pub struct TyconSig {
    pub name: String,
    pub params: Vec<TyArg>,
}

/// Why validation rejected a program.
#[derive(Debug, Clone, PartialEq, Eq, Structural)]
pub enum ValidateErrorKind {
    /// A `TyApply` names neither a known constructor nor (nullary) a known alias.
    UnknownType,
    /// A constructor was applied to the wrong number of arguments.
    ArityMismatch { expected: usize, actual: usize },
    /// A constructor argument has the wrong kind at its position.
    KindMismatch,
    /// A sum type uses the same variant label twice.
    DuplicateVariantLabel,
    /// A declaration reuses a type or alias name (basis names included).
    NameCollision,
    /// A message payload is a bare integer literal.
    UnexpectedBareIntegerPayload,
    /// A message sender is not one of the two declared systems.
    SenderNotASystem,
    /// Two messages share a name.
    DuplicateMessageName,
    /// A graph identifier names no declared message.
    UnknownMessage,
    /// The graph has no `Connect` node.
    MissingConnectNode,
    /// The graph has more than one `Connect` node.
    DuplicateConnectNode,
    /// The `Connect` node has no outgoing edge.
    ConnectMissingOutgoing,
    /// An edge leaves `Connect` for a node that is not an `Identifier`.
    ConnectTargetInvalid,
    /// An edge enters the `Connect` node.
    ConnectHasIncoming,
    /// An edge leaves a `Disconnect` node.
    DisconnectHasOutgoing,
    /// Two adjacent `Identifier` nodes are sent by the same system.
    SameSystemAdjacent,
}

/// The first violation validation found, with the most specific span
/// available; purely structural errors carry the sentinel span `(0, 0)`.
#[derive(Debug, Clone, PartialEq, Eq, Structural)]
pub struct ValidateError {
    pub kind: ValidateErrorKind,
    pub span: Span,
}

/// The known-constructor environment as validation sees it: name and
/// parameter kinds per constructor, in registration order.
pub open spec fn env_view(env: Seq<TyconSig>) -> Seq<(Seq<char>, Seq<TyArg>)> {
    env.map_values(|t: TyconSig| (t.name@, t.params@))
}

/// The known-alias environment as validation sees it: alias names in
/// registration order.
pub open spec fn alias_view(aliases: Seq<String>) -> Seq<Seq<char>> {
    aliases.map_values(|s: String| s@)
}

/// The built-in constructor table of the type basis.
pub open spec fn spec_basis() -> Seq<(Seq<char>, Seq<TyArg>)> {
    seq![
        ("bool"@, Seq::<TyArg>::empty()),
        ("integer"@, seq![TyArg::Integer, TyArg::Integer]),
        ("float"@, Seq::<TyArg>::empty()),
        ("double"@, Seq::<TyArg>::empty()),
        ("blob"@, Seq::<TyArg>::empty()),
        ("unicode"@, Seq::<TyArg>::empty()),
        ("array"@, seq![TyArg::Generic, TyArg::Integer]),
        ("vector"@, seq![TyArg::Generic]),
    ]
}

/// The parameter kinds of the first constructor named `name`, if any.
pub open spec fn lookup_tycon(env: Seq<(Seq<char>, Seq<TyArg>)>, name: Seq<char>) -> Option<
    Seq<TyArg>,
>
    decreases env.len(),
{
    if env.len() == 0 {
        None
    } else if env[0].0 == name {
        Some(env[0].1)
    } else {
        lookup_tycon(env.drop_first(), name)
    }
}

/// Whether `name` is a known alias.
pub open spec fn has_alias(aliases: Seq<Seq<char>>, name: Seq<char>) -> bool {
    exists|i: int| 0 <= i < aliases.len() && aliases[i] == name
}

/// Whether a constructor argument has the kind its position demands.
pub open spec fn kind_matches(arg: Ty, k: TyArg) -> bool {
    match (arg, k) {
        (Ty::IntLiteral(_), TyArg::Integer) => true,
        (Ty::TyApply(_, _), TyArg::Generic) => true,
        (Ty::Product(_), TyArg::Generic) => true,
        _ => false,
    }
}

/// Structural well-formedness of a type expression: every product in it has
/// at least two factors. The parser establishes this; a violation is an
/// internal defect, not a user error.
pub open spec fn ty_wf(ty: Ty) -> bool
    decreases ty,
{
    match ty {
        Ty::IntLiteral(_) => true,
        Ty::TyApply(_, args) => forall|i: int| 0 <= i < args@.len() ==> ty_wf(#[trigger] args@[i]),
        Ty::Product(tys) => tys@.len() >= 2 && (forall|i: int|
            0 <= i < tys@.len() ==> ty_wf(#[trigger] tys@[i])),
    }
}

/// What validating the arguments of a constructor application from position
/// `i` on returns: the first kind mismatch (reported at the application's
/// span) or the first invalid argument decides.
pub open spec fn spec_validate_apply_args(
    args: Seq<Ty>,
    params: Seq<TyArg>,
    span: Span,
    env: Seq<(Seq<char>, Seq<TyArg>)>,
    aliases: Seq<Seq<char>>,
    i: int,
) -> Result<(), ValidateError>
    decreases args, args.len() - i,
{
    if i < 0 || i >= args.len() {
        Ok(())
    } else if !kind_matches(args[i], params[i]) {
        Err(ValidateError { kind: ValidateErrorKind::KindMismatch, span })
    } else {
        match spec_validate_ty(args[i], env, aliases) {
            Err(e) => Err(e),
            Ok(u) => spec_validate_apply_args(args, params, span, env, aliases, i + 1),
        }
    }
}

/// What validating the factors of a product from position `i` on returns.
pub open spec fn spec_validate_product(
    tys: Seq<Ty>,
    env: Seq<(Seq<char>, Seq<TyArg>)>,
    aliases: Seq<Seq<char>>,
    i: int,
) -> Result<(), ValidateError>
    decreases tys, tys.len() - i,
{
    if i < 0 || i >= tys.len() {
        Ok(())
    } else {
        match spec_validate_ty(tys[i], env, aliases) {
            Err(e) => Err(e),
            Ok(u) => spec_validate_product(tys, env, aliases, i + 1),
        }
    }
}

/// What validating a type expression returns.
///
/// An integer literal is always accepted. An application of a known
/// constructor must match its arity and per-position kinds, and its
/// arguments must be valid in turn; an application of an unknown name is
/// accepted exactly when it has no arguments and names a known alias.
/// A product is valid when all of its factors are.
pub open spec fn spec_validate_ty(
    ty: Ty,
    env: Seq<(Seq<char>, Seq<TyArg>)>,
    aliases: Seq<Seq<char>>,
) -> Result<(), ValidateError>
    decreases ty, 0int,
{
    match ty {
        Ty::IntLiteral(_) => Ok(()),
        Ty::TyApply(sident, args) => match lookup_tycon(env, sident.node@) {
            Some(params) => {
                if args@.len() == params.len() {
                    spec_validate_apply_args(args@, params, sident.span, env, aliases, 0)
                } else {
                    Err(
                        ValidateError {
                            kind: ValidateErrorKind::ArityMismatch {
                                expected: params.len() as usize,
                                actual: args@.len() as usize,
                            },
                            span: sident.span,
                        },
                    )
                }
            },
            None => {
                if args@.len() == 0 && has_alias(aliases, sident.node@) {
                    Ok(())
                } else {
                    Err(ValidateError { kind: ValidateErrorKind::UnknownType, span: sident.span })
                }
            },
        },
        Ty::Product(tys) => spec_validate_product(tys@, env, aliases, 0),
    }
}

/// What checking the variants of one sum type from position `i` on returns:
/// a repeated label is reported at the repeating variant's span, and each
/// variant's payload must be a valid type.
pub open spec fn spec_check_sum(
    binds: Seq<SumBind>,
    env: Seq<(Seq<char>, Seq<TyArg>)>,
    aliases: Seq<Seq<char>>,
    i: int,
) -> Result<(), ValidateError>
    decreases binds.len() - i,
{
    if i < 0 || i >= binds.len() {
        Ok(())
    } else if exists|j: int| 0 <= j < i && binds[j].0.node@ == binds[i].0.node@ {
        Err(ValidateError { kind: ValidateErrorKind::DuplicateVariantLabel, span: binds[i].0.span })
    } else {
        match binds[i].1 {
            Some(t) => match spec_validate_ty(t, env, aliases) {
                Err(e) => Err(e),
                Ok(u) => spec_check_sum(binds, env, aliases, i + 1),
            },
            None => spec_check_sum(binds, env, aliases, i + 1),
        }
    }
}

/// What processing the declaration list from position `i` on returns: the
/// environments grown by the remaining declarations, or the first error.
/// A sum type registers its name as a new zero-arity constructor, an alias
/// registers its name as an alias; either name must be fresh across both
/// environments (the basis included).
pub open spec fn spec_check_decls(
    types: Seq<TyDecl>,
    env: Seq<(Seq<char>, Seq<TyArg>)>,
    aliases: Seq<Seq<char>>,
    i: int,
) -> Result<(Seq<(Seq<char>, Seq<TyArg>)>, Seq<Seq<char>>), ValidateError>
    decreases types.len() - i,
{
    if i < 0 || i >= types.len() {
        Ok((env, aliases))
    } else {
        match types[i] {
            TyDecl::Type(name, sum) => match spec_check_sum(sum.0@, env, aliases, 0) {
                Err(e) => Err(e),
                Ok(u) => {
                    if lookup_tycon(env, name.node@) is Some || has_alias(aliases, name.node@) {
                        Err(
                            ValidateError {
                                kind: ValidateErrorKind::NameCollision,
                                span: name.span,
                            },
                        )
                    } else {
                        spec_check_decls(
                            types,
                            env.push((name.node@, Seq::<TyArg>::empty())),
                            aliases,
                            i + 1,
                        )
                    }
                },
            },
            TyDecl::Alias(name, ty) => match spec_validate_ty(ty, env, aliases) {
                Err(e) => Err(e),
                Ok(u) => {
                    if lookup_tycon(env, name.node@) is Some || has_alias(aliases, name.node@) {
                        Err(
                            ValidateError {
                                kind: ValidateErrorKind::NameCollision,
                                span: name.span,
                            },
                        )
                    } else {
                        spec_check_decls(types, env, aliases.push(name.node@), i + 1)
                    }
                },
            },
        }
    }
}

/// What checking the message list from position `i` on returns: each sender
/// must be one of the two systems, each name must be new, and the payload
/// must be a valid type that is not a bare integer literal.
pub open spec fn spec_check_messages(
    msgs: Seq<MessageDecl>,
    sys_a: Seq<char>,
    sys_b: Seq<char>,
    env: Seq<(Seq<char>, Seq<TyArg>)>,
    aliases: Seq<Seq<char>>,
    i: int,
) -> Result<(), ValidateError>
    decreases msgs.len() - i,
{
    if i < 0 || i >= msgs.len() {
        Ok(())
    } else {
        let m = msgs[i];
        if m.sender.node@ != sys_a && m.sender.node@ != sys_b {
            Err(ValidateError { kind: ValidateErrorKind::SenderNotASystem, span: m.sender.span })
        } else if exists|j: int| 0 <= j < i && msgs[j].name.node@ == m.name.node@ {
            Err(ValidateError { kind: ValidateErrorKind::DuplicateMessageName, span: m.name.span })
        } else if m.t is IntLiteral {
            Err(
                ValidateError {
                    kind: ValidateErrorKind::UnexpectedBareIntegerPayload,
                    span: m.name.span,
                },
            )
        } else {
            match spec_validate_ty(m.t, env, aliases) {
                Err(e) => Err(e),
                Ok(u) => spec_check_messages(msgs, sys_a, sys_b, env, aliases, i + 1),
            }
        }
    }
}

/// The first declared message named `name`, if any.
pub open spec fn msg_lookup(msgs: Seq<MessageDecl>, name: Seq<char>) -> Option<MessageDecl>
    decreases msgs.len(),
{
    if msgs.len() == 0 {
        None
    } else if msgs[0].name.node@ == name {
        Some(msgs[0])
    } else {
        msg_lookup(msgs.drop_first(), name)
    }
}

/// The sender of the first declared message named `name`, if any.
pub open spec fn msg_sender(msgs: Seq<MessageDecl>, name: Seq<char>) -> Option<Seq<char>> {
    match msg_lookup(msgs, name) {
        Some(m) => Some(m.sender.node@),
        None => None,
    }
}

/// The index of the first `Connect` node at or after position `i`, if any.
pub open spec fn first_connect_from(nodes: Seq<Spanned<GraphIdent>>, i: int) -> Option<int>
    decreases nodes.len() - i,
{
    if i < 0 || i >= nodes.len() {
        None
    } else if nodes[i].node is Connect {
        Some(i)
    } else {
        first_connect_from(nodes, i + 1)
    }
}

/// Whether some edge leaves node `src`.
pub open spec fn has_edge_from(edges: Seq<(usize, usize)>, src: int) -> bool {
    exists|k: int| 0 <= k < edges.len() && edges[k].0 == src
}

/// Whether some edge enters node `dst`.
pub open spec fn has_edge_to(edges: Seq<(usize, usize)>, dst: int) -> bool {
    exists|k: int| 0 <= k < edges.len() && edges[k].1 == dst
}

/// Whether some edge leaves node `c` for a node that is not an `Identifier`.
pub open spec fn connect_bad_target(
    nodes: Seq<Spanned<GraphIdent>>,
    edges: Seq<(usize, usize)>,
    c: int,
) -> bool {
    exists|k: int|
        0 <= k < edges.len() && edges[k].0 == c && !(nodes[edges[k].1 as int].node is Identifier)
}

/// The index of the first `Disconnect` node at or after position `i` that
/// has an outgoing edge, if any.
pub open spec fn first_disconnect_out(
    nodes: Seq<Spanned<GraphIdent>>,
    edges: Seq<(usize, usize)>,
    i: int,
) -> Option<int>
    decreases nodes.len() - i,
{
    if i < 0 || i >= nodes.len() {
        None
    } else if nodes[i].node is Disconnect && has_edge_from(edges, i) {
        Some(i)
    } else {
        first_disconnect_out(nodes, edges, i + 1)
    }
}

/// The index of the first `Identifier` node at or after position `i` whose
/// name matches no declared message, if any.
pub open spec fn first_unknown_ident(
    nodes: Seq<Spanned<GraphIdent>>,
    msgs: Seq<MessageDecl>,
    i: int,
) -> Option<int>
    decreases nodes.len() - i,
{
    if i < 0 || i >= nodes.len() {
        None
    } else if nodes[i].node is Identifier && msg_sender(msgs, nodes[i].node->Identifier_0@)
        is None {
        Some(i)
    } else {
        first_unknown_ident(nodes, msgs, i + 1)
    }
}

/// Whether edge `k` joins two `Identifier` nodes whose messages are sent by
/// the same system.
pub open spec fn same_system_edge(
    nodes: Seq<Spanned<GraphIdent>>,
    edges: Seq<(usize, usize)>,
    msgs: Seq<MessageDecl>,
    k: int,
) -> bool {
    let a = edges[k].0 as int;
    let b = edges[k].1 as int;
    &&& nodes[a].node is Identifier
    &&& nodes[b].node is Identifier
    &&& msg_sender(msgs, nodes[a].node->Identifier_0@) is Some
    &&& msg_sender(msgs, nodes[a].node->Identifier_0@) == msg_sender(
        msgs,
        nodes[b].node->Identifier_0@,
    )
}

/// Whether some edge of the graph breaks turn alternation.
pub open spec fn has_same_system_edge(
    nodes: Seq<Spanned<GraphIdent>>,
    edges: Seq<(usize, usize)>,
    msgs: Seq<MessageDecl>,
) -> bool {
    exists|k: int| 0 <= k < edges.len() && same_system_edge(nodes, edges, msgs, k)
}

/// The sentinel span of purely structural graph errors.
pub open spec fn spec_sentinel() -> Span {
    Span { start: 0, end: 0 }
}

/// What checking the protocol graph returns.
///
/// There must be exactly one `Connect` node; it needs at least one outgoing
/// edge, every one of them must lead to an `Identifier` node, and no edge
/// may enter it. No edge may leave a `Disconnect` node. Every `Identifier`
/// node must name a declared message, and adjacent `Identifier` nodes must
/// be sent by different systems.
pub open spec fn spec_check_graph(
    nodes: Seq<Spanned<GraphIdent>>,
    edges: Seq<(usize, usize)>,
    msgs: Seq<MessageDecl>,
) -> Result<(), ValidateError> {
    match first_connect_from(nodes, 0) {
        None => Err(
            ValidateError { kind: ValidateErrorKind::MissingConnectNode, span: spec_sentinel() },
        ),
        Some(c) => {
            if exists|j: int| c < j < nodes.len() && nodes[j].node is Connect {
                Err(
                    ValidateError {
                        kind: ValidateErrorKind::DuplicateConnectNode,
                        span: spec_sentinel(),
                    },
                )
            } else if !has_edge_from(edges, c) {
                Err(
                    ValidateError {
                        kind: ValidateErrorKind::ConnectMissingOutgoing,
                        span: nodes[c].span,
                    },
                )
            } else if connect_bad_target(nodes, edges, c) {
                Err(
                    ValidateError {
                        kind: ValidateErrorKind::ConnectTargetInvalid,
                        span: spec_sentinel(),
                    },
                )
            } else if has_edge_to(edges, c) {
                Err(
                    ValidateError {
                        kind: ValidateErrorKind::ConnectHasIncoming,
                        span: nodes[c].span,
                    },
                )
            } else {
                match first_disconnect_out(nodes, edges, 0) {
                    Some(d) => Err(
                        ValidateError {
                            kind: ValidateErrorKind::DisconnectHasOutgoing,
                            span: nodes[d].span,
                        },
                    ),
                    None => match first_unknown_ident(nodes, msgs, 0) {
                        Some(u) => Err(
                            ValidateError {
                                kind: ValidateErrorKind::UnknownMessage,
                                span: nodes[u].span,
                            },
                        ),
                        None => {
                            if has_same_system_edge(nodes, edges, msgs) {
                                Err(
                                    ValidateError {
                                        kind: ValidateErrorKind::SameSystemAdjacent,
                                        span: spec_sentinel(),
                                    },
                                )
                            } else {
                                Ok(())
                            }
                        },
                    },
                }
            }
        },
    }
}

/// Structural well-formedness of one declaration: every type expression in
/// it satisfies `ty_wf`.
pub open spec fn decl_wf(d: TyDecl) -> bool {
    match d {
        TyDecl::Type(name, sum) => forall|j: int|
            0 <= j < sum.0@.len() ==> match #[trigger] sum.0@[j].1 {
                Some(t) => ty_wf(t),
                None => true,
            },
        TyDecl::Alias(name, ty) => ty_wf(ty),
    }
}

/// Structural well-formedness of a declaration list.
pub open spec fn decls_wf(types: Seq<TyDecl>) -> bool {
    forall|i: int| 0 <= i < types.len() ==> decl_wf(#[trigger] types[i])
}

/// Structural well-formedness of a message list.
pub open spec fn msgs_wf(msgs: Seq<MessageDecl>) -> bool {
    forall|i: int| 0 <= i < msgs.len() ==> ty_wf(#[trigger] msgs[i].t)
}

/// Structural well-formedness of a whole program: every type expression in
/// it satisfies `ty_wf`. The parser establishes this.
pub open spec fn root_wf(root: Root) -> bool {
    decls_wf(root.types@) && msgs_wf(root.messages@)
}

/// What validating a whole program returns: the declaration, message and
/// graph phases run in that order and the first violation decides.
pub open spec fn spec_validate(root: Root) -> Result<(), ValidateError> {
    match spec_check_decls(root.types@, spec_basis(), Seq::<Seq<char>>::empty(), 0) {
        Err(e) => Err(e),
        Ok(envs) => match spec_check_messages(
            root.messages@,
            root.systems.0.node@,
            root.systems.1.node@,
            envs.0,
            envs.1,
            0,
        ) {
            Err(e) => Err(e),
            Ok(u) => spec_check_graph(
                crate::graph::graph_nodes(root.graph),
                crate::graph::graph_edges(root.graph),
                root.messages@,
            ),
        },
    }
}

/// The registry of built-in type constructors.
pub fn basis() -> (r: Vec<TyconSig>)
    ensures
        env_view(r@) == spec_basis(),
{
    let mut v: Vec<TyconSig> = Vec::new();
    v.push(TyconSig { name: "bool".to_owned(), params: Vec::new() });
    v.push(TyconSig { name: "integer".to_owned(), params: vec![TyArg::Integer, TyArg::Integer] });
    v.push(TyconSig { name: "float".to_owned(), params: Vec::new() });
    v.push(TyconSig { name: "double".to_owned(), params: Vec::new() });
    v.push(TyconSig { name: "blob".to_owned(), params: Vec::new() });
    v.push(TyconSig { name: "unicode".to_owned(), params: Vec::new() });
    v.push(TyconSig { name: "array".to_owned(), params: vec![TyArg::Generic, TyArg::Integer] });
    v.push(TyconSig { name: "vector".to_owned(), params: vec![TyArg::Generic] });
    proof {
        assert(env_view(v@) =~~= spec_basis());
    }
    v
}

/// Skipping a prefix in which no entry matches does not change the lookup.
proof fn lemma_lookup_skip(env: Seq<(Seq<char>, Seq<TyArg>)>, name: Seq<char>, i: int)
    requires
        0 <= i <= env.len(),
        forall|j: int| 0 <= j < i ==> env[j].0 != name,
    ensures
        lookup_tycon(env, name) == lookup_tycon(env.skip(i), name),
    decreases i,
{
    if i > 0 {
        assert(env.skip(0) =~= env);
        lemma_lookup_skip(env.drop_first(), name, i - 1);
        assert(env.drop_first().skip(i - 1) =~= env.skip(i));
    } else {
        assert(env.skip(0) =~= env);
    }
}

/// The index of the first known constructor named `name`, if any.
fn find_tycon(env: &Vec<TyconSig>, name: &String) -> (r: Option<usize>)
    ensures
        match r {
            Some(i) => i < env@.len() && env@[i as int].name@ == name@ && lookup_tycon(
                env_view(env@),
                name@,
            ) == Some(env@[i as int].params@),
            None => lookup_tycon(env_view(env@), name@) is None,
        },
{
    let ghost ev = env_view(env@);
    let mut i: usize = 0;
    while i < env.len()
        invariant
            i <= env@.len(),
            ev == env_view(env@),
            forall|j: int| 0 <= j < i ==> ev[j].0 != name@,
        decreases env@.len() - i,
    {
        if env[i].name == *name {
            proof {
                lemma_lookup_skip(ev, name@, i as int);
                assert(ev.skip(i as int)[0] == ev[i as int]);
            }
            return Some(i);
        }
        i = i + 1;
    }
    proof {
        lemma_lookup_skip(ev, name@, i as int);
    }
    None
}

/// Whether `name` is among the known aliases.
fn find_alias(aliases: &Vec<String>, name: &String) -> (r: bool)
    ensures
        r == has_alias(alias_view(aliases@), name@),
{
    let ghost av = alias_view(aliases@);
    let mut i: usize = 0;
    while i < aliases.len()
        invariant
            i <= aliases@.len(),
            av == alias_view(aliases@),
            forall|j: int| 0 <= j < i ==> av[j] != name@,
        decreases aliases@.len() - i,
    {
        if aliases[i] == *name {
            assert(av[i as int] == name@);
            return true;
        }
        i = i + 1;
    }
    false
}

/// Validate one type expression against the known constructors and aliases.
pub fn validate_ty(ty: &Ty, known_tycons: &Vec<TyconSig>, known_aliases: &Vec<String>) -> (r:
    Result<(), ValidateError>)
    requires
        ty_wf(*ty),
    ensures
        r == spec_validate_ty(*ty, env_view(known_tycons@), alias_view(known_aliases@)),
    decreases *ty,
{
    let ghost env = env_view(known_tycons@);
    let ghost als = alias_view(known_aliases@);
    match ty {
        Ty::IntLiteral(_) => Ok(()),
        Ty::TyApply(sident, args) => {
            match find_tycon(known_tycons, &sident.node) {
                Some(ti) => {
                    let params = &known_tycons[ti].params;
                    if args.len() == params.len() {
                        let ghost span = sident.span;
                        let mut i: usize = 0;
                        while i < args.len()
                            invariant
                                i <= args@.len(),
                                args@.len() == params@.len(),
                                env == env_view(known_tycons@),
                                als == alias_view(known_aliases@),
                                *ty == Ty::TyApply(*sident, *args),
                                lookup_tycon(env, sident.node@) == Some(params@),
                                span == sident.span,
                                forall|k: int| 0 <= k < args@.len() ==> ty_wf(#[trigger] args@[k]),
                                spec_validate_apply_args(args@, params@, span, env, als, 0)
                                    == spec_validate_apply_args(
                                    args@,
                                    params@,
                                    span,
                                    env,
                                    als,
                                    i as int,
                                ),
                            decreases args@.len() - i,
                        {
                            let kind_ok = match (&args[i], &params[i]) {
                                (Ty::IntLiteral(_), TyArg::Integer) => true,
                                (Ty::TyApply(_, _), TyArg::Generic) => true,
                                (Ty::Product(_), TyArg::Generic) => true,
                                _ => false,
                            };
                            proof {
                                assert(kind_ok == kind_matches(args@[i as int], params@[i as int]));
                            }
                            if !kind_ok {
                                return Err(
                                    ValidateError {
                                        kind: ValidateErrorKind::KindMismatch,
                                        span: sident.span,
                                    },
                                );
                            }
                            proof {
                                assert(decreases_to!(*ty => ty->TyApply_1));
                                assert(decreases_to!(*args => args@));
                                assert(decreases_to!(args@ => args@[i as int]));
                            }
                            match validate_ty(&args[i], known_tycons, known_aliases) {
                                Err(e) => {
                                    return Err(e);
                                },
                                Ok(u) => {
                                    i = i + 1;
                                },
                            }
                        }
                        Ok(())
                    } else {
                        Err(
                            ValidateError {
                                kind: ValidateErrorKind::ArityMismatch {
                                    expected: params.len(),
                                    actual: args.len(),
                                },
                                span: sident.span,
                            },
                        )
                    }
                },
                None => {
                    if args.len() == 0 && find_alias(known_aliases, &sident.node) {
                        Ok(())
                    } else {
                        Err(
                            ValidateError {
                                kind: ValidateErrorKind::UnknownType,
                                span: sident.span,
                            },
                        )
                    }
                },
            }
        },
        Ty::Product(tys) => {
            let mut i: usize = 0;
            while i < tys.len()
                invariant
                    i <= tys@.len(),
                    env == env_view(known_tycons@),
                    als == alias_view(known_aliases@),
                    *ty == Ty::Product(*tys),
                    forall|k: int| 0 <= k < tys@.len() ==> ty_wf(#[trigger] tys@[k]),
                    spec_validate_product(tys@, env, als, 0) == spec_validate_product(
                        tys@,
                        env,
                        als,
                        i as int,
                    ),
                decreases tys@.len() - i,
            {
                proof {
                    assert(decreases_to!(*ty => ty->Product_0));
                    assert(decreases_to!(*tys => tys@));
                    assert(decreases_to!(tys@ => tys@[i as int]));
                }
                match validate_ty(&tys[i], known_tycons, known_aliases) {
                    Err(e) => {
                        return Err(e);
                    },
                    Ok(u) => {
                        i = i + 1;
                    },
                }
            }
            Ok(())
        },
    }
}

/// Process the declaration list in source order, growing the two
/// environments from the basis.
fn check_decls(types: &Vec<TyDecl>) -> (r: Result<(Vec<TyconSig>, Vec<String>), ValidateError>)
    requires
        decls_wf(types@),
    ensures
        ({
            let s = spec_check_decls(types@, spec_basis(), Seq::<Seq<char>>::empty(), 0);
            match r {
                Ok(envs) => s == Ok::<_, ValidateError>(
                    (env_view(envs.0@), alias_view(envs.1@)),
                ),
                Err(e) => s == Err::<(Seq<(Seq<char>, Seq<TyArg>)>, Seq<Seq<char>>), _>(e),
            }
        }),
{
    let mut known_tycons = basis();
    let mut known_aliases: Vec<String> = Vec::new();
    proof {
        assert(alias_view(known_aliases@) =~= Seq::<Seq<char>>::empty());
    }
    let ghost s0 = spec_check_decls(types@, spec_basis(), Seq::<Seq<char>>::empty(), 0);
    let mut i: usize = 0;
    while i < types.len()
        invariant
            i <= types@.len(),
            decls_wf(types@),
            s0 == spec_check_decls(types@, spec_basis(), Seq::<Seq<char>>::empty(), 0),
            s0 == spec_check_decls(
                types@,
                env_view(known_tycons@),
                alias_view(known_aliases@),
                i as int,
            ),
        decreases types@.len() - i,
    {
        let ghost env = env_view(known_tycons@);
        let ghost als = alias_view(known_aliases@);
        match &types[i] {
            TyDecl::Type(spanned, sum) => {
                let binds = &sum.0;
                let mut j: usize = 0;
                while j < binds.len()
                    invariant
                        j <= binds@.len(),
                        env == env_view(known_tycons@),
                        als == alias_view(known_aliases@),
                        i < types@.len(),
                        types@[i as int] == TyDecl::Type(*spanned, *sum),
                        *binds == sum.0,
                        decl_wf(types@[i as int]),
                        s0 == spec_check_decls(types@, spec_basis(), Seq::<Seq<char>>::empty(), 0),
                        s0 == spec_check_decls(types@, env, als, i as int),
                        spec_check_sum(binds@, env, als, 0) == spec_check_sum(
                            binds@,
                            env,
                            als,
                            j as int,
                        ),
                    decreases binds@.len() - j,
                {
                    let mut k: usize = 0;
                    let mut dup = false;
                    while k < j
                        invariant
                            k <= j < binds@.len(),
                            *binds == sum.0,
                            dup == exists|q: int|
                                0 <= q < k && binds@[q].0.node@ == binds@[j as int].0.node@,
                        decreases j - k,
                    {
                        if binds[k].0.node == binds[j].0.node {
                            dup = true;
                        }
                        k = k + 1;
                    }
                    if dup {
                        return Err(
                            ValidateError {
                                kind: ValidateErrorKind::DuplicateVariantLabel,
                                span: binds[j].0.span,
                            },
                        );
                    }
                    match &binds[j].1 {
                        Some(t) => {
                            match validate_ty(t, &known_tycons, &known_aliases) {
                                Err(e) => {
                                    return Err(e);
                                },
                                Ok(u) => {},
                            }
                        },
                        None => {},
                    }
                    j = j + 1;
                }
                let coll = find_tycon(&known_tycons, &spanned.node).is_some() || find_alias(
                    &known_aliases,
                    &spanned.node,
                );
                if coll {
                    return Err(
                        ValidateError { kind: ValidateErrorKind::NameCollision, span: spanned.span },
                    );
                }
                known_tycons.push(TyconSig { name: spanned.node.clone(), params: Vec::new() });
                proof {
                    assert(env_view(known_tycons@) =~= env.push(
                        (spanned.node@, Seq::<TyArg>::empty()),
                    ));
                }
            },
            TyDecl::Alias(spanned, ty) => {
                match validate_ty(ty, &known_tycons, &known_aliases) {
                    Err(e) => {
                        return Err(e);
                    },
                    Ok(u) => {},
                }
                let coll = find_tycon(&known_tycons, &spanned.node).is_some() || find_alias(
                    &known_aliases,
                    &spanned.node,
                );
                if coll {
                    return Err(
                        ValidateError { kind: ValidateErrorKind::NameCollision, span: spanned.span },
                    );
                }
                known_aliases.push(spanned.node.clone());
                proof {
                    assert(alias_view(known_aliases@) =~= als.push(spanned.node@));
                }
            },
        }
        i = i + 1;
    }
    Ok((known_tycons, known_aliases))
}

/// Check the message list against the two system names and the completed
/// type and alias environments.
fn check_messages(
    messages: &Vec<MessageDecl>,
    sys_a: &String,
    sys_b: &String,
    known_tycons: &Vec<TyconSig>,
    known_aliases: &Vec<String>,
) -> (r: Result<(), ValidateError>)
    requires
        msgs_wf(messages@),
    ensures
        r == spec_check_messages(
            messages@,
            sys_a@,
            sys_b@,
            env_view(known_tycons@),
            alias_view(known_aliases@),
            0,
        ),
{
    let ghost env = env_view(known_tycons@);
    let ghost als = alias_view(known_aliases@);
    let mut i: usize = 0;
    while i < messages.len()
        invariant
            i <= messages@.len(),
            msgs_wf(messages@),
            env == env_view(known_tycons@),
            als == alias_view(known_aliases@),
            spec_check_messages(messages@, sys_a@, sys_b@, env, als, 0) == spec_check_messages(
                messages@,
                sys_a@,
                sys_b@,
                env,
                als,
                i as int,
            ),
        decreases messages@.len() - i,
    {
        let m = &messages[i];
        if !(m.sender.node == *sys_a) && !(m.sender.node == *sys_b) {
            return Err(
                ValidateError { kind: ValidateErrorKind::SenderNotASystem, span: m.sender.span },
            );
        }
        let mut k: usize = 0;
        let mut dup = false;
        while k < i
            invariant
                k <= i < messages@.len(),
                dup == exists|q: int|
                    0 <= q < k && messages@[q].name.node@ == messages@[i as int].name.node@,
            decreases i - k,
        {
            if messages[k].name.node == messages[i].name.node {
                dup = true;
            }
            k = k + 1;
        }
        if dup {
            return Err(
                ValidateError { kind: ValidateErrorKind::DuplicateMessageName, span: m.name.span },
            );
        }
        match &m.t {
            Ty::IntLiteral(_) => {
                return Err(
                    ValidateError {
                        kind: ValidateErrorKind::UnexpectedBareIntegerPayload,
                        span: m.name.span,
                    },
                );
            },
            _ => {},
        }
        match validate_ty(&m.t, known_tycons, known_aliases) {
            Err(e) => {
                return Err(e);
            },
            Ok(u) => {},
        }
        i = i + 1;
    }
    Ok(())
}

/// Skipping a prefix in which no message matches does not change the
/// message lookup.
proof fn lemma_msg_lookup_skip(msgs: Seq<MessageDecl>, name: Seq<char>, i: int)
    requires
        0 <= i <= msgs.len(),
        forall|j: int| 0 <= j < i ==> msgs[j].name.node@ != name,
    ensures
        msg_lookup(msgs, name) == msg_lookup(msgs.skip(i), name),
    decreases i,
{
    if i > 0 {
        assert(msgs.skip(0) =~= msgs);
        lemma_msg_lookup_skip(msgs.drop_first(), name, i - 1);
        assert(msgs.drop_first().skip(i - 1) =~= msgs.skip(i));
    } else {
        assert(msgs.skip(0) =~= msgs);
    }
}

/// The index of the first message named `name`, if any.
pub(crate) fn find_message(messages: &Vec<MessageDecl>, name: &String) -> (r: Option<usize>)
    ensures
        match r {
            Some(i) => i < messages@.len() && messages@[i as int].name.node@ == name@ && msg_lookup(
                messages@,
                name@,
            ) == Some(messages@[i as int]),
            None => msg_lookup(messages@, name@) is None,
        },
{
    let mut i: usize = 0;
    while i < messages.len()
        invariant
            i <= messages@.len(),
            forall|j: int| 0 <= j < i ==> messages@[j].name.node@ != name@,
        decreases messages@.len() - i,
    {
        if messages[i].name.node == *name {
            proof {
                lemma_msg_lookup_skip(messages@, name@, i as int);
                assert(messages@.skip(i as int)[0] == messages@[i as int]);
            }
            return Some(i);
        }
        i = i + 1;
    }
    proof {
        lemma_msg_lookup_skip(messages@, name@, i as int);
    }
    None
}

/// All checks that concern the `Connect` node pass, `c` being its index.
spec fn connect_checks_pass(
    nodes: Seq<Spanned<GraphIdent>>,
    edges: Seq<(usize, usize)>,
    c: int,
) -> bool {
    &&& first_connect_from(nodes, 0) == Some(c)
    &&& forall|q: int| c < q < nodes.len() ==> !(nodes[q].node is Connect)
    &&& has_edge_from(edges, c)
    &&& !connect_bad_target(nodes, edges, c)
    &&& !has_edge_to(edges, c)
}

/// Check the structural and turn-alternation invariants of the protocol
/// graph.
fn check_graph(g: &ProtocolGraph, messages: &Vec<MessageDecl>) -> (r: Result<(), ValidateError>)
    ensures
        r == spec_check_graph(
            crate::graph::graph_nodes(*g),
            crate::graph::graph_edges(*g),
            messages@,
        ),
{
    let ghost nodes = crate::graph::graph_nodes(*g);
    let ghost edges = crate::graph::graph_edges(*g);
    let n = crate::graph::graph_node_count(g);
    let m = crate::graph::graph_edge_count(g);

    // Find the unique connect node.
    let mut connect_idx: usize = 0;
    let mut connect_span = Span::sentinel();
    let mut found = false;
    let mut i: usize = 0;
    while i < n && !found
        invariant
            i <= n == nodes.len(),
            edges == crate::graph::graph_edges(*g),
            nodes == crate::graph::graph_nodes(*g),
            !found ==> first_connect_from(nodes, 0) == first_connect_from(nodes, i as int),
            found ==> first_connect_from(nodes, 0) == Some(connect_idx as int) && connect_idx < n
                && connect_span == nodes[connect_idx as int].span,
        decreases n - i + (if found { 0int } else { 1int }),
    {
        let w = crate::graph::graph_node_weight(g, i);
        match w.node {
            GraphIdent::Connect => {
                connect_idx = i;
                connect_span = w.span;
                found = true;
            },
            _ => {
                i = i + 1;
            },
        }
    }
    if !found {
        return Err(
            ValidateError { kind: ValidateErrorKind::MissingConnectNode, span: Span::sentinel() },
        );
    }
    let ghost c = connect_idx as int;

    // No second connect node may exist.
    let mut j: usize = connect_idx + 1;
    while j < n
        invariant
            connect_idx < j <= n == nodes.len(),
            nodes == crate::graph::graph_nodes(*g),
            edges == crate::graph::graph_edges(*g),
            first_connect_from(nodes, 0) == Some(c),
            forall|q: int| c < q < j ==> !(nodes[q].node is Connect),
            c == connect_idx as int,
        decreases n - j,
    {
        let w = crate::graph::graph_node_weight(g, j);
        match w.node {
            GraphIdent::Connect => {
                return Err(
                    ValidateError {
                        kind: ValidateErrorKind::DuplicateConnectNode,
                        span: Span::sentinel(),
                    },
                );
            },
            _ => {},
        }
        j = j + 1;
    }

    // The connect node needs an outgoing edge.
    let mut has_out = false;
    let mut k: usize = 0;
    while k < m
        invariant
            k <= m == edges.len(),
            edges == crate::graph::graph_edges(*g),
            c == connect_idx as int,
            has_out == exists|q: int| 0 <= q < k && edges[q].0 == connect_idx,
        decreases m - k,
    {
        let e = crate::graph::graph_edge_endpoints(g, k);
        if e.0 == connect_idx {
            has_out = true;
        }
        k = k + 1;
    }
    if !has_out {
        return Err(
            ValidateError { kind: ValidateErrorKind::ConnectMissingOutgoing, span: connect_span },
        );
    }

    // Every edge out of connect must lead to an identifier node, and no
    // edge may enter connect.
    let mut k: usize = 0;
    while k < m
        invariant
            k <= m == edges.len(),
            nodes == crate::graph::graph_nodes(*g),
            edges == crate::graph::graph_edges(*g),
            c == connect_idx as int,
            connect_span == nodes[c].span,
            c < nodes.len(),
            first_connect_from(nodes, 0) == Some(c),
            forall|q: int| c < q < nodes.len() ==> !(nodes[q].node is Connect),
            has_edge_from(edges, c),
            forall|q: int|
                0 <= q < k ==> !(edges[q].0 == connect_idx && !(nodes[edges[q].1 as int].node
                    is Identifier)),
        decreases m - k,
    {
        let e = crate::graph::graph_edge_endpoints(g, k);
        if e.0 == connect_idx {
            let w = crate::graph::graph_node_weight(g, e.1);
            match w.node {
                GraphIdent::Identifier(_) => {},
                _ => {
                    return Err(
                        ValidateError {
                            kind: ValidateErrorKind::ConnectTargetInvalid,
                            span: Span::sentinel(),
                        },
                    );
                },
            }
        }
        k = k + 1;
    }
    let mut k: usize = 0;
    while k < m
        invariant
            k <= m == edges.len(),
            nodes == crate::graph::graph_nodes(*g),
            edges == crate::graph::graph_edges(*g),
            c == connect_idx as int,
            connect_span == nodes[c].span,
            c < nodes.len(),
            first_connect_from(nodes, 0) == Some(c),
            forall|q: int| c < q < nodes.len() ==> !(nodes[q].node is Connect),
            has_edge_from(edges, c),
            !connect_bad_target(nodes, edges, c),
            forall|q: int| 0 <= q < k ==> edges[q].1 != connect_idx,
        decreases m - k,
    {
        let e = crate::graph::graph_edge_endpoints(g, k);
        if e.1 == connect_idx {
            return Err(
                ValidateError { kind: ValidateErrorKind::ConnectHasIncoming, span: connect_span },
            );
        }
        k = k + 1;
    }

    // No edge may leave a disconnect node.
    let mut i: usize = 0;
    while i < n
        invariant
            i <= n == nodes.len(),
            nodes == crate::graph::graph_nodes(*g),
            edges == crate::graph::graph_edges(*g),
            m == edges.len(),
            connect_checks_pass(nodes, edges, c),
            first_disconnect_out(nodes, edges, 0) == first_disconnect_out(nodes, edges, i as int),
        decreases n - i,
    {
        let w = crate::graph::graph_node_weight(g, i);
        match w.node {
            GraphIdent::Disconnect => {
                let mut k: usize = 0;
                while k < m
                    invariant
                        k <= m == edges.len(),
                        edges == crate::graph::graph_edges(*g),
                        nodes == crate::graph::graph_nodes(*g),
                        i < n == nodes.len(),
                        connect_checks_pass(nodes, edges, c),
                        nodes[i as int].node is Disconnect,
                        w == nodes[i as int],
                        first_disconnect_out(nodes, edges, 0) == first_disconnect_out(
                            nodes,
                            edges,
                            i as int,
                        ),
                        forall|q: int| 0 <= q < k ==> edges[q].0 != i,
                    decreases m - k,
                {
                    let e = crate::graph::graph_edge_endpoints(g, k);
                    if e.0 == i {
                        return Err(
                            ValidateError {
                                kind: ValidateErrorKind::DisconnectHasOutgoing,
                                span: w.span,
                            },
                        );
                    }
                    k = k + 1;
                }
                proof {
                    assert(!has_edge_from(edges, i as int));
                }
            },
            _ => {},
        }
        i = i + 1;
    }

    // Every identifier node must name a declared message.
    let mut i: usize = 0;
    while i < n
        invariant
            i <= n == nodes.len(),
            nodes == crate::graph::graph_nodes(*g),
            edges == crate::graph::graph_edges(*g),
            connect_checks_pass(nodes, edges, c),
            first_disconnect_out(nodes, edges, 0) is None,
            first_unknown_ident(nodes, messages@, 0) == first_unknown_ident(
                nodes,
                messages@,
                i as int,
            ),
            forall|q: int|
                0 <= q < i ==> (nodes[q].node is Identifier ==> msg_sender(
                    messages@,
                    nodes[q].node->Identifier_0@,
                ) is Some),
        decreases n - i,
    {
        let w = crate::graph::graph_node_weight(g, i);
        match w.node {
            GraphIdent::Identifier(s) => {
                match find_message(messages, &s) {
                    Some(x) => {},
                    None => {
                        return Err(
                            ValidateError { kind: ValidateErrorKind::UnknownMessage, span: w.span },
                        );
                    },
                }
            },
            _ => {},
        }
        i = i + 1;
    }

    // Adjacent identifier nodes must be sent by different systems.
    let ghost all_known = forall|q: int|
        0 <= q < nodes.len() ==> (nodes[q].node is Identifier ==> msg_sender(
            messages@,
            nodes[q].node->Identifier_0@,
        ) is Some);
    let mut k: usize = 0;
    while k < m
        invariant
            k <= m == edges.len(),
            nodes == crate::graph::graph_nodes(*g),
            edges == crate::graph::graph_edges(*g),
            connect_checks_pass(nodes, edges, c),
            first_disconnect_out(nodes, edges, 0) is None,
            first_unknown_ident(nodes, messages@, 0) is None,
            all_known,
            all_known == forall|q: int|
                0 <= q < nodes.len() ==> (nodes[q].node is Identifier ==> msg_sender(
                    messages@,
                    nodes[q].node->Identifier_0@,
                ) is Some),
            forall|q: int| 0 <= q < k ==> !same_system_edge(nodes, edges, messages@, q),
        decreases m - k,
    {
        let e = crate::graph::graph_edge_endpoints(g, k);
        let wa = crate::graph::graph_node_weight(g, e.0);
        let wb = crate::graph::graph_node_weight(g, e.1);
        match (wa.node, wb.node) {
            (GraphIdent::Identifier(sa), GraphIdent::Identifier(sb)) => {
                let ma = find_message(messages, &sa);
                let mb = find_message(messages, &sb);
                match (ma, mb) {
                    (Some(xa), Some(xb)) => {
                        if messages[xa].sender.node == messages[xb].sender.node {
                            proof {
                                assert(nodes[e.0 as int].node->Identifier_0 == sa);
                                assert(nodes[e.1 as int].node->Identifier_0 == sb);
                                assert(same_system_edge(nodes, edges, messages@, k as int));
                            }
                            return Err(
                                ValidateError {
                                    kind: ValidateErrorKind::SameSystemAdjacent,
                                    span: Span::sentinel(),
                                },
                            );
                        }
                        proof {
                            assert(!same_system_edge(nodes, edges, messages@, k as int));
                        }
                    },
                    _ => {
                        proof {
                            assert(false);
                        }
                    },
                }
            },
            _ => {
                proof {
                    assert(!same_system_edge(nodes, edges, messages@, k as int));
                }
            },
        }
        k = k + 1;
    }
    Ok(())
}

/// Valid arguments from position `i` on: every remaining argument matches
/// its kind and is itself valid.
proof fn lemma_apply_args_ok(
    args: Seq<Ty>,
    params: Seq<TyArg>,
    span: Span,
    env: Seq<(Seq<char>, Seq<TyArg>)>,
    aliases: Seq<Seq<char>>,
    i: int,
)
    requires
        0 <= i,
        args.len() == params.len(),
        spec_validate_apply_args(args, params, span, env, aliases, i) is Ok,
    ensures
        forall|q: int|
            i <= q < args.len() ==> kind_matches(#[trigger] args[q], params[q])
                && spec_validate_ty(args[q], env, aliases) is Ok,
    decreases args.len() - i,
{
    if i < args.len() {
        lemma_apply_args_ok(args, params, span, env, aliases, i + 1);
    }
}

/// For every accepted application of a known constructor, the argument
/// count equals the constructor's declared arity and each argument matches
/// its kind positionally.
pub proof fn lemma_apply_ok(
    t: Ty,
    env: Seq<(Seq<char>, Seq<TyArg>)>,
    aliases: Seq<Seq<char>>,
    params: Seq<TyArg>,
)
    requires
        t is TyApply,
        lookup_tycon(env, t->TyApply_0.node@) == Some(params),
        spec_validate_ty(t, env, aliases) is Ok,
    ensures
        t->TyApply_1@.len() == params.len(),
        forall|q: int|
            0 <= q < params.len() ==> kind_matches(#[trigger] t->TyApply_1@[q], params[q])
                && spec_validate_ty(t->TyApply_1@[q], env, aliases) is Ok,
{
    lemma_apply_args_ok(t->TyApply_1@, params, t->TyApply_0.span, env, aliases, 0);
}

/// An application of a known constructor to the wrong number of arguments
/// fails with `ArityMismatch` at the application's span.
pub proof fn lemma_arity_mismatch(
    t: Ty,
    env: Seq<(Seq<char>, Seq<TyArg>)>,
    aliases: Seq<Seq<char>>,
    params: Seq<TyArg>,
)
    requires
        t is TyApply,
        lookup_tycon(env, t->TyApply_0.node@) == Some(params),
        t->TyApply_1@.len() != params.len(),
    ensures
        spec_validate_ty(t, env, aliases) == Err::<(), ValidateError>(
            ValidateError {
                kind: ValidateErrorKind::ArityMismatch {
                    expected: params.len() as usize,
                    actual: t->TyApply_1@.len() as usize,
                },
                span: t->TyApply_0.span,
            },
        ),
{
}

/// If the first failing argument position has the wrong kind, the
/// application fails with `KindMismatch` at the application's span.
pub proof fn lemma_kind_mismatch(
    t: Ty,
    env: Seq<(Seq<char>, Seq<TyArg>)>,
    aliases: Seq<Seq<char>>,
    params: Seq<TyArg>,
    q: int,
)
    requires
        t is TyApply,
        lookup_tycon(env, t->TyApply_0.node@) == Some(params),
        t->TyApply_1@.len() == params.len(),
        0 <= q < params.len(),
        forall|p: int|
            0 <= p < q ==> kind_matches(#[trigger] t->TyApply_1@[p], params[p])
                && spec_validate_ty(t->TyApply_1@[p], env, aliases) is Ok,
        !kind_matches(t->TyApply_1@[q], params[q]),
    ensures
        spec_validate_ty(t, env, aliases) == Err::<(), ValidateError>(
            ValidateError { kind: ValidateErrorKind::KindMismatch, span: t->TyApply_0.span },
        ),
{
    lemma_kind_mismatch_from(t->TyApply_1@, params, t->TyApply_0.span, env, aliases, 0, q);
}

/// Helper for `lemma_kind_mismatch`: the argument check from position `i`
/// runs to the first mismatch at `q` and reports it.
proof fn lemma_kind_mismatch_from(
    args: Seq<Ty>,
    params: Seq<TyArg>,
    span: Span,
    env: Seq<(Seq<char>, Seq<TyArg>)>,
    aliases: Seq<Seq<char>>,
    i: int,
    q: int,
)
    requires
        0 <= i <= q < args.len(),
        args.len() == params.len(),
        forall|p: int|
            i <= p < q ==> kind_matches(#[trigger] args[p], params[p]) && spec_validate_ty(
                args[p],
                env,
                aliases,
            ) is Ok,
        !kind_matches(args[q], params[q]),
    ensures
        spec_validate_apply_args(args, params, span, env, aliases, i) == Err::<(), ValidateError>(
            ValidateError { kind: ValidateErrorKind::KindMismatch, span },
        ),
    decreases q - i,
{
    if i < q {
        lemma_kind_mismatch_from(args, params, span, env, aliases, i + 1, q);
    }
}

/// The labels of an accepted sum type are pairwise distinct from position
/// `i` on.
proof fn lemma_sum_labels_from(
    binds: Seq<SumBind>,
    env: Seq<(Seq<char>, Seq<TyArg>)>,
    aliases: Seq<Seq<char>>,
    i: int,
)
    requires
        0 <= i,
        spec_check_sum(binds, env, aliases, i) is Ok,
    ensures
        forall|p: int, q: int|
            0 <= p < q < binds.len() && i <= q ==> binds[p].0.node@ != binds[q].0.node@,
    decreases binds.len() - i,
{
    if i < binds.len() {
        lemma_sum_labels_from(binds, env, aliases, i + 1);
    }
}

/// The names registered by an accepted declaration pass are unique across
/// the one shared namespace: no two constructors share a name, no two
/// aliases do, and no name is both — the starting environments (the basis)
/// included. Every accepted sum type has pairwise distinct variant labels.
pub proof fn lemma_decls_unique(
    types: Seq<TyDecl>,
    env0: Seq<(Seq<char>, Seq<TyArg>)>,
    al0: Seq<Seq<char>>,
    env: Seq<(Seq<char>, Seq<TyArg>)>,
    al: Seq<Seq<char>>,
    i: int,
)
    requires
        0 <= i,
        spec_check_decls(types, env0, al0, i) == Ok::<_, ValidateError>((env, al)),
        forall|p: int, q: int| 0 <= p < q < env0.len() ==> env0[p].0 != env0[q].0,
        forall|p: int, q: int| 0 <= p < q < al0.len() ==> al0[p] != al0[q],
        forall|p: int, q: int| 0 <= p < env0.len() && 0 <= q < al0.len() ==> env0[p].0 != al0[q],
    ensures
        forall|p: int, q: int| 0 <= p < q < env.len() ==> env[p].0 != env[q].0,
        forall|p: int, q: int| 0 <= p < q < al.len() ==> al[p] != al[q],
        forall|p: int, q: int| 0 <= p < env.len() && 0 <= q < al.len() ==> env[p].0 != al[q],
        env0.is_prefix_of(env),
        al0.is_prefix_of(al),
        forall|j: int|
            i <= j < types.len() ==> match #[trigger] types[j] {
                TyDecl::Type(name, sum) => forall|p: int, q: int|
                    0 <= p < q < sum.0@.len() ==> sum.0@[p].0.node@ != sum.0@[q].0.node@,
                TyDecl::Alias(name, ty) => true,
            },
    decreases types.len() - i,
{
    if i < types.len() {
        match types[i] {
            TyDecl::Type(name, sum) => {
                lemma_sum_labels_from(sum.0@, env0, al0, 0);
                lemma_lookup_none(env0, name.node@);
                let env1 = env0.push((name.node@, Seq::<TyArg>::empty()));
                lemma_decls_unique(types, env1, al0, env, al, i + 1);
                assert(env0 =~= env1.subrange(0, env0.len() as int));
                assert(env0 =~= env.subrange(0, env1.len() as int).subrange(
                    0,
                    env0.len() as int,
                ));
                assert(env0 =~= env.subrange(0, env0.len() as int));
            },
            TyDecl::Alias(name, ty) => {
                lemma_lookup_none(env0, name.node@);
                let al1 = al0.push(name.node@);
                lemma_decls_unique(types, env0, al1, env, al, i + 1);
                assert(al0 =~= al1.subrange(0, al0.len() as int));
                assert(al0 =~= al.subrange(0, al1.len() as int).subrange(0, al0.len() as int));
                assert(al0 =~= al.subrange(0, al0.len() as int));
            },
        }
    } else {
        assert(env0 =~= env.subrange(0, env0.len() as int));
        assert(al0 =~= al.subrange(0, al0.len() as int));
    }
}

/// In a program that validates, the declared type and alias names form one
/// collision-free namespace together with the basis, which the final
/// environments extend; and every declared sum type has pairwise distinct
/// variant labels.
pub proof fn lemma_validated_names_unique(root: Root)
    requires
        spec_validate(root) is Ok,
    ensures
        ({
            let r = spec_check_decls(root.types@, spec_basis(), Seq::<Seq<char>>::empty(), 0);
            &&& r is Ok
            &&& spec_basis().is_prefix_of(r->Ok_0.0)
            &&& forall|p: int, q: int|
                0 <= p < q < r->Ok_0.0.len() ==> r->Ok_0.0[p].0 != r->Ok_0.0[q].0
            &&& forall|p: int, q: int| 0 <= p < q < r->Ok_0.1.len() ==> r->Ok_0.1[p] != r->Ok_0.1[q]
            &&& forall|p: int, q: int|
                0 <= p < r->Ok_0.0.len() && 0 <= q < r->Ok_0.1.len() ==> r->Ok_0.0[p].0
                    != r->Ok_0.1[q]
        }),
        forall|j: int|
            0 <= j < root.types@.len() ==> match #[trigger] root.types@[j] {
                TyDecl::Type(name, sum) => forall|p: int, q: int|
                    0 <= p < q < sum.0@.len() ==> sum.0@[p].0.node@ != sum.0@[q].0.node@,
                TyDecl::Alias(name, ty) => true,
            },
{
    let r = spec_check_decls(root.types@, spec_basis(), Seq::<Seq<char>>::empty(), 0);
    lemma_basis_unique();
    lemma_decls_unique(
        root.types@,
        spec_basis(),
        Seq::<Seq<char>>::empty(),
        r->Ok_0.0,
        r->Ok_0.1,
        0,
    );
}

/// A failed lookup means no entry carries the name.
proof fn lemma_lookup_none(env: Seq<(Seq<char>, Seq<TyArg>)>, name: Seq<char>)
    requires
        lookup_tycon(env, name) is None,
    ensures
        forall|p: int| 0 <= p < env.len() ==> env[p].0 != name,
    decreases env.len(),
{
    if env.len() > 0 {
        lemma_lookup_none(env.drop_first(), name);
        assert forall|p: int| 0 <= p < env.len() implies env[p].0 != name by {
            if p > 0 {
                assert(env.drop_first()[p - 1] == env[p]);
            }
        }
    }
}

/// The names of the built-in constructors are pairwise distinct, so the
/// basis is itself a collision-free namespace to start from.
pub proof fn lemma_basis_unique()
    ensures
        forall|p: int, q: int|
            0 <= p < q < spec_basis().len() ==> spec_basis()[p].0 != spec_basis()[q].0,
{
    reveal_strlit("bool");
    reveal_strlit("integer");
    reveal_strlit("float");
    reveal_strlit("double");
    reveal_strlit("blob");
    reveal_strlit("unicode");
    reveal_strlit("array");
    reveal_strlit("vector");
    assert("bool"@[1] != "blob"@[1]);
    assert("integer"@[0] != "unicode"@[0]);
    assert("float"@[0] != "array"@[0]);
    assert("double"@[0] != "vector"@[0]);
    assert forall|p: int, q: int|
        0 <= p < q < spec_basis().len() implies spec_basis()[p].0 != spec_basis()[q].0 by {
        assert(spec_basis().len() == 8);
    }
}

/// In an accepted message list every sender is one of the two systems, no
/// payload is a bare integer literal, every payload is a valid type, and
/// message names are pairwise distinct.
pub proof fn lemma_messages_ok(
    msgs: Seq<MessageDecl>,
    sys_a: Seq<char>,
    sys_b: Seq<char>,
    env: Seq<(Seq<char>, Seq<TyArg>)>,
    aliases: Seq<Seq<char>>,
    i: int,
)
    requires
        0 <= i,
        spec_check_messages(msgs, sys_a, sys_b, env, aliases, i) is Ok,
    ensures
        forall|j: int|
            i <= j < msgs.len() ==> ((#[trigger] msgs[j]).sender.node@ == sys_a
                || msgs[j].sender.node@ == sys_b) && !(msgs[j].t is IntLiteral)
                && spec_validate_ty(msgs[j].t, env, aliases) is Ok,
        forall|p: int, q: int|
            0 <= p < q < msgs.len() && i <= q ==> msgs[p].name.node@ != msgs[q].name.node@,
    decreases msgs.len() - i,
{
    if i < msgs.len() {
        lemma_messages_ok(msgs, sys_a, sys_b, env, aliases, i + 1);
    }
}

/// Both endpoints of every edge are valid node indices; the graph arena
/// guarantees this for every graph it hands out.
pub open spec fn edges_wf(nodes: Seq<Spanned<GraphIdent>>, edges: Seq<(usize, usize)>) -> bool {
    forall|k: int|
        0 <= k < edges.len() ==> (#[trigger] edges[k]).0 < nodes.len() && edges[k].1 < nodes.len()
}

/// What a found first connect index means.
proof fn lemma_first_connect_some(nodes: Seq<Spanned<GraphIdent>>, i: int, c: int)
    requires
        0 <= i,
        first_connect_from(nodes, i) == Some(c),
    ensures
        i <= c < nodes.len(),
        nodes[c].node is Connect,
        forall|q: int| i <= q < c ==> !(nodes[q].node is Connect),
    decreases nodes.len() - i,
{
    if i < nodes.len() && !(nodes[i].node is Connect) {
        lemma_first_connect_some(nodes, i + 1, c);
    }
}

/// No disconnect node at or after `i` has an outgoing edge when the scan
/// finds none.
proof fn lemma_first_disconnect_none(
    nodes: Seq<Spanned<GraphIdent>>,
    edges: Seq<(usize, usize)>,
    i: int,
)
    requires
        0 <= i,
        first_disconnect_out(nodes, edges, i) is None,
    ensures
        forall|q: int|
            i <= q < nodes.len() ==> ((#[trigger] nodes[q]).node is Disconnect ==> !has_edge_from(
                edges,
                q,
            )),
    decreases nodes.len() - i,
{
    if i < nodes.len() {
        lemma_first_disconnect_none(nodes, edges, i + 1);
    }
}

/// Every identifier node at or after `i` names a declared message when the
/// scan finds no unknown one.
proof fn lemma_first_unknown_none(
    nodes: Seq<Spanned<GraphIdent>>,
    msgs: Seq<MessageDecl>,
    i: int,
)
    requires
        0 <= i,
        first_unknown_ident(nodes, msgs, i) is None,
    ensures
        forall|q: int|
            i <= q < nodes.len() ==> ((#[trigger] nodes[q]).node is Identifier ==> msg_sender(
                msgs,
                nodes[q].node->Identifier_0@,
            ) is Some),
    decreases nodes.len() - i,
{
    if i < nodes.len() {
        lemma_first_unknown_none(nodes, msgs, i + 1);
    }
}

/// A graph that passes validation has exactly one connect node, which has
/// at least one outgoing edge, all of them to identifier nodes, and no
/// incoming edge; no disconnect node has an outgoing edge; every identifier
/// node names a declared message; and the two ends of every edge between
/// identifier nodes are sent by different systems.
pub proof fn lemma_graph_ok(
    nodes: Seq<Spanned<GraphIdent>>,
    edges: Seq<(usize, usize)>,
    msgs: Seq<MessageDecl>,
    c: int,
)
    requires
        spec_check_graph(nodes, edges, msgs) is Ok,
        first_connect_from(nodes, 0) == Some(c),
        edges_wf(nodes, edges),
    ensures
        forall|q: int| 0 <= q < nodes.len() ==> ((#[trigger] nodes[q]).node is Connect <==> q == c),
        has_edge_from(edges, c),
        forall|k: int|
            0 <= k < edges.len() && (#[trigger] edges[k]).0 == c ==> nodes[edges[k].1 as int].node
                is Identifier,
        !has_edge_to(edges, c),
        forall|q: int|
            0 <= q < nodes.len() ==> ((#[trigger] nodes[q]).node is Disconnect ==> !has_edge_from(
                edges,
                q,
            )),
        forall|q: int|
            0 <= q < nodes.len() ==> ((#[trigger] nodes[q]).node is Identifier ==> msg_sender(
                msgs,
                nodes[q].node->Identifier_0@,
            ) is Some),
        forall|k: int|
            0 <= k < edges.len() && (#[trigger] nodes[edges[k].0 as int].node) is Identifier
                && nodes[edges[k].1 as int].node is Identifier ==> msg_sender(
                msgs,
                nodes[edges[k].0 as int].node->Identifier_0@,
            ) != msg_sender(msgs, nodes[edges[k].1 as int].node->Identifier_0@),
{
    lemma_first_connect_some(nodes, 0, c);
    lemma_first_disconnect_none(nodes, edges, 0);
    lemma_first_unknown_none(nodes, msgs, 0);
    assert forall|k: int|
        0 <= k < edges.len() && (#[trigger] nodes[edges[k].0 as int].node) is Identifier
            && nodes[edges[k].1 as int].node is Identifier implies msg_sender(
        msgs,
        nodes[edges[k].0 as int].node->Identifier_0@,
    ) != msg_sender(msgs, nodes[edges[k].1 as int].node->Identifier_0@) by {
        assert(!same_system_edge(nodes, edges, msgs, k));
        assert(msg_sender(msgs, nodes[edges[k].0 as int].node->Identifier_0@) is Some);
    }
}

/// In a program that validates, every message sender is one of the two
/// declared systems, no payload is a bare integer literal, and message
/// names are globally unique.
pub proof fn lemma_validated_messages(root: Root)
    requires
        spec_validate(root) is Ok,
    ensures
        forall|j: int|
            0 <= j < root.messages@.len() ==> ((#[trigger] root.messages@[j]).sender.node@
                == root.systems.0.node@ || root.messages@[j].sender.node@
                == root.systems.1.node@) && !(root.messages@[j].t is IntLiteral),
        forall|p: int, q: int|
            0 <= p < q < root.messages@.len() ==> root.messages@[p].name.node@
                != root.messages@[q].name.node@,
{
    let r = spec_check_decls(root.types@, spec_basis(), Seq::<Seq<char>>::empty(), 0);
    lemma_messages_ok(
        root.messages@,
        root.systems.0.node@,
        root.systems.1.node@,
        r->Ok_0.0,
        r->Ok_0.1,
        0,
    );
}

/// In a program that validates, the graph has exactly one connect node with
/// at least one outgoing edge, all of them to identifier nodes and none
/// incoming; no disconnect node has an outgoing edge; every identifier node
/// names a declared message; and adjacent identifier nodes are sent by
/// different systems.
pub proof fn lemma_validated_graph(root: Root)
    requires
        spec_validate(root) is Ok,
        edges_wf(crate::graph::graph_nodes(root.graph), crate::graph::graph_edges(root.graph)),
    ensures
        ({
            let nodes = crate::graph::graph_nodes(root.graph);
            let edges = crate::graph::graph_edges(root.graph);
            let msgs = root.messages@;
            let c = first_connect_from(nodes, 0)->0;
            &&& first_connect_from(nodes, 0) is Some
            &&& forall|q: int|
                0 <= q < nodes.len() ==> ((#[trigger] nodes[q]).node is Connect <==> q == c)
            &&& has_edge_from(edges, c)
            &&& forall|k: int|
                0 <= k < edges.len() && (#[trigger] edges[k]).0 == c ==> nodes[edges[k].1
                    as int].node is Identifier
            &&& !has_edge_to(edges, c)
            &&& forall|q: int|
                0 <= q < nodes.len() ==> ((#[trigger] nodes[q]).node is Disconnect
                    ==> !has_edge_from(edges, q))
            &&& forall|q: int|
                0 <= q < nodes.len() ==> ((#[trigger] nodes[q]).node is Identifier ==> msg_sender(
                    msgs,
                    nodes[q].node->Identifier_0@,
                ) is Some)
            &&& forall|k: int|
                0 <= k < edges.len() && (#[trigger] nodes[edges[k].0 as int].node) is Identifier
                    && nodes[edges[k].1 as int].node is Identifier ==> msg_sender(
                    msgs,
                    nodes[edges[k].0 as int].node->Identifier_0@,
                ) != msg_sender(msgs, nodes[edges[k].1 as int].node->Identifier_0@)
        }),
{
    let nodes = crate::graph::graph_nodes(root.graph);
    let edges = crate::graph::graph_edges(root.graph);
    lemma_graph_ok(nodes, edges, root.messages@, first_connect_from(nodes, 0)->0);
}

/// Validate a whole program: declarations, then messages, then the protocol
/// graph; the first violation found is reported. A program that passes is
/// fit for lowering.
pub fn validate(root: &Root) -> (r: Result<(), ValidateError>)
    requires
        root_wf(*root),
    ensures
        r == spec_validate(*root),
{
    let envs = match check_decls(&root.types) {
        Ok(envs) => envs,
        Err(e) => {
            return Err(e);
        },
    };
    match check_messages(
        &root.messages,
        &root.systems.0.node,
        &root.systems.1.node,
        &envs.0,
        &envs.1,
    ) {
        Ok(u) => {},
        Err(e) => {
            return Err(e);
        },
    }
    check_graph(&root.graph, &root.messages)
}

} // verus!

