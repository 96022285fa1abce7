//! Lowering of a validated program into a per-system intermediate
//! representation: renamed type declarations plus receive-function
//! skeletons, in preparation for code generation by an external renderer.

use vstd::prelude::*;
use vstd::string::StrSliceExecFns;
use vstd::string::StringExecFns;

verus! {

/// One of the three interchangeable identifier casings.
#[derive(Copy, Clone)]
pub enum IdentStyle {
    /// Capitalize every underscore-delimited word and concatenate.
    Pascal,
    /// Keep the first word, capitalize the later ones, concatenate.
    Camel,
    /// Verbatim passthrough.
    Underscore,
}

/// The casing convention of each identifier class.
#[derive(Copy, Clone)]
pub struct NamingConvention {
    pub types: IdentStyle,
    pub aliases: IdentStyle,
    pub variant_labels: IdentStyle,
    pub function_names: IdentStyle,
}

/// What `char::to_uppercase` yields for a character.
pub uninterp spec fn upper_of(c: char) -> Seq<char>;

/// Relies on `char::to_uppercase`: the uppercase mapping of a character is
/// a function of the character alone.
#[verifier::external_body]
fn upper_str(c: char) -> (r: String)
    ensures
        r@ == upper_of(c),
{
    c.to_uppercase().collect()
}

/// The identifier from position `i` on with its underscores removed and the
/// first character of each remaining word uppercased; `cap` tells whether
/// the next character starts a word.
pub open spec fn strip_from(s: Seq<char>, i: int, cap: bool) -> Seq<char>
    decreases s.len() - i,
{
    if i < 0 || i >= s.len() {
        Seq::empty()
    } else if s[i] == '_' {
        strip_from(s, i + 1, true)
    } else if cap {
        upper_of(s[i]) + strip_from(s, i + 1, false)
    } else {
        seq![s[i]] + strip_from(s, i + 1, false)
    }
}

/// What renaming an identifier returns: Pascal capitalizes every word,
/// Camel every word but the first, Underscore is the identity.
pub open spec fn spec_convert_ident(s: Seq<char>, style: IdentStyle) -> Seq<char> {
    match style {
        IdentStyle::Pascal => strip_from(s, 0, true),
        IdentStyle::Camel => strip_from(s, 0, false),
        IdentStyle::Underscore => s,
    }
}

/// Renaming through the `Underscore` convention is the identity.
pub proof fn lemma_underscore_identity(s: Seq<char>)
    ensures
        spec_convert_ident(s, IdentStyle::Underscore) == s,
{
}

/// Concatenate the words of `ident`, capitalized; `cap0` tells whether the
/// very first word is capitalized too.
fn convert_capitalized(ident: &str, cap0: bool) -> (r: String)
    ensures
        r@ == strip_from(ident@, 0, cap0),
{
    let n = ident.unicode_len();
    let mut acc = String::new();
    let mut cap = cap0;
    let mut i: usize = 0;
    while i < n
        invariant
            i <= n == ident@.len(),
            strip_from(ident@, 0, cap0) == acc@ + strip_from(ident@, i as int, cap),
        decreases n - i,
    {
        let ghost acc0 = acc@;
        let ghost rest = strip_from(ident@, i as int + 1, false);
        let c = ident.get_char(i);
        if c == '_' {
            cap = true;
        } else if cap {
            let u = upper_str(c);
            acc.append(u.as_str());
            proof {
                assert(acc0 + (upper_of(c) + rest) =~= (acc0 + upper_of(c)) + rest);
            }
            cap = false;
        } else {
            let piece = ident.substring_char(i, i + 1);
            acc.append(piece);
            proof {
                assert(piece@ =~= seq![ident@[i as int]]);
                assert(acc0 + (seq![ident@[i as int]] + rest) =~= (acc0 + seq![
                    ident@[i as int],
                ]) + rest);
            }
            cap = false;
        }
        i = i + 1;
    }
    proof {
        assert(acc@ + strip_from(ident@, i as int, cap) =~= acc@);
    }
    acc
}

/// Rename one identifier according to `style`.
pub fn convert_ident(ident: &str, style: IdentStyle) -> (r: String)
    ensures
        r@ == spec_convert_ident(ident@, style),
{
    match style {
        IdentStyle::Pascal => convert_capitalized(ident, true),
        IdentStyle::Camel => convert_capitalized(ident, false),
        IdentStyle::Underscore => ident.to_owned(),
    }
}

/// A renamed type expression.
pub enum Ty {
    IntLiteral(String),
    TyApply(String, Vec<Ty>),
    Product(Vec<Ty>),
}

/// The variants of a renamed sum type.
pub type Sum = Vec<SumBind>;

/// A renamed sum-type variant: a label and an optional payload type.
pub struct SumBind(pub String, pub Option<Ty>);

/// A renamed type or alias declaration.
pub enum TyDecl {
    Type(String, Sum),
    Alias(String, Ty),
}

/// The names of the two systems, renamed.
pub struct SystemsDecl(String, String);

/// A generated receive-handler signature for one protocol-graph node.
pub struct FunctionSkeleton {
    pub name: String,
    /// The argument type; the `connect` handler takes none.
    pub arg: Option<Ty>,
    /// The synthesized response sum type: its name and its variants, one per
    /// legal next move.
    pub ret: (String, Sum),
}

/// The lowered representation of one system: renamed declarations plus the
/// function skeletons it must implement.
pub struct Root {
    pub types: Vec<TyDecl>,
    pub functions: Vec<FunctionSkeleton>,
}

/// The mathematical shape of a renamed type expression.
pub enum TyView {
    IntLiteral(Seq<char>),
    TyApply(Seq<char>, Seq<TyView>),
    Product(Seq<TyView>),
}

/// The shape of a renamed type expression.
pub open spec fn ty_view(t: Ty) -> TyView
    decreases t, 0int,
{
    match t {
        Ty::IntLiteral(s) => TyView::IntLiteral(s@),
        Ty::TyApply(name, args) => TyView::TyApply(name@, tys_view(args@)),
        Ty::Product(ts) => TyView::Product(tys_view(ts@)),
    }
}

/// The shapes of a list of renamed type expressions.
pub open spec fn tys_view(ts: Seq<Ty>) -> Seq<TyView>
    decreases ts, ts.len(),
{
    if ts.len() == 0 {
        Seq::empty()
    } else {
        tys_view(ts.drop_last()) + seq![ty_view(ts.last())]
    }
}

/// What lowering a type expression returns: constructor names are renamed
/// in the type-name style, integer literals pass through.
pub open spec fn lower_ty(t: crate::ast::Ty, naming: NamingConvention) -> TyView
    decreases t, 0int,
{
    match t {
        crate::ast::Ty::IntLiteral(s) => TyView::IntLiteral(s@),
        crate::ast::Ty::TyApply(sp, args) => TyView::TyApply(
            spec_convert_ident(sp.node@, naming.types),
            lower_tys(args@, naming),
        ),
        crate::ast::Ty::Product(ts) => TyView::Product(lower_tys(ts@, naming)),
    }
}

/// What lowering a list of type expressions returns.
pub open spec fn lower_tys(ts: Seq<crate::ast::Ty>, naming: NamingConvention) -> Seq<TyView>
    decreases ts, ts.len(),
{
    if ts.len() == 0 {
        Seq::empty()
    } else {
        lower_tys(ts.drop_last(), naming) + seq![lower_ty(ts.last(), naming)]
    }
}

/// Lower one type expression, renaming the constructor names in it.
pub fn convert_ty(ty: &crate::ast::Ty, naming: NamingConvention) -> (r: Ty)
    ensures
        ty_view(r) == lower_ty(*ty, naming),
    decreases *ty, 0int,
{
    match ty {
        crate::ast::Ty::IntLiteral(s) => Ty::IntLiteral(s.clone()),
        crate::ast::Ty::TyApply(sp, args) => {
            proof {
                assert(decreases_to!(*ty => ty->TyApply_1));
                assert(decreases_to!(*args => args@));
            }
            let name = convert_ident(sp.node.as_str(), naming.types);
            Ty::TyApply(name, convert_tys(args, naming))
        },
        crate::ast::Ty::Product(ts) => {
            proof {
                assert(decreases_to!(*ty => ty->Product_0));
                assert(decreases_to!(*ts => ts@));
            }
            Ty::Product(convert_tys(ts, naming))
        },
    }
}

/// Lower a list of type expressions.
pub fn convert_tys(tys: &Vec<crate::ast::Ty>, naming: NamingConvention) -> (r: Vec<Ty>)
    ensures
        tys_view(r@) == lower_tys(tys@, naming),
    decreases tys@, tys@.len(),
{
    let mut result: Vec<Ty> = Vec::new();
    let mut i: usize = 0;
    proof {
        assert(tys@.subrange(0, 0) =~= Seq::<crate::ast::Ty>::empty());
    }
    while i < tys.len()
        invariant
            i <= tys@.len(),
            tys_view(result@) == lower_tys(tys@.subrange(0, i as int), naming),
        decreases tys@.len() - i,
    {
        proof {
            assert(decreases_to!(tys@ => tys@[i as int]));
        }
        let t = convert_ty(&tys[i], naming);
        proof {
            assert(tys@.subrange(0, i as int + 1).drop_last() =~= tys@.subrange(0, i as int));
            assert(result@.push(t).drop_last() =~= result@);
        }
        result.push(t);
        i = i + 1;
    }
    proof {
        assert(tys@.subrange(0, i as int) =~= tys@);
    }
    result
}

/// The shape of a renamed sum-type variant.
pub open spec fn sumbind_view(b: SumBind) -> (Seq<char>, Option<TyView>) {
    (
        b.0@,
        match b.1 {
            Some(t) => Some(ty_view(t)),
            None => None,
        },
    )
}

/// The shapes of the variants of a renamed sum type.
pub open spec fn sumbinds_view(bs: Seq<SumBind>) -> Seq<(Seq<char>, Option<TyView>)> {
    bs.map_values(|b: SumBind| sumbind_view(b))
}

/// What lowering one sum-type variant returns: the label is renamed in the
/// variant-label style, the payload is lowered.
pub open spec fn lower_sumbind(b: crate::ast::SumBind, naming: NamingConvention) -> (
    Seq<char>,
    Option<TyView>,
) {
    (
        spec_convert_ident(b.0.node@, naming.variant_labels),
        match b.1 {
            Some(t) => Some(lower_ty(t, naming)),
            None => None,
        },
    )
}

/// What lowering the variants of one sum type returns.
pub open spec fn lower_sumbinds(
    bs: Seq<crate::ast::SumBind>,
    naming: NamingConvention,
) -> Seq<(Seq<char>, Option<TyView>)> {
    bs.map_values(|b: crate::ast::SumBind| lower_sumbind(b, naming))
}

/// The mathematical shape of a renamed declaration.
pub enum TyDeclView {
    Type(Seq<char>, Seq<(Seq<char>, Option<TyView>)>),
    Alias(Seq<char>, TyView),
}

/// The shape of a renamed declaration.
pub open spec fn tydecl_view(d: TyDecl) -> TyDeclView {
    match d {
        TyDecl::Type(name, sum) => TyDeclView::Type(name@, sumbinds_view(sum@)),
        TyDecl::Alias(name, t) => TyDeclView::Alias(name@, ty_view(t)),
    }
}

/// The shapes of a list of renamed declarations.
pub open spec fn tydecls_view(ds: Seq<TyDecl>) -> Seq<TyDeclView> {
    ds.map_values(|d: TyDecl| tydecl_view(d))
}

/// What lowering one declaration returns: type names are renamed in the
/// type-name style, alias names in the alias style.
pub open spec fn lower_tydecl(d: crate::ast::TyDecl, naming: NamingConvention) -> TyDeclView {
    match d {
        crate::ast::TyDecl::Type(sp, sum) => TyDeclView::Type(
            spec_convert_ident(sp.node@, naming.types),
            lower_sumbinds(sum.0@, naming),
        ),
        crate::ast::TyDecl::Alias(sp, t) => TyDeclView::Alias(
            spec_convert_ident(sp.node@, naming.aliases),
            lower_ty(t, naming),
        ),
    }
}

/// What lowering the declaration list returns: declarations are renamed one
/// for one, in order.
pub open spec fn lower_tydecls(ds: Seq<crate::ast::TyDecl>, naming: NamingConvention) -> Seq<
    TyDeclView,
> {
    ds.map_values(|d: crate::ast::TyDecl| lower_tydecl(d, naming))
}

/// Lower one sum-type variant.
pub fn convert_sumbind(bind: &crate::ast::SumBind, naming: NamingConvention) -> (r: SumBind)
    ensures
        sumbind_view(r) == lower_sumbind(*bind, naming),
{
    let ident = convert_ident(bind.0.node.as_str(), naming.variant_labels);
    let maybe_ty = match &bind.1 {
        Some(t) => Some(convert_ty(t, naming)),
        None => None,
    };
    SumBind(ident, maybe_ty)
}

/// Lower the declaration list, renaming every declaration.
pub fn convert_tydecls(tydecls: &Vec<crate::ast::TyDecl>, naming: NamingConvention) -> (r: Vec<
    TyDecl,
>)
    ensures
        tydecls_view(r@) == lower_tydecls(tydecls@, naming),
{
    let mut result: Vec<TyDecl> = Vec::new();
    let mut i: usize = 0;
    while i < tydecls.len()
        invariant
            i <= tydecls@.len(),
            result@.len() == i,
            tydecls_view(result@) == lower_tydecls(tydecls@.subrange(0, i as int), naming),
        decreases tydecls@.len() - i,
    {
        let d = match &tydecls[i] {
            crate::ast::TyDecl::Type(spanned, sum) => {
                let binds = &sum.0;
                let mut sum_prime: Vec<SumBind> = Vec::new();
                let mut j: usize = 0;
                while j < binds.len()
                    invariant
                        j <= binds@.len(),
                        sum_prime@.len() == j,
                        sumbinds_view(sum_prime@) == lower_sumbinds(
                            binds@.subrange(0, j as int),
                            naming,
                        ),
                    decreases binds@.len() - j,
                {
                    let nb = convert_sumbind(&binds[j], naming);
                    proof {
                        assert(sumbind_view(nb) == lower_sumbind(binds@[j as int], naming));
                    }
                    let ghost sp0 = sum_prime@;
                    sum_prime.push(nb);
                    proof {
                        let pre = binds@.subrange(0, j as int + 1);
                        let mid = binds@.subrange(0, j as int);
                        assert forall|q: int| 0 <= q < sum_prime@.len() implies sumbinds_view(
                            sum_prime@,
                        )[q] == lower_sumbinds(pre, naming)[q] by {
                            assert(pre[q] == binds@[q]);
                            assert(sumbinds_view(sum_prime@)[q] == sumbind_view(sum_prime@[q]));
                            assert(lower_sumbinds(pre, naming)[q] == lower_sumbind(pre[q], naming));
                            if q < j as int {
                                assert(sum_prime@[q] == sp0[q]);
                                assert(sumbinds_view(sp0)[q] == sumbind_view(sp0[q]));
                                assert(lower_sumbinds(mid, naming)[q] == lower_sumbind(
                                    mid[q],
                                    naming,
                                ));
                                assert(mid[q] == binds@[q]);
                            } else {
                                assert(sum_prime@[q] == nb);
                            }
                        }
                        assert(sumbinds_view(sum_prime@) =~= lower_sumbinds(
                            binds@.subrange(0, j as int + 1),
                            naming,
                        ));
                    }
                    j = j + 1;
                }
                proof {
                    assert(binds@.subrange(0, j as int) =~= binds@);
                }
                TyDecl::Type(convert_ident(spanned.node.as_str(), naming.types), sum_prime)
            },
            crate::ast::TyDecl::Alias(spanned, ty) => {
                TyDecl::Alias(
                    convert_ident(spanned.node.as_str(), naming.aliases),
                    convert_ty(ty, naming),
                )
            },
        };
        proof {
            assert(tydecl_view(d) == lower_tydecl(tydecls@[i as int], naming));
        }
        let ghost r0 = result@;
        result.push(d);
        proof {
            let pre = tydecls@.subrange(0, i as int + 1);
            let mid = tydecls@.subrange(0, i as int);
            assert forall|q: int| 0 <= q < result@.len() implies tydecls_view(result@)[q]
                == lower_tydecls(pre, naming)[q] by {
                assert(pre[q] == tydecls@[q]);
                assert(tydecls_view(result@)[q] == tydecl_view(result@[q]));
                assert(lower_tydecls(pre, naming)[q] == lower_tydecl(pre[q], naming));
                if q < i as int {
                    assert(result@[q] == r0[q]);
                    assert(tydecls_view(r0)[q] == tydecl_view(r0[q]));
                    assert(lower_tydecls(mid, naming)[q] == lower_tydecl(mid[q], naming));
                    assert(mid[q] == tydecls@[q]);
                } else {
                    assert(result@[q] == d);
                }
            }
            assert(tydecls_view(result@) =~= lower_tydecls(pre, naming));
        }
        i = i + 1;
    }
    proof {
        assert(tydecls@.subrange(0, i as int) =~= tydecls@);
    }
    result
}

/// Relies on `str`'s `PartialEq`: string slices compare equal exactly when
/// their character sequences do.
#[verifier::external_body]
fn str_eq(a: &str, b: &str) -> (r: bool)
    ensures
        r == (a@ == b@),
{
    a == b
}

/// The targets of the edges leaving node `src`, most recently added edge
/// first — the order in which the graph hands out a node's successors.
pub open spec fn out_neighbors(edges: Seq<(usize, usize)>, src: int) -> Seq<usize>
    decreases edges.len(),
{
    if edges.len() == 0 {
        Seq::empty()
    } else {
        out_neighbors(edges.drop_first(), src) + (if edges[0].0 as int == src {
            seq![edges[0].1]
        } else {
            Seq::empty()
        })
    }
}

/// Collect the successors of node `src`, most recently added edge first.
fn collect_out_neighbors(g: &crate::ast::ProtocolGraph, src: usize) -> (r: Vec<usize>)
    ensures
        r@ == out_neighbors(crate::graph::graph_edges(*g), src as int),
        forall|q: int|
            0 <= q < r@.len() ==> r@[q] < crate::graph::graph_nodes(*g).len() && exists|k: int|
                0 <= k < crate::graph::graph_edges(*g).len() && crate::graph::graph_edges(
                    *g,
                )[k].0 == src && crate::graph::graph_edges(*g)[k].1 == r@[q],
{
    let ghost edges = crate::graph::graph_edges(*g);
    let ghost nodes = crate::graph::graph_nodes(*g);
    let m = crate::graph::graph_edge_count(g);
    let mut result: Vec<usize> = Vec::new();
    let mut k: usize = m;
    proof {
        assert(edges.skip(m as int) =~= Seq::<(usize, usize)>::empty());
    }
    while k > 0
        invariant
            k <= m == edges.len(),
            edges == crate::graph::graph_edges(*g),
            nodes == crate::graph::graph_nodes(*g),
            result@ == out_neighbors(edges.skip(k as int), src as int),
            forall|q: int|
                0 <= q < result@.len() ==> result@[q] < nodes.len() && exists|kk: int|
                    0 <= kk < edges.len() && edges[kk].0 == src && edges[kk].1 == result@[q],
        decreases k,
    {
        k = k - 1;
        let e = crate::graph::graph_edge_endpoints(g, k);
        proof {
            assert(edges.skip(k as int).drop_first() =~= edges.skip(k as int + 1));
            assert(edges.skip(k as int)[0] == edges[k as int]);
        }
        let ghost r0 = result@;
        if e.0 == src {
            result.push(e.1);
            proof {
                assert(result@ =~= r0 + seq![edges[k as int].1]);
            }
        } else {
            proof {
                assert(r0 + Seq::<usize>::empty() =~= r0);
            }
        }
    }
    proof {
        assert(edges.skip(0) =~= edges);
        assert forall|q: int| 0 <= q < result@.len() implies result@[q] < crate::graph::graph_nodes(
            *g,
        ).len() && exists|kx: int|
            0 <= kx < crate::graph::graph_edges(*g).len() && crate::graph::graph_edges(*g)[kx].0
                == src && crate::graph::graph_edges(*g)[kx].1 == result@[q] by {
            let kk = choose|kk: int|
                0 <= kk < edges.len() && edges[kk].0 == src && edges[kk].1 == result@[q];
            assert(0 <= kk < crate::graph::graph_edges(*g).len() && crate::graph::graph_edges(
                *g,
            )[kk].0 == src && crate::graph::graph_edges(*g)[kk].1 == result@[q]);
        }
    }
    result
}

/// The name a graph node contributes to generated identifiers: the message
/// name, or the literal `connect` for the connect node.
pub open spec fn basename_of(n: crate::ast::GraphIdent) -> Seq<char> {
    match n {
        crate::ast::GraphIdent::Identifier(s) => s@,
        crate::ast::GraphIdent::Connect => "connect"@,
        crate::ast::GraphIdent::Disconnect => Seq::empty(),
    }
}

/// The response-sum variant one successor contributes: an identifier node
/// gives a variant labeled with its renamed message name carrying the
/// renamed payload, the disconnect node a payload-less `disconnect` variant.
pub open spec fn response_bind(
    n: crate::ast::GraphIdent,
    msgs: Seq<crate::ast::MessageDecl>,
    naming: NamingConvention,
) -> (Seq<char>, Option<TyView>) {
    match n {
        crate::ast::GraphIdent::Identifier(s) => (
            spec_convert_ident(s@, naming.variant_labels),
            match crate::ast::msg_lookup(msgs, s@) {
                Some(m) => Some(lower_ty(m.t, naming)),
                None => None,
            },
        ),
        crate::ast::GraphIdent::Disconnect => (
            spec_convert_ident("disconnect"@, naming.variant_labels),
            None,
        ),
        crate::ast::GraphIdent::Connect => (Seq::empty(), None),
    }
}

/// The variants of a synthesized response sum, one per successor in order.
pub open spec fn response_binds(
    ns: Seq<crate::ast::GraphIdent>,
    msgs: Seq<crate::ast::MessageDecl>,
    naming: NamingConvention,
) -> Seq<(Seq<char>, Option<TyView>)> {
    ns.map_values(|n: crate::ast::GraphIdent| response_bind(n, msgs, naming))
}

/// The mathematical shape of a function skeleton.
pub struct FnSkelView {
    pub name: Seq<char>,
    pub arg: Option<TyView>,
    pub ret_name: Seq<char>,
    pub ret_binds: Seq<(Seq<char>, Option<TyView>)>,
}

/// The shape of a function skeleton.
pub open spec fn skel_view(f: FunctionSkeleton) -> FnSkelView {
    FnSkelView {
        name: f.name@,
        arg: match f.arg {
            Some(t) => Some(ty_view(t)),
            None => None,
        },
        ret_name: f.ret.0@,
        ret_binds: sumbinds_view(f.ret.1@),
    }
}

/// The shapes of a list of function skeletons.
pub open spec fn skels_view(fs: Seq<FunctionSkeleton>) -> Seq<FnSkelView> {
    fs.map_values(|f: FunctionSkeleton| skel_view(f))
}

/// What the skeleton generated for one graph node looks like: its name is
/// the renamed `recv_` function, its argument the node's renamed payload
/// (none for connect), and its return type a synthesized sum named after
/// the node with one variant per successor.
pub open spec fn spec_create_function(
    current: crate::ast::GraphIdent,
    neighbors: Seq<crate::ast::GraphIdent>,
    msgs: Seq<crate::ast::MessageDecl>,
    naming: NamingConvention,
) -> FnSkelView {
    let basename = basename_of(current);
    FnSkelView {
        name: spec_convert_ident("recv_"@ + basename, naming.function_names),
        arg: match current {
            crate::ast::GraphIdent::Identifier(s) => match crate::ast::msg_lookup(msgs, s@) {
                Some(m) => Some(lower_ty(m.t, naming)),
                None => None,
            },
            _ => None,
        },
        ret_name: spec_convert_ident(basename + "_response"@, naming.variant_labels),
        ret_binds: response_binds(neighbors, msgs, naming),
    }
}

/// Build the `recv_` skeleton for one graph node, given its successors in
/// graph order.
pub fn create_function(
    system: &str,
    current_ident: &crate::ast::GraphIdent,
    neighbor_idents: &Vec<crate::ast::GraphIdent>,
    messages: &Vec<crate::ast::MessageDecl>,
    naming: NamingConvention,
) -> (r: FunctionSkeleton)
    requires
        !(*current_ident is Disconnect),
        *current_ident is Identifier ==> crate::ast::msg_lookup(
            messages@,
            current_ident->Identifier_0@,
        ) is Some,
        forall|j: int|
            0 <= j < neighbor_idents@.len() ==> !(#[trigger] neighbor_idents@[j] is Connect) && (
            neighbor_idents@[j] is Identifier ==> crate::ast::msg_lookup(
                messages@,
                neighbor_idents@[j]->Identifier_0@,
            ) is Some),
    ensures
        skel_view(r) == spec_create_function(*current_ident, neighbor_idents@, messages@, naming),
{
    let (basename, arg): (&str, Option<Ty>) = match current_ident {
        crate::ast::GraphIdent::Identifier(s) => {
            let mi = match crate::ast::find_message(messages, s) {
                Some(mi) => mi,
                None => vstd::pervasive::unreached(),
            };
            let ty1 = convert_ty(&messages[mi].t, naming);
            (s.as_str(), Some(ty1))
        },
        crate::ast::GraphIdent::Connect => ("connect", None),
        crate::ast::GraphIdent::Disconnect => vstd::pervasive::unreached(),
    };
    let full = "recv_".to_owned().concat(basename);
    let name = convert_ident(full.as_str(), naming.function_names);

    let mut sumbinds: Vec<SumBind> = Vec::new();
    let mut j: usize = 0;
    while j < neighbor_idents.len()
        invariant
            j <= neighbor_idents@.len(),
            sumbinds@.len() == j,
            forall|q: int|
                0 <= q < neighbor_idents@.len() ==> !(#[trigger] neighbor_idents@[q] is Connect)
                    && (neighbor_idents@[q] is Identifier ==> crate::ast::msg_lookup(
                    messages@,
                    neighbor_idents@[q]->Identifier_0@,
                ) is Some),
            sumbinds_view(sumbinds@) == response_binds(
                neighbor_idents@.subrange(0, j as int),
                messages@,
                naming,
            ),
        decreases neighbor_idents@.len() - j,
    {
        let nb = match &neighbor_idents[j] {
            crate::ast::GraphIdent::Identifier(s) => {
                let mi = match crate::ast::find_message(messages, s) {
                    Some(mi) => mi,
                    None => vstd::pervasive::unreached(),
                };
                let ty1 = convert_ty(&messages[mi].t, naming);
                let label = convert_ident(s.as_str(), naming.variant_labels);
                SumBind(label, Some(ty1))
            },
            crate::ast::GraphIdent::Connect => vstd::pervasive::unreached(),
            crate::ast::GraphIdent::Disconnect => {
                let label = convert_ident("disconnect", naming.variant_labels);
                SumBind(label, None)
            },
        };
        proof {
            assert(sumbind_view(nb) == response_bind(
                neighbor_idents@[j as int],
                messages@,
                naming,
            ));
        }
        let ghost sb0 = sumbinds@;
        sumbinds.push(nb);
        proof {
            let pre = neighbor_idents@.subrange(0, j as int + 1);
            let mid = neighbor_idents@.subrange(0, j as int);
            assert forall|q: int| 0 <= q < sumbinds@.len() implies sumbinds_view(sumbinds@)[q]
                == response_binds(pre, messages@, naming)[q] by {
                assert(pre[q] == neighbor_idents@[q]);
                assert(sumbinds_view(sumbinds@)[q] == sumbind_view(sumbinds@[q]));
                assert(response_binds(pre, messages@, naming)[q] == response_bind(
                    pre[q],
                    messages@,
                    naming,
                ));
                if q < j as int {
                    assert(sumbinds@[q] == sb0[q]);
                    assert(sumbinds_view(sb0)[q] == sumbind_view(sb0[q]));
                    assert(response_binds(mid, messages@, naming)[q] == response_bind(
                        mid[q],
                        messages@,
                        naming,
                    ));
                    assert(mid[q] == neighbor_idents@[q]);
                } else {
                    assert(sumbinds@[q] == nb);
                }
            }
            assert(sumbinds_view(sumbinds@) =~= response_binds(pre, messages@, naming));
        }
        j = j + 1;
    }
    proof {
        assert(neighbor_idents@.subrange(0, j as int) =~= neighbor_idents@);
    }

    let full2 = basename.to_owned().concat("_response");
    let sumname = convert_ident(full2.as_str(), naming.variant_labels);
    FunctionSkeleton { name, arg, ret: (sumname, sumbinds) }
}

/// The system that speaks at a graph node: the sender of an identifier
/// node's message, or, for the connect node, the sender of its first
/// successor's message — connect itself has none.
pub open spec fn node_sender(
    nodes: Seq<crate::ast::Spanned<crate::ast::GraphIdent>>,
    edges: Seq<(usize, usize)>,
    msgs: Seq<crate::ast::MessageDecl>,
    i: int,
) -> Option<Seq<char>> {
    match nodes[i].node {
        crate::ast::GraphIdent::Identifier(s) => crate::ast::msg_sender(msgs, s@),
        crate::ast::GraphIdent::Connect => {
            let ns = out_neighbors(edges, i);
            if ns.len() > 0 {
                match nodes[ns[0] as int].node {
                    crate::ast::GraphIdent::Identifier(s) => crate::ast::msg_sender(msgs, s@),
                    _ => None,
                }
            } else {
                None
            }
        },
        crate::ast::GraphIdent::Disconnect => None,
    }
}

/// The successor identifiers of node `i`, in graph order.
pub open spec fn neighbor_idents_of(
    nodes: Seq<crate::ast::Spanned<crate::ast::GraphIdent>>,
    edges: Seq<(usize, usize)>,
    i: int,
) -> Seq<crate::ast::GraphIdent> {
    out_neighbors(edges, i).map_values(
        |t: usize| nodes[t as int].node,
    )
}

/// What lowering guarantees of its input, all of it established by
/// validation: every identifier node names a declared message, no edge
/// enters a connect node, and every connect node has a first successor
/// that is an identifier node.
pub open spec fn lowering_pre(
    nodes: Seq<crate::ast::Spanned<crate::ast::GraphIdent>>,
    edges: Seq<(usize, usize)>,
    msgs: Seq<crate::ast::MessageDecl>,
) -> bool {
    &&& forall|i: int|
        0 <= i < nodes.len() ==> (#[trigger] nodes[i].node is Identifier
            ==> crate::ast::msg_lookup(msgs, nodes[i].node->Identifier_0@) is Some)
    &&& forall|k: int|
        0 <= k < edges.len() ==> (#[trigger] edges[k]).1 < nodes.len() && !(nodes[edges[k].1
            as int].node is Connect)
    &&& forall|i: int|
        0 <= i < nodes.len() ==> (#[trigger] nodes[i].node is Connect ==> {
            let ns = out_neighbors(edges, i);
            ns.len() > 0 && ns[0] < nodes.len() && nodes[ns[0] as int].node is Identifier
        })
}

/// The skeletons generated for the graph nodes from index `i` on: one per
/// node whose sender is not `system`, in node order; disconnect generates
/// none.
pub open spec fn spec_create_functions(
    nodes: Seq<crate::ast::Spanned<crate::ast::GraphIdent>>,
    edges: Seq<(usize, usize)>,
    msgs: Seq<crate::ast::MessageDecl>,
    system: Seq<char>,
    naming: NamingConvention,
    i: int,
) -> Seq<FnSkelView>
    decreases nodes.len() - i,
{
    if i < 0 || i >= nodes.len() {
        Seq::empty()
    } else {
        let rest = spec_create_functions(nodes, edges, msgs, system, naming, i + 1);
        if nodes[i].node is Disconnect {
            rest
        } else {
            match node_sender(nodes, edges, msgs, i) {
                Some(x) => {
                    if x == system {
                        rest
                    } else {
                        seq![
                            spec_create_function(
                                nodes[i].node,
                                neighbor_idents_of(nodes, edges, i),
                                msgs,
                                naming,
                            ),
                        ] + rest
                    }
                },
                None => rest,
            }
        }
    }
}

/// Generate the receive-function skeletons of `system`: one per graph node
/// whose message this system must receive.
pub fn create_functions(
    messages: &Vec<crate::ast::MessageDecl>,
    g: &crate::ast::ProtocolGraph,
    system: &str,
    naming: NamingConvention,
) -> (r: Vec<FunctionSkeleton>)
    requires
        lowering_pre(crate::graph::graph_nodes(*g), crate::graph::graph_edges(*g), messages@),
    ensures
        skels_view(r@) == spec_create_functions(
            crate::graph::graph_nodes(*g),
            crate::graph::graph_edges(*g),
            messages@,
            system@,
            naming,
            0,
        ),
{
    let ghost nodes = crate::graph::graph_nodes(*g);
    let ghost edges = crate::graph::graph_edges(*g);
    let n = crate::graph::graph_node_count(g);
    let mut result: Vec<FunctionSkeleton> = Vec::new();
    let mut i: usize = 0;
    while i < n
        invariant
            i <= n == nodes.len(),
            nodes == crate::graph::graph_nodes(*g),
            edges == crate::graph::graph_edges(*g),
            lowering_pre(nodes, edges, messages@),
            skels_view(result@) + spec_create_functions(
                nodes,
                edges,
                messages@,
                system@,
                naming,
                i as int,
            ) == spec_create_functions(nodes, edges, messages@, system@, naming, 0),
        decreases n - i,
    {
        let w = crate::graph::graph_node_weight(g, i);
        let is_disconnect = match &w.node {
            crate::ast::GraphIdent::Disconnect => true,
            _ => false,
        };
        if !is_disconnect {
            let neighbors_idx = collect_out_neighbors(g, i);
            let mut nidents: Vec<crate::ast::GraphIdent> = Vec::new();
            let mut j: usize = 0;
            proof {
                assert(neighbor_idents_of(nodes, edges, i as int).subrange(0, 0)
                    =~= Seq::<crate::ast::GraphIdent>::empty());
            }
            while j < neighbors_idx.len()
                invariant
                    j <= neighbors_idx@.len(),
                    nodes == crate::graph::graph_nodes(*g),
                    edges == crate::graph::graph_edges(*g),
                    neighbors_idx@ == out_neighbors(edges, i as int),
                    forall|q: int| 0 <= q < neighbors_idx@.len() ==> neighbors_idx@[q] < nodes.len(),
                    nidents@ == neighbor_idents_of(nodes, edges, i as int).subrange(0, j as int),
                decreases neighbors_idx@.len() - j,
            {
                let w2 = crate::graph::graph_node_weight(g, neighbors_idx[j]);
                nidents.push(w2.node);
                proof {
                    assert(nidents@ =~= neighbor_idents_of(nodes, edges, i as int).subrange(
                        0,
                        j as int + 1,
                    ));
                }
                j = j + 1;
            }
            proof {
                assert(nidents@ =~= neighbor_idents_of(nodes, edges, i as int));
                assert forall|q: int| 0 <= q < nidents@.len() implies !(#[trigger] nidents@[q]
                    is Connect) && (nidents@[q] is Identifier ==> crate::ast::msg_lookup(
                    messages@,
                    nidents@[q]->Identifier_0@,
                ) is Some) by {
                    let t = out_neighbors(edges, i as int)[q];
                    assert(nidents@[q] == nodes[t as int].node);
                    let kk = choose|kk: int|
                        0 <= kk < edges.len() && edges[kk].0 == i as usize && edges[kk].1 == t;
                    assert(!(nodes[edges[kk].1 as int].node is Connect));
                }
            }
            let skip = match &w.node {
                crate::ast::GraphIdent::Identifier(s) => {
                    let mi = match crate::ast::find_message(messages, s) {
                        Some(mi) => mi,
                        None => vstd::pervasive::unreached(),
                    };
                    str_eq(messages[mi].sender.node.as_str(), system)
                },
                crate::ast::GraphIdent::Connect => {
                    proof {
                        assert(nidents@.len() > 0);
                        assert(nidents@[0] == nodes[out_neighbors(edges, i as int)[0] as int].node);
                    }
                    match &nidents[0] {
                        crate::ast::GraphIdent::Identifier(s) => {
                            let mi = match crate::ast::find_message(messages, s) {
                                Some(mi) => mi,
                                None => vstd::pervasive::unreached(),
                            };
                            str_eq(messages[mi].sender.node.as_str(), system)
                        },
                        _ => vstd::pervasive::unreached(),
                    }
                },
                crate::ast::GraphIdent::Disconnect => vstd::pervasive::unreached(),
            };
            if !skip {
                let f = create_function(system, &w.node, &nidents, messages, naming);
                let ghost r0 = result@;
                result.push(f);
                proof {
                    assert(skels_view(result@) =~= skels_view(r0) + seq![skel_view(f)]);
                    assert((skels_view(r0) + seq![skel_view(f)]) + spec_create_functions(
                        nodes,
                        edges,
                        messages@,
                        system@,
                        naming,
                        i as int + 1,
                    ) =~= skels_view(r0) + (seq![skel_view(f)] + spec_create_functions(
                        nodes,
                        edges,
                        messages@,
                        system@,
                        naming,
                        i as int + 1,
                    )));
                }
            }
        }
        i = i + 1;
    }
    result
}

/// Lower a validated program for one of its two systems: its declarations
/// renamed one for one, and one receive skeleton per graph node whose
/// message the system receives.
pub fn intermediate_ast(root: &crate::ast::Root, system: &str, naming: NamingConvention) -> (r:
    Root)
    requires
        system@ == root.systems.0.node@ || system@ == root.systems.1.node@,
        lowering_pre(
            crate::graph::graph_nodes(root.graph),
            crate::graph::graph_edges(root.graph),
            root.messages@,
        ),
    ensures
        tydecls_view(r.types@) == lower_tydecls(root.types@, naming),
        skels_view(r.functions@) == spec_create_functions(
            crate::graph::graph_nodes(root.graph),
            crate::graph::graph_edges(root.graph),
            root.messages@,
            system@,
            naming,
            0,
        ),
{
    Root {
        types: convert_tydecls(&root.types, naming),
        functions: create_functions(&root.messages, &root.graph, system, naming),
    }
}

/// Whether some edge from `src` has target `t`.
spec fn target_of(edges: Seq<(usize, usize)>, src: int, t: usize) -> bool {
    exists|k: int| 0 <= k < edges.len() && edges[k].0 as int == src && (#[trigger] edges[k]).1 == t
}

/// A target of an edge in the tail is a target in the whole edge list.
proof fn lemma_target_shift(edges: Seq<(usize, usize)>, src: int, t: usize)
    requires
        edges.len() > 0,
        target_of(edges.drop_first(), src, t),
    ensures
        target_of(edges, src, t),
{
    let kk = choose|kk: int|
        0 <= kk < edges.drop_first().len() && edges.drop_first()[kk].0 as int == src && (
        #[trigger] edges.drop_first()[kk]).1 == t;
    assert(edges[kk + 1] == edges.drop_first()[kk]);
}

/// Every successor in `out_neighbors` is the target of some edge that
/// leaves `src`.
proof fn lemma_out_neighbors_targets(edges: Seq<(usize, usize)>, src: int)
    ensures
        forall|q: int|
            0 <= q < out_neighbors(edges, src).len() ==> target_of(
                edges,
                src,
                #[trigger] out_neighbors(edges, src)[q],
            ),
    decreases edges.len(),
{
    if edges.len() > 0 {
        lemma_out_neighbors_targets(edges.drop_first(), src);
        assert forall|q: int| 0 <= q < out_neighbors(edges, src).len() implies target_of(
            edges,
            src,
            #[trigger] out_neighbors(edges, src)[q],
        ) by {
            let rest = out_neighbors(edges.drop_first(), src);
            if q < rest.len() {
                assert(out_neighbors(edges, src)[q] == rest[q]);
                lemma_target_shift(edges, src, rest[q]);
            } else {
                assert(edges[0].0 as int == src && edges[0].1 == out_neighbors(edges, src)[q]);
            }
        }
    } else {
        assert(out_neighbors(edges, src) =~= Seq::<usize>::empty());
    }
}

/// A node with an outgoing edge has a nonempty successor list.
proof fn lemma_out_neighbors_nonempty(edges: Seq<(usize, usize)>, src: int)
    requires
        crate::ast::has_edge_from(edges, src),
    ensures
        out_neighbors(edges, src).len() > 0,
    decreases edges.len(),
{
    let k = choose|k: int| 0 <= k < edges.len() && edges[k].0 == src;
    if edges[0].0 as int != src {
        assert(edges.drop_first()[k - 1] == edges[k]);
        assert(crate::ast::has_edge_from(edges.drop_first(), src));
        lemma_out_neighbors_nonempty(edges.drop_first(), src);
    }
}

/// A graph that passed validation satisfies everything lowering relies on:
/// identifier nodes resolve, no edge enters a connect node, and the connect
/// node's first successor is an identifier node.
pub proof fn lemma_validated_ready_for_lowering(
    nodes: Seq<crate::ast::Spanned<crate::ast::GraphIdent>>,
    edges: Seq<(usize, usize)>,
    msgs: Seq<crate::ast::MessageDecl>,
)
    requires
        crate::ast::spec_check_graph(nodes, edges, msgs) is Ok,
        crate::ast::edges_wf(nodes, edges),
    ensures
        lowering_pre(nodes, edges, msgs),
{
    let copt = crate::ast::first_connect_from(nodes, 0);
    assert(copt is Some);
    let c = copt->0;
    crate::ast::lemma_graph_ok(nodes, edges, msgs, c);
    assert forall|k: int|
        0 <= k < edges.len() implies (#[trigger] edges[k]).1 < nodes.len() && !(nodes[edges[k].1
        as int].node is Connect) by {
        if nodes[edges[k].1 as int].node is Connect {
            assert(edges[k].1 as int == c);
            assert(crate::ast::has_edge_to(edges, c));
        }
    }
    assert forall|i: int|
        0 <= i < nodes.len() implies (#[trigger] nodes[i].node is Connect ==> {
        let ns = out_neighbors(edges, i);
        ns.len() > 0 && ns[0] < nodes.len() && nodes[ns[0] as int].node is Identifier
    }) by {
        if nodes[i].node is Connect {
            assert(i == c);
            lemma_out_neighbors_nonempty(edges, c);
            lemma_out_neighbors_targets(edges, c);
            let ns = out_neighbors(edges, c);
            assert(target_of(edges, c, ns[0]));
            let kk = choose|kk: int|
                0 <= kk < edges.len() && edges[kk].0 as int == c && (#[trigger] edges[kk]).1
                    == ns[0];
            assert(nodes[edges[kk].1 as int].node is Identifier);
        }
    }
}

/// Lowering is deterministic: two lowered representations of the same
/// validated input, target system and naming convention have the same
/// shape.
pub proof fn lemma_lowering_deterministic(
    r1: Root,
    r2: Root,
    nodes: Seq<crate::ast::Spanned<crate::ast::GraphIdent>>,
    edges: Seq<(usize, usize)>,
    types: Seq<crate::ast::TyDecl>,
    msgs: Seq<crate::ast::MessageDecl>,
    system: Seq<char>,
    naming: NamingConvention,
)
    requires
        tydecls_view(r1.types@) == lower_tydecls(types, naming),
        skels_view(r1.functions@) == spec_create_functions(nodes, edges, msgs, system, naming, 0),
        tydecls_view(r2.types@) == lower_tydecls(types, naming),
        skels_view(r2.functions@) == spec_create_functions(nodes, edges, msgs, system, naming, 0),
    ensures
        tydecls_view(r1.types@) == tydecls_view(r2.types@),
        skels_view(r1.functions@) == skels_view(r2.functions@),
{
}

} // verus!
