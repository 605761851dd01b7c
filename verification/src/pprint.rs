//! Pretty-printing of a function's parameter list.
//!
//! A Nix function has one parameter, a plain identifier or a destructuring
//! pattern, and a body that may itself be a function (curried style). The
//! printer renders each parameter in turn, one per line, each deeper
//! parameter indented one tab further, and ends with `...` standing for the
//! body it never renders.

use crate::tree::NixElement;
use crate::tree::NixNode;
use crate::tree::ParamChild;
use crate::tree::lambda_body_node;
use crate::tree::lambda_param_node;
use crate::tree::node_children;
use crate::tree::node_is_lambda;
use crate::tree::node_size;
use crate::tree::param_child_node_info;
use crate::tree::param_child_token_info;
use vstd::prelude::*;

verus! {

use vstd::string::StringExecFns;

/// One child of a parameter node, reduced to the plain data the renderer
/// reads.
pub enum ParamPiece {
    Node { text: String, is_pat_entry: bool },
    Token { tok: ParamChild },
}

/// The text one piece contributes: a node's source text, with a line break
/// after a pattern entry; a kept token's text, with a line break after a
/// comment; nothing for other tokens.
pub open spec fn render_piece(p: ParamPiece) -> Seq<char> {
    match p {
        ParamPiece::Node { text, is_pat_entry } => if is_pat_entry {
            text@ + ",\n"@
        } else {
            text@
        },
        ParamPiece::Token { tok } => match tok {
            ParamChild::Comment { text } => text@ + "\n"@,
            ParamChild::Ellipsis { text } => text@,
            ParamChild::Question { text } => text@,
            ParamChild::LBrace { text } => text@,
            ParamChild::RBrace { text } => text@,
            ParamChild::Other => Seq::empty(),
        },
    }
}

/// The pieces of one parameter, concatenated.
pub open spec fn cat_pieces(ps: Seq<ParamPiece>) -> Seq<char>
    decreases ps.len(),
{
    if ps.len() == 0 {
        Seq::empty()
    } else {
        render_piece(ps[0]) + cat_pieces(ps.skip(1))
    }
}

/// `n` tab characters.
pub open spec fn tabs(n: int) -> Seq<char>
    decreases n,
{
    if n <= 0 {
        Seq::empty()
    } else {
        tabs(n - 1).push('\t')
    }
}

/// The synopsis text up to (not including) the trailing ellipsis: each
/// parameter's pieces and `: `, every further parameter on a new line,
/// indented one tab deeper.
pub open spec fn render_core(pss: Seq<Seq<ParamPiece>>, depth: int) -> Seq<char>
    decreases pss.len(),
{
    if pss.len() == 0 {
        Seq::empty()
    } else if pss.len() == 1 {
        cat_pieces(pss[0]) + ": "@
    } else {
        cat_pieces(pss[0]) + ": "@ + seq!['\n'] + tabs(depth + 1) + render_core(
            pss.skip(1),
            depth + 1,
        )
    }
}

/// The full synopsis for a sequence of parameter piece lists.
pub open spec fn render_params_spec(pss: Seq<Seq<ParamPiece>>) -> Seq<char> {
    render_core(pss, 0) + "..."@
}

/// The views of a sequence of piece vectors.
pub open spec fn piece_views(ls: Seq<Vec<ParamPiece>>) -> Seq<Seq<ParamPiece>> {
    ls.map(|j: int, v: Vec<ParamPiece>| v@)
}

proof fn lemma_cat_pieces_snoc(ps: Seq<ParamPiece>, x: ParamPiece)
    ensures
        cat_pieces(ps.push(x)) == cat_pieces(ps) + render_piece(x),
    decreases ps.len(),
{
    if ps.len() == 0 {
        assert(ps.push(x)[0] == x);
        assert(ps.push(x).skip(1) =~~= Seq::<ParamPiece>::empty());
        assert(cat_pieces(Seq::<ParamPiece>::empty()) == Seq::<char>::empty());
        assert(render_piece(x) + Seq::<char>::empty() =~= render_piece(x));
        assert(Seq::<char>::empty() + render_piece(x) =~= render_piece(x));
    } else {
        assert(ps.push(x)[0] == ps[0]);
        assert(ps.push(x).skip(1) =~~= ps.skip(1).push(x));
        lemma_cat_pieces_snoc(ps.skip(1), x);
        assert(render_piece(ps[0]) + (cat_pieces(ps.skip(1)) + render_piece(x)) =~= (render_piece(
            ps[0],
        ) + cat_pieces(ps.skip(1))) + render_piece(x));
    }
}

/// Renders gathered parameter pieces into the synopsis fragment.
pub fn render_params(pss: &Vec<Vec<ParamPiece>>) -> (r: String)
    ensures
        r@ == render_params_spec(piece_views(pss@)),
{
    let ghost full = piece_views(pss@);
    let n: usize = pss.len();
    let mut out = String::new();
    let mut j: usize = 0;
    proof {
        assert(full.skip(0) =~~= full);
        assert(Seq::<char>::empty() + render_core(full, 0) =~= render_core(full, 0));
    }
    while j < n
        invariant
            n == pss@.len(),
            j <= n,
            full == piece_views(pss@),
            render_core(full, 0) == out@ + render_core(full.skip(j as int), j as int),
        decreases n - j,
    {
        let ghost rem = full.skip(j as int);
        proof {
            assert(rem[0] == pss@[j as int]@);
            assert(rem.skip(1) =~~= full.skip(j + 1));
        }
        let ps = &pss[j];
        let m: usize = ps.len();
        let mut i: usize = 0;
        let ghost out0 = out@;
        proof {
            assert(ps@.take(0) =~~= Seq::<ParamPiece>::empty());
            assert(out@ + cat_pieces(ps@.take(0)) =~= out@);
        }
        while i < m
            invariant
                m == ps@.len(),
                i <= m,
                out@ == out0 + cat_pieces(ps@.take(i as int)),
            decreases m - i,
        {
            proof {
                assert(ps@.take(i + 1) =~~= ps@.take(i as int).push(ps@[i as int]));
                lemma_cat_pieces_snoc(ps@.take(i as int), ps@[i as int]);
            }
            match &ps[i] {
                ParamPiece::Node { text, is_pat_entry } => {
                    out.append(text.as_str());
                    if *is_pat_entry {
                        out.append(",\n");
                    }
                },
                ParamPiece::Token { tok } => {
                    match tok {
                        ParamChild::Comment { text } => {
                            out.append(text.as_str());
                            out.append("\n");
                        },
                        ParamChild::Ellipsis { text } => {
                            out.append(text.as_str());
                        },
                        ParamChild::Question { text } => {
                            out.append(text.as_str());
                        },
                        ParamChild::LBrace { text } => {
                            out.append(text.as_str());
                        },
                        ParamChild::RBrace { text } => {
                            out.append(text.as_str());
                        },
                        ParamChild::Other => {},
                    }
                },
            }
            proof {
                assert(out@ =~= out0 + cat_pieces(ps@.take(i + 1)));
            }
            i = i + 1;
        }
        proof {
            assert(ps@.take(m as int) =~~= ps@);
        }
        out.append(": ");
        if j + 1 < n {
            out.append("\n");
            let ghost out1 = out@;
            let mut t: usize = 0;
            proof {
                assert(tabs(0) == Seq::<char>::empty());
                assert(out@ + tabs(0) =~= out@);
            }
            while t < j + 1
                invariant
                    t <= j + 1,
                    j + 1 < usize::MAX,
                    out@ == out1 + tabs(t as int),
                decreases j + 1 - t,
            {
                out.append("\t");
                proof {
                    assert("\t"@ =~= seq!['\t']) by {
                        reveal_strlit("\t");
                    }
                    assert(out@ =~= out1 + tabs(t + 1));
                }
                t = t + 1;
            }
            proof {
                assert(render_core(rem, j as int) == cat_pieces(rem[0]) + ": "@ + seq!['\n']
                    + tabs(j + 1) + render_core(rem.skip(1), j + 1));
                assert("\n"@ =~= seq!['\n']) by {
                    reveal_strlit("\n");
                }
                assert(out@ =~= out0 + (cat_pieces(rem[0]) + ": "@ + seq!['\n'] + tabs(j + 1)));
                assert(out0 + (cat_pieces(rem[0]) + ": "@ + seq!['\n'] + tabs(j + 1))
                    + render_core(full.skip(j + 1), j + 1) =~= out0 + (cat_pieces(rem[0]) + ": "@
                    + seq!['\n'] + tabs(j + 1) + render_core(full.skip(j + 1), j + 1)));
            }
        } else {
            proof {
                assert(rem.len() == 1);
                assert(render_core(rem, j as int) == cat_pieces(rem[0]) + ": "@);
                assert(out@ =~= out0 + (cat_pieces(rem[0]) + ": "@));
                assert(full.skip(j + 1) =~~= Seq::<Seq<ParamPiece>>::empty());
                assert(render_core(full.skip(j + 1), j + 1) == Seq::<char>::empty());
                assert(out@ + Seq::<char>::empty() =~= out@);
            }
        }
        j = j + 1;
    }
    proof {
        if n == 0 {
            assert(render_core(full, 0) == Seq::<char>::empty());
            assert(out@ + Seq::<char>::empty() =~= out@);
        } else {
            assert(full.skip(n as int) =~~= Seq::<Seq<ParamPiece>>::empty());
            assert(render_core(full.skip(n as int), n as int) == Seq::<char>::empty());
            assert(out@ + Seq::<char>::empty() =~= out@);
        }
    }
    out.append("...");
    out
}

/// On a curried function of two parameters the synopsis is the first
/// parameter's rendering, `: `, a newline and one tab of indentation, the
/// second parameter's rendering, `: `, and the trailing ellipsis.
pub proof fn lemma_two_param_synopsis(p1: Seq<ParamPiece>, p2: Seq<ParamPiece>)
    ensures
        render_params_spec(seq![p1, p2]) == cat_pieces(p1) + ": "@ + seq!['\n', '\t'] + cat_pieces(
            p2,
        ) + ": "@ + "..."@,
{
    let pss = seq![p1, p2];
    assert(pss[0] == p1);
    assert(pss.skip(1) =~~= seq![p2]);
    assert(tabs(0) == Seq::<char>::empty());
    assert(tabs(1) =~= seq!['\t']);
    assert(render_core(seq![p2], 1) == cat_pieces(p2) + ": "@);
    assert(render_core(pss, 0) == cat_pieces(p1) + ": "@ + seq!['\n'] + tabs(1) + render_core(
        seq![p2],
        1,
    ));
    assert(cat_pieces(p1) + ": "@ + seq!['\n'] + tabs(1) + (cat_pieces(p2) + ": "@) + "..."@ =~= (
    cat_pieces(p1) + ": "@ + seq!['\n', '\t']) + cat_pieces(p2) + ": "@ + "..."@);
    assert(render_params_spec(pss) =~= cat_pieces(p1) + ": "@ + seq!['\n', '\t'] + cat_pieces(p2)
        + ": "@ + "..."@);
}

fn classify_child(el: &NixElement) -> (r: ParamPiece) {
    match param_child_node_info(el) {
        Some(info) => {
            let (text, is_pat) = info;
            ParamPiece::Node { text, is_pat_entry: is_pat }
        },
        None => ParamPiece::Token { tok: param_child_token_info(el) },
    }
}

fn classify_children(p: &NixNode) -> (r: Vec<ParamPiece>) {
    let kids = node_children(p);
    let n: usize = kids.len();
    let mut out: Vec<ParamPiece> = Vec::new();
    let mut i: usize = 0;
    while i < n
        invariant
            n == kids@.len(),
            i <= n,
        decreases n - i,
    {
        out.push(classify_child(&kids[i]));
        i = i + 1;
    }
    out
}

/// The measure that bounds the walk down a chain of function bodies.
pub open spec fn opt_size(w: Option<NixNode>) -> nat {
    match w {
        Some(n) => node_size(n) + 1,
        None => 0,
    }
}

/// Renders the parameter list of a (possibly curried) function node into
/// the synopsis fragment, or nothing when the tree under the node is not
/// shaped as a function. The walk mirrors the tree: one parameter per
/// function node, following function bodies while they are functions again.
pub fn pprint_args(lambda: &NixNode) -> (r: Option<String>)
    ensures
        r matches Some(s) ==> exists|pss: Seq<Seq<ParamPiece>>| s@ == render_params_spec(pss),
{
    let mut pss: Vec<Vec<ParamPiece>> = Vec::new();
    let first = match lambda_param_node(lambda) {
        Some(p) => p,
        None => {
            return None;
        },
    };
    pss.push(classify_children(&first));
    let mut body = lambda_body_node(lambda);
    loop
        decreases opt_size(body),
    {
        match body {
            Some(b) => {
                if node_is_lambda(&b) {
                    let p = match lambda_param_node(&b) {
                        Some(p) => p,
                        None => {
                            return None;
                        },
                    };
                    pss.push(classify_children(&p));
                    body = lambda_body_node(&b);
                } else {
                    return Some(render_params(&pss));
                }
            },
            None => {
                return None;
            },
        }
    }
}

} // verus!
