//! Locating the function under a position and the comments that document it.

use crate::comments::DocToken;
use crate::comments::cleanup_comments;
use crate::comments::cleanup_comments_spec;
use crate::format::SearchResult;
use crate::format::format_spec;
use crate::pprint::pprint_args;
use crate::text::convert_endings;
use crate::text::try_find_pos;
use crate::tree::ElementClass;
use crate::tree::NixNode;
use crate::tree::attrpath_value_name;
use crate::tree::classify_element;
use crate::tree::covering_element_within;
use crate::tree::element_depth;
use crate::tree::element_parent;
use crate::tree::element_pos;
use crate::tree::element_prev;
use crate::tree::node_depth;
use crate::tree::node_is_attrpath_value;
use crate::tree::node_is_lambda;
use crate::tree::node_parent;
use crate::tree::node_to_element;
use crate::tree::parse_root_expr;
use vstd::prelude::*;

verus! {

use vstd::string::StrSliceExecFns;
use vstd::string::StringExecFns;

/// The identifier shown when a function has no enclosing named binding.
pub fn unknown_binding_name() -> (r: String) {
    String::from_str("<unknown binding>")
}

/// The measure that bounds the climb up a chain of ancestors.
pub open spec fn opt_depth(w: Option<NixNode>) -> nat {
    match w {
        Some(n) => node_depth(n) + 1,
        None => 0,
    }
}

/// Walks the elements preceding `anchor` in the tree — previous siblings,
/// climbing to the parent when none is left — and gathers the comment and
/// whitespace tokens met, nearest first, into the filtered documentation
/// block. One whitespace token directly before the anchor is passed over;
/// the first other element ends the walk. Yields nothing when no comment
/// text survives the filter.
pub fn find_comment(anchor: &NixNode) -> (r: Option<String>)
    ensures
        r matches Some(s) ==> s@.len() > 0 && (exists|ts: Seq<DocToken>|
            s@ == cleanup_comments_spec(ts)),
{
    let mut tokens: Vec<DocToken> = Vec::new();
    let mut first: bool = true;
    let mut cur = node_to_element(anchor);
    let mut walking: bool = true;
    while walking
        decreases element_depth(cur), element_pos(cur), (if walking {
            1int
        } else {
            0int
        }),
    {
        match element_prev(&cur) {
            Some(p) => {
                match classify_element(&p) {
                    ElementClass::Comment { text } => {
                        tokens.push(DocToken::Comment(text));
                        first = false;
                    },
                    ElementClass::Whitespace { text } => {
                        if first {
                            first = false;
                        } else {
                            tokens.push(DocToken::Whitespace(text));
                        }
                    },
                    ElementClass::Other => {
                        walking = false;
                    },
                }
                cur = p;
            },
            None => {
                match element_parent(&cur) {
                    Some(parent) => {
                        cur = node_to_element(&parent);
                    },
                    None => {
                        walking = false;
                    },
                }
            },
        }
    }
    let cleaned = cleanup_comments(&tokens);
    if cleaned.as_str().unicode_len() > 0 {
        proof {
            assert(cleaned@ == cleanup_comments_spec(tokens@));
        }
        Some(cleaned)
    } else {
        None
    }
}

/// Builds the result triple for a located function: the given identifier
/// and documentation with the function's rendered parameter block, or
/// nothing when the parameter list cannot be rendered.
pub fn visit_lambda(name: String, comment: String, lambda: &NixNode) -> (r: Option<SearchResult>)
    ensures
        r matches Some(sr) ==> sr.identifier == name && sr.doc == comment,
{
    match pprint_args(lambda) {
        Some(param_block) => Some(
            SearchResult { identifier: name, doc: comment, param_block },
        ),
        None => None,
    }
}

/// Answers one hover query: finds the function literal under the 1-indexed
/// (line, column) position in `source`, the binding it is assigned to and
/// the comments above that binding, and renders the formatted block, with
/// `filename` and `line` in its footer. Yields nothing when the position
/// resolves to no function, the text does not parse, or the tree under the
/// position is not shaped as expected — never by failing.
pub fn get_function_docs(source: &str, filename: &str, line: usize, col: usize) -> (r: Option<
    String,
>)
    ensures
        r matches Some(s) ==> exists|id: Seq<char>, doc: Seq<char>, pb: Seq<char>|
            s@ == format_spec(id, pb, doc, filename@, line as int),
        crate::text::find_pos_spec(
            vstd::utf8::encode_utf8(crate::text::normalize_endings(source@)),
            line as int,
            col as int,
        ) is None ==> r is None,
{
    let decoded = convert_endings(source);
    let pos: usize = match try_find_pos(decoded.as_str(), line, col) {
        Some(p) => p,
        None => {
            return None;
        },
    };
    // The smallest function literal spans four bytes (`_: 3`), so probe a
    // four-byte range; a position too near the end of the address space
    // cannot head a function either.
    if pos > (u32::MAX - 4) as usize {
        return None;
    }
    let root = match parse_root_expr(decoded.as_str()) {
        Some(n) => n,
        None => {
            return None;
        },
    };
    let covering = match covering_element_within(&root, pos as u32, 4) {
        Some(el) => el,
        None => {
            return None;
        },
    };
    // Climb until a function literal encloses the covering element.
    let mut cur = match crate::tree::element_start_node(&covering) {
        Some(n) => n,
        None => {
            return None;
        },
    };
    while !node_is_lambda(&cur)
        decreases node_depth(cur),
    {
        match node_parent(&cur) {
            Some(p) => {
                cur = p;
            },
            None => {
                return None;
            },
        }
    }
    // Climb on from the function, keeping the outermost `name = value;`
    // binding met, so that the innermost of nested functions still reports
    // the name its outermost binding carries.
    let mut binding: Option<NixNode> = None;
    let mut walk: Option<NixNode> = node_parent(&cur);
    loop
        decreases opt_depth(walk),
    {
        match walk {
            Some(n) => {
                let next = node_parent(&n);
                if node_is_attrpath_value(&n) {
                    binding = Some(n);
                }
                walk = next;
            },
            None => {
                break ;
            },
        }
    }
    let identifier: String = match &binding {
        Some(b) => match attrpath_value_name(b) {
            Some(s) => s,
            None => {
                return None;
            },
        },
        None => unknown_binding_name(),
    };
    let anchor: &NixNode = match &binding {
        Some(b) => b,
        None => &cur,
    };
    let comment: String = match find_comment(anchor) {
        Some(c) => c,
        None => String::new(),
    };
    let result = match visit_lambda(identifier, comment, &cur) {
        Some(sr) => sr,
        None => {
            return None;
        },
    };
    Some(result.format(filename, line))
}

} // verus!
