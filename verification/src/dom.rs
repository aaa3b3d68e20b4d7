//! A flat document model and the tree-matching predicates over it.
//!
//! A parsed document is a sequence of nodes in document (pre-order)
//! traversal order, each carrying its depth.  The subtree of a node are the
//! nodes that follow it while the depth stays greater; matching an element
//! by tag and by a substring of its `style` attribute is the explicit form
//! of the upstream page's inline-style conventions, and is expected to
//! break when those conventions change.

use vstd::prelude::*;
use crate::text::{spec_contains, spec_trim, contains_chars, trim_chars, chars_of};

verus! {

/// One attribute of an element node.
pub struct Attr {
    pub name: String,
    pub value: String,
}

pub ghost struct AttrV {
    pub name: Seq<char>,
    pub value: Seq<char>,
}

impl View for Attr {
    type V = AttrV;

    open spec fn view(&self) -> AttrV {
        AttrV { name: self.name@, value: self.value@ }
    }
}

/// One node of a parsed document: an element with tag and attributes, or a
/// text node.  `depth` places it in the pre-order traversal.
pub struct Node {
    pub depth: usize,
    pub is_text: bool,
    pub tag: String,
    pub text: String,
    pub attrs: Vec<Attr>,
}

pub ghost struct NodeV {
    pub depth: int,
    pub is_text: bool,
    pub tag: Seq<char>,
    pub text: Seq<char>,
    pub attrs: Seq<AttrV>,
}

impl View for Node {
    type V = NodeV;

    open spec fn view(&self) -> NodeV {
        NodeV {
            depth: self.depth as int,
            is_text: self.is_text,
            tag: self.tag@,
            text: self.text@,
            attrs: self.attrs@.map_values(|a: Attr| a@),
        }
    }
}

pub open spec fn views_of(ns: Seq<Node>) -> Seq<NodeV> {
    ns.map_values(|n: Node| n@)
}

impl Attr {
    pub fn new(name: &str, value: &str) -> (a: Attr)
        ensures
            a@.name == name@,
            a@.value == value@,
    {
        Attr { name: name.to_owned(), value: value.to_owned() }
    }
}

impl Node {
    pub fn elem(depth: usize, tag: &str, attrs: Vec<Attr>) -> (n: Node)
        ensures
            n@.depth == depth as int,
            n@.is_text == false,
            n@.tag == tag@,
            n@.text == Seq::<char>::empty(),
            n@.attrs == attrs@.map_values(|a: Attr| a@),
    {
        Node { depth, is_text: false, tag: tag.to_owned(), text: String::new(), attrs }
    }

    pub fn text_node(depth: usize, text: &str) -> (n: Node)
        ensures
            n@.depth == depth as int,
            n@.is_text == true,
            n@.tag == Seq::<char>::empty(),
            n@.text == text@,
            n@.attrs == Seq::<AttrV>::empty(),
    {
        let n = Node {
            depth,
            is_text: true,
            tag: String::new(),
            text: text.to_owned(),
            attrs: Vec::new(),
        };
        proof {
            assert(n@.attrs =~= Seq::<AttrV>::empty());
        }
        n
    }
}

/// What a document text denotes as a node sequence, as the HTML parser
/// reads it: elements and text nodes in document order with their depths.
pub uninterp spec fn parsed_doc(s: Seq<char>) -> Seq<NodeV>;

/// Relies on `scraper::Html::parse_document` and the pre-order traversal of
/// its tree: the nodes of the document described by `html`, in document
/// order; the result depends on the text alone.
#[verifier::external_body]
pub fn parse_document_nodes(html: &str) -> (r: Vec<Node>)
    ensures
        views_of(r@) == parsed_doc(html@),
{
    let doc = scraper::Html::parse_document(html);
    let mut out: Vec<Node> = Vec::new();
    for n in doc.tree.root().descendants() {
        let d = n.ancestors().count();
        match n.value() {
            scraper::Node::Element(e) => {
                let attrs = e.attrs().map(|(k, v)| Attr::new(k, v)).collect();
                out.push(Node::elem(d, e.name(), attrs));
            },
            scraper::Node::Text(t) => out.push(Node::text_node(d, &**t)),
            _ => {},
        }
    }
    out
}

/// First index at or past `j` whose depth does not exceed `d`; the length
/// of the sequence when there is none.
pub open spec fn subtree_end_from(ns: Seq<NodeV>, d: int, j: int) -> int
    decreases ns.len() - j,
{
    if j < 0 || j >= ns.len() {
        ns.len() as int
    } else if ns[j].depth <= d {
        j
    } else {
        subtree_end_from(ns, d, j + 1)
    }
}

/// One past the last node of the subtree rooted at `i`.
pub open spec fn subtree_end(ns: Seq<NodeV>, i: int) -> int {
    subtree_end_from(ns, ns[i].depth, i + 1)
}

/// Exec scan for the end of the subtree rooted at `i`.
pub fn subtree_end_at(ns: &Vec<Node>, i: usize) -> (e: usize)
    requires
        i < ns@.len(),
    ensures
        e == subtree_end(views_of(ns@), i as int),
        i < e <= ns@.len(),
{
    let ghost nv = views_of(ns@);
    let n = ns.len();
    let d = ns[i].depth;
    let mut j: usize = i + 1;
    while j < n && ns[j].depth > d
        invariant
            i + 1 <= j <= n,
            n == ns@.len(),
            d == ns@[i as int].depth,
            nv == views_of(ns@),
            subtree_end_from(nv, d as int, i + 1 as int) == subtree_end_from(
                nv,
                d as int,
                j as int,
            ),
        decreases n - j,
    {
        proof {
            assert(nv[j as int] == ns@[j as int]@);
        }
        j = j + 1;
    }
    proof {
        assert(nv[i as int].depth == d as int);
        if j < n {
            assert(nv[j as int] == ns@[j as int]@);
        }
    }
    j
}

/// First attribute named `name`, if any.
pub open spec fn attr_from(attrs: Seq<AttrV>, name: Seq<char>, j: int) -> Option<Seq<char>>
    decreases attrs.len() - j,
{
    if j < 0 || j >= attrs.len() {
        None
    } else if attrs[j].name == name {
        Some(attrs[j].value)
    } else {
        attr_from(attrs, name, j + 1)
    }
}

pub open spec fn attr_of(n: NodeV, name: Seq<char>) -> Option<Seq<char>> {
    attr_from(n.attrs, name, 0)
}

/// Exec lookup of an attribute by name.
pub fn attr_value(n: &Node, name: &Vec<char>) -> (r: Option<String>)
    ensures
        match r {
            Some(v) => attr_of(n@, name@) == Some(v@),
            None => attr_of(n@, name@) is None,
        },
{
    let m = n.attrs.len();
    let mut j: usize = 0;
    while j < m
        invariant
            0 <= j <= m,
            m == n.attrs@.len(),
            attr_from(n@.attrs, name@, 0) == attr_from(n@.attrs, name@, j as int),
        decreases m - j,
    {
        let a_name = chars_of(n.attrs[j].name.as_str());
        if crate::text::chars_eq(&a_name, name) {
            let v = n.attrs[j].value.clone();
            proof {
                assert(n@.attrs[j as int] == n.attrs@[j as int]@);
            }
            return Some(v);
        }
        proof {
            assert(n@.attrs[j as int] == n.attrs@[j as int]@);
        }
        j = j + 1;
    }
    None
}

/// The element node has the given tag and a `style` attribute containing
/// the given fragment.
pub open spec fn is_styled_elem(n: NodeV, tag: Seq<char>, style_sub: Seq<char>) -> bool {
    &&& !n.is_text
    &&& n.tag == tag
    &&& match attr_of(n, "style"@) {
        Some(v) => spec_contains(v, style_sub),
        None => false,
    }
}

/// Exec test of `is_styled_elem`.
pub fn styled_elem(n: &Node, tag: &Vec<char>, style_sub: &Vec<char>) -> (r: bool)
    ensures
        r == is_styled_elem(n@, tag@, style_sub@),
{
    if n.is_text {
        return false;
    }
    let t = chars_of(n.tag.as_str());
    if !crate::text::chars_eq(&t, tag) {
        return false;
    }
    let style_name = chars_of("style");
    match attr_value(n, &style_name) {
        Some(v) => {
            let vc = chars_of(v.as_str());
            contains_chars(&vc, style_sub)
        },
        None => false,
    }
}

/// First index in `[lo, hi)` holding an element with the given tag and
/// style fragment.
pub open spec fn first_styled_in(
    ns: Seq<NodeV>,
    lo: int,
    hi: int,
    tag: Seq<char>,
    sub: Seq<char>,
) -> Option<int>
    decreases hi - lo,
{
    if !(0 <= lo && lo < hi && hi <= ns.len()) {
        None
    } else if is_styled_elem(ns[lo], tag, sub) {
        Some(lo)
    } else {
        first_styled_in(ns, lo + 1, hi, tag, sub)
    }
}

/// Exec scan for `first_styled_in`.
pub fn find_styled(ns: &Vec<Node>, lo: usize, hi: usize, tag: &Vec<char>, sub: &Vec<char>) -> (r:
    Option<usize>)
    requires
        lo <= hi <= ns@.len(),
    ensures
        match r {
            Some(j) => first_styled_in(views_of(ns@), lo as int, hi as int, tag@, sub@) == Some(
                j as int,
            ) && lo <= j < hi,
            None => first_styled_in(views_of(ns@), lo as int, hi as int, tag@, sub@) is None,
        },
{
    let ghost nv = views_of(ns@);
    let mut i: usize = lo;
    while i < hi
        invariant
            lo <= i <= hi <= ns@.len(),
            nv == views_of(ns@),
            first_styled_in(nv, lo as int, hi as int, tag@, sub@) == first_styled_in(
                nv,
                i as int,
                hi as int,
                tag@,
                sub@,
            ),
        decreases hi - i,
    {
        if styled_elem(&ns[i], tag, sub) {
            proof {
                assert(nv[i as int] == ns@[i as int]@);
            }
            return Some(i);
        }
        proof {
            assert(nv[i as int] == ns@[i as int]@);
        }
        i = i + 1;
    }
    None
}

/// Concatenation of the text of the text nodes in `[lo, hi)`, in order.
pub open spec fn texts_in(ns: Seq<NodeV>, lo: int, hi: int) -> Seq<char>
    decreases hi - lo,
{
    if !(0 <= lo && lo < hi && hi <= ns.len()) {
        Seq::empty()
    } else {
        let rest = texts_in(ns, lo + 1, hi);
        if ns[lo].is_text {
            ns[lo].text + rest
        } else {
            rest
        }
    }
}

/// Exec collection of the visible text in `[lo, hi)`.
pub fn collect_text(ns: &Vec<Node>, lo: usize, hi: usize) -> (r: Vec<char>)
    requires
        lo <= hi <= ns@.len(),
    ensures
        r@ == texts_in(views_of(ns@), lo as int, hi as int),
{
    let ghost nv = views_of(ns@);
    let mut r: Vec<char> = Vec::new();
    let mut i: usize = lo;
    while i < hi
        invariant
            lo <= i <= hi <= ns@.len(),
            nv == views_of(ns@),
            texts_in(nv, lo as int, hi as int) == r@ + texts_in(nv, i as int, hi as int),
        decreases hi - i,
    {
        proof {
            assert(nv[i as int] == ns@[i as int]@);
        }
        if ns[i].is_text {
            let ghost old_r = r@;
            let mut piece = chars_of(ns[i].text.as_str());
            r.append(&mut piece);
            proof {
                assert(old_r + (nv[i as int].text + texts_in(nv, i + 1 as int, hi as int)) =~= (
                old_r + nv[i as int].text) + texts_in(nv, i + 1 as int, hi as int));
            }
        }
        i = i + 1;
    }
    proof {
        assert(r@ + texts_in(nv, hi as int, hi as int) =~= r@);
    }
    r
}

/// Trimmed, non-empty text segments in `[lo, hi)`, in order: the token
/// stream of a row's visible text.
pub open spec fn tokens_in(ns: Seq<NodeV>, lo: int, hi: int) -> Seq<Seq<char>>
    decreases hi - lo,
{
    if !(0 <= lo && lo < hi && hi <= ns.len()) {
        Seq::empty()
    } else {
        let rest = tokens_in(ns, lo + 1, hi);
        if ns[lo].is_text && spec_trim(ns[lo].text).len() > 0 {
            seq![spec_trim(ns[lo].text)] + rest
        } else {
            rest
        }
    }
}

/// Exec collection of the token stream of `[lo, hi)`.
pub fn collect_tokens(ns: &Vec<Node>, lo: usize, hi: usize) -> (r: Vec<Vec<char>>)
    requires
        lo <= hi <= ns@.len(),
    ensures
        r.deep_view() == tokens_in(views_of(ns@), lo as int, hi as int),
{
    let ghost nv = views_of(ns@);
    let mut r: Vec<Vec<char>> = Vec::new();
    proof {
        assert(r.deep_view() =~~= Seq::<Seq<char>>::empty());
    }
    let mut i: usize = lo;
    while i < hi
        invariant
            lo <= i <= hi <= ns@.len(),
            nv == views_of(ns@),
            tokens_in(nv, lo as int, hi as int) == r.deep_view() + tokens_in(
                nv,
                i as int,
                hi as int,
            ),
        decreases hi - i,
    {
        proof {
            assert(nv[i as int] == ns@[i as int]@);
        }
        if ns[i].is_text {
            let t = chars_of(ns[i].text.as_str());
            let trimmed = trim_chars(&t);
            if trimmed.len() > 0 {
                let ghost old_r = r.deep_view();
                r.push(trimmed);
                proof {
                    assert(trimmed.deep_view() =~~= spec_trim(nv[i as int].text));
                    assert(r.deep_view() =~~= old_r + seq![spec_trim(nv[i as int].text)]);
                    assert(old_r + (seq![spec_trim(nv[i as int].text)] + tokens_in(
                        nv,
                        i + 1 as int,
                        hi as int,
                    )) =~= (old_r + seq![spec_trim(nv[i as int].text)]) + tokens_in(
                        nv,
                        i + 1 as int,
                        hi as int,
                    ));
                }
            }
        }
        i = i + 1;
    }
    proof {
        assert(r.deep_view() + tokens_in(nv, hi as int, hi as int) =~~= r.deep_view());
    }
    r
}

/// Index of the parent of node `k`: the nearest preceding node one level
/// shallower.
pub open spec fn parent_from(ns: Seq<NodeV>, d: int, j: int) -> Option<int>
    decreases j + 1,
{
    if j < 0 || j >= ns.len() {
        None
    } else if ns[j].depth == d - 1 {
        Some(j)
    } else {
        parent_from(ns, d, j - 1)
    }
}

pub open spec fn parent_of(ns: Seq<NodeV>, k: int) -> Option<int> {
    parent_from(ns, ns[k].depth, k - 1)
}

/// Exec scan for the parent of node `k`.
pub fn parent_index(ns: &Vec<Node>, k: usize) -> (r: Option<usize>)
    requires
        k < ns@.len(),
    ensures
        match r {
            Some(p) => parent_of(views_of(ns@), k as int) == Some(p as int) && p < k,
            None => parent_of(views_of(ns@), k as int) is None,
        },
{
    let ghost nv = views_of(ns@);
    proof {
        assert(nv[k as int] == ns@[k as int]@);
    }
    let d = ns[k].depth;
    let mut j: usize = k;
    while j > 0
        invariant
            0 <= j <= k < ns@.len(),
            nv == views_of(ns@),
            d == ns@[k as int].depth,
            parent_from(nv, d as int, k - 1) == parent_from(nv, d as int, j - 1),
        decreases j,
    {
        j = j - 1;
        proof {
            assert(nv[j as int] == ns@[j as int]@);
        }
        if d > 0 && ns[j].depth == d - 1 {
            return Some(j);
        }
    }
    None
}

} // verus!
