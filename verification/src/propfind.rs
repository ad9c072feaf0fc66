//! Reading a PROPFIND multi-status answer into remote directory entries.

use vstd::prelude::*;
use vstd::utf8::*;
use vstd::string::*;
use crate::text::{
    chars_eq,
    find_chars, first_occurrence, from_chars, has_char, parse_u64, parse_u64_spec, rfind_char,
    slice_of, str_is, to_chars, trim_char, trim_chars, trim_end_char, trim_end_chars,
};
use crate::urlcode::{decode_is_safe, decode_panics, url_decode, urldecoding_decode};
use crate::webdav::{RemoteItem, WebDAVError};

verus! {

/// One node of a parsed XML document, in document order.
#[derive(Debug, Clone)]
pub struct XmlNode {
    /// Whether the node is an element.
    pub is_element: bool,
    /// The element's local name (empty for other nodes).
    pub name: String,
    /// The node's text: for an element, that of its first child when that
    /// child is text.
    pub text: Option<String>,
    /// How many nodes the node and its descendants are.
    pub span: usize,
}

/// The mathematical content of an [`XmlNode`].
pub struct XmlNodeView {
    pub is_element: bool,
    pub name: Seq<char>,
    pub text: Option<Seq<char>>,
    pub span: nat,
}

impl View for XmlNode {
    type V = XmlNodeView;

    open spec fn view(&self) -> XmlNodeView {
        XmlNodeView {
            is_element: self.is_element,
            name: self.name@,
            text: match self.text {
                Some(t) => Some(t@),
                None => None,
            },
            span: self.span as nat,
        }
    }
}

/// The mathematical content of a [`RemoteItem`].
pub struct RemoteItemView {
    pub name: Seq<char>,
    pub is_dir: bool,
    pub size: u64,
}

impl View for RemoteItem {
    type V = RemoteItemView;

    open spec fn view(&self) -> RemoteItemView {
        RemoteItemView { name: self.name@, is_dir: self.is_dir, size: self.size }
    }
}

/// The views of a sequence of nodes.
pub open spec fn node_views(v: Seq<XmlNode>) -> Seq<XmlNodeView> {
    v.map_values(|n: XmlNode| n@)
}

/// The views of a sequence of remote items.
pub open spec fn item_views(v: Seq<RemoteItem>) -> Seq<RemoteItemView> {
    v.map_values(|n: RemoteItem| n@)
}

/// The nodes of the XML document `xml` in document order (the document node
/// first), or the parser's error text.
pub uninterp spec fn xml_document_nodes(xml: Seq<char>) -> Result<Seq<XmlNodeView>, Seq<char>>;

/// `roxmltree::Document::parse(xml)`, with the document's nodes
/// (`descendants()` of the root) copied out one for one: whether each is an
/// element, its tag's local name, its `text()` and its `descendants().count()`.
/// What the parser produces is left to the name `xml_document_nodes`.
#[verifier::external_body]
fn xml_nodes(xml: &str) -> (r: Result<Vec<XmlNode>, String>)
    ensures
        xml_document_nodes(xml@) == match r {
            Ok(v) => Ok::<Seq<XmlNodeView>, Seq<char>>(node_views(v@)),
            Err(e) => Err::<Seq<XmlNodeView>, Seq<char>>(e@),
        },
{
    let doc = roxmltree::Document::parse(xml).map_err(|e| e.to_string())?;
    let mut out = Vec::new();
    for n in doc.descendants() {
        let name = n.tag_name().name().to_string();
        let text = n.text().map(|t| t.to_string());
        out.push(XmlNode { is_element: n.is_element(), name, text, span: n.descendants().count() });
    }
    Ok(out)
}

/// An element with local name `name` (`Node::has_tag_name` with a plain name).
pub open spec fn is_tag(n: XmlNodeView, name: Seq<char>) -> bool {
    n.is_element && n.name == name
}

/// One past the last node of the subtree rooted at `i`.
pub open spec fn subtree_end(ns: Seq<XmlNodeView>, i: int) -> int {
    if i + ns[i].span <= ns.len() {
        i + ns[i].span
    } else {
        ns.len() as int
    }
}

/// The first node in `lo..hi` that is a `name` element.
pub open spec fn first_tag_in(ns: Seq<XmlNodeView>, lo: int, hi: int, name: Seq<char>) -> Option<int>
    decreases hi - lo,
{
    if lo >= hi {
        None
    } else if is_tag(ns[lo], name) {
        Some(lo)
    } else {
        first_tag_in(ns, lo + 1, hi, name)
    }
}

/// The text of the first `name` element of the subtree at `i`, if it has one.
pub open spec fn tag_text(ns: Seq<XmlNodeView>, i: int, name: Seq<char>) -> Option<Seq<char>> {
    match first_tag_in(ns, i, subtree_end(ns, i), name) {
        Some(j) => ns[j].text,
        None => None,
    }
}

/// The `href` of the response at `i` (empty when missing).
pub open spec fn href_text(ns: Seq<XmlNodeView>, i: int) -> Seq<char> {
    match tag_text(ns, i, "href"@) {
        Some(t) => t,
        None => seq![],
    }
}

/// The size of the response at `i`: its `getcontentlength` read as a number,
/// 0 when missing or not a number.
pub open spec fn size_of_response(ns: Seq<XmlNodeView>, i: int) -> u64 {
    match tag_text(ns, i, "getcontentlength"@) {
        Some(t) => match parse_u64_spec(t) {
            Some(v) => v,
            None => 0,
        },
        None => 0,
    }
}

/// Whether the subtree at `i` holds a `collection` element.
pub open spec fn is_collection(ns: Seq<XmlNodeView>, i: int) -> bool {
    first_tag_in(ns, i, subtree_end(ns, i), "collection"@) is Some
}

/// The path prefix of Nextcloud's WebDAV file URLs.
pub open spec fn dav_marker() -> Seq<char> {
    "/remote.php/dav/files/"@
}

/// The path of a decoded href relative to the user's root: what follows
/// `/remote.php/dav/files/USER/`, or the whole href, without leading and
/// trailing `/`.
pub open spec fn item_path_of(decoded: Seq<char>) -> Seq<char> {
    match first_occurrence(decoded, dav_marker()) {
        Some(pos) => {
            let after = decoded.skip(pos + dav_marker().len());
            match first_occurrence(after, "/"@) {
                Some(sp) => trim_char(after.skip(sp), '/'),
                None => seq![],
            }
        },
        None => trim_char(decoded, '/'),
    }
}

/// The part of `t` after its last `/` (all of `t` when it has none).
pub open spec fn after_last_slash(t: Seq<char>) -> Seq<char>
    decreases t.len(),
{
    if t.len() == 0 {
        t
    } else if t.last() == '/' {
        seq![]
    } else {
        after_last_slash(t.drop_last()).push(t.last())
    }
}

/// The entry the response at `i` stands for, given the trimmed request path:
/// none for the requested directory itself, an empty path or an empty name.
pub open spec fn response_item(ns: Seq<XmlNodeView>, i: int, request_clean: Seq<char>) -> Option<RemoteItemView> {
    let path = item_path_of(url_decode(href_text(ns, i)));
    if path == request_clean || path.len() == 0 {
        None
    } else {
        let name = after_last_slash(trim_end_char(path, '/'));
        if name.len() == 0 {
            None
        } else {
            Some(RemoteItemView { name, is_dir: is_collection(ns, i), size: size_of_response(ns, i) })
        }
    }
}

/// The entries of the responses among the first `k` nodes, in order.
pub open spec fn items_upto(ns: Seq<XmlNodeView>, k: int, request_clean: Seq<char>) -> Seq<RemoteItemView>
    decreases k,
{
    if k <= 0 {
        seq![]
    } else {
        let before = items_upto(ns, k - 1, request_clean);
        if is_tag(ns[k - 1], "response"@) {
            match response_item(ns, k - 1, request_clean) {
                Some(it) => before.push(it),
                None => before,
            }
        } else {
            before
        }
    }
}

/// The entries of a multi-status document, for a request on `request_path`.
pub open spec fn propfind_items(ns: Seq<XmlNodeView>, request_path: Seq<char>) -> Seq<RemoteItemView> {
    items_upto(ns, ns.len() as int, trim_char(request_path, '/'))
}

/// Every response's href can be percent-decoded.
pub open spec fn hrefs_decodable(ns: Seq<XmlNodeView>) -> bool {
    forall|i: int| 0 <= i < ns.len() && #[trigger] is_tag(ns[i], "response"@) ==> !decode_panics(encode_utf8(href_text(ns, i)))
}

fn tag_is(n: &XmlNode, name: &str) -> (r: bool)
    ensures
        r == is_tag(n@, name@),
{
    n.is_element && str_is(n.name.as_str(), name)
}

fn end_of(nodes: &Vec<XmlNode>, i: usize) -> (r: usize)
    requires
        i < nodes@.len(),
    ensures
        r as int == subtree_end(node_views(nodes@), i as int),
        i <= r <= nodes@.len() || r == nodes@.len(),
{
    let n = nodes.len();
    let s = nodes[i].span;
    if s <= n - i {
        i + s
    } else {
        n
    }
}

fn find_tag(nodes: &Vec<XmlNode>, lo: usize, hi: usize, name: &str) -> (r: Option<usize>)
    requires
        hi <= nodes@.len(),
    ensures
        match r {
            Some(j) => first_tag_in(node_views(nodes@), lo as int, hi as int, name@) == Some(j as int)
                && lo <= j < hi,
            None => first_tag_in(node_views(nodes@), lo as int, hi as int, name@) is None,
        },
{
    let ghost ns = node_views(nodes@);
    let mut k: usize = lo;
    while k < hi
        invariant
            ns == node_views(nodes@),
            hi <= nodes@.len(),
            lo <= k,
            first_tag_in(ns, lo as int, hi as int, name@) == first_tag_in(ns, k as int, hi as int, name@),
        decreases hi - k,
    {
        if tag_is(&nodes[k], name) {
            return Some(k);
        }
        k = k + 1;
    }
    None
}

proof fn lemma_after_last_slash(t: Seq<char>, k: int)
    requires
        0 <= k < t.len(),
        t[k] == '/',
        forall|j: int| k < j < t.len() ==> t[j] != '/',
    ensures
        after_last_slash(t) == t.skip(k + 1),
    decreases t.len(),
{
    if k == t.len() - 1 {
        assert(t.skip(k + 1) =~= Seq::<char>::empty());
    } else {
        lemma_after_last_slash(t.drop_last(), k);
        assert(t.drop_last().skip(k + 1).push(t.last()) =~= t.skip(k + 1));
    }
}

proof fn lemma_after_no_slash(t: Seq<char>)
    requires
        !has_char(t, '/'),
    ensures
        after_last_slash(t) == t,
    decreases t.len(),
{
    if t.len() > 0 {
        assert(!has_char(t.drop_last(), '/')) by {
            if has_char(t.drop_last(), '/') {
                let j = choose|j: int| 0 <= j < t.drop_last().len() && t.drop_last()[j] == '/';
                assert(t[j] == '/');
            }
        }
        lemma_after_no_slash(t.drop_last());
        assert(t.drop_last().push(t.last()) =~= t);
    }
}

fn last_segment(t: &Vec<char>) -> (r: Vec<char>)
    ensures
        r@ == after_last_slash(t@),
{
    let n = t.len();
    match rfind_char(t.as_slice(), '/') {
        Some(k) => {
            proof {
                lemma_after_last_slash(t@, k as int);
                assert(t@.skip(k + 1) =~= t@.subrange(k + 1, t@.len() as int));
            }
            slice_of(t.as_slice(), k + 1, n)
        },
        None => {
            proof {
                lemma_after_no_slash(t@);
            }
            slice_of(t.as_slice(), 0, t.len())
        },
    }
}

/// The path relative to the user's root of a decoded href (see [`item_path_of`]).
pub fn href_item_path(decoded: &str) -> (r: Vec<char>)
    ensures
        r@ == item_path_of(decoded@),
{
    let d = to_chars(decoded);
    let marker = to_chars("/remote.php/dav/files/");
    let dn = d.len();
    let ml = marker.len();
    match find_chars(d.as_slice(), marker.as_slice()) {
        Some(pos) => {
            let after = slice_of(d.as_slice(), pos + ml, dn);
            assert(after@ =~= d@.skip(pos + marker@.len()));
            let slash = to_chars("/");
            match find_chars(after.as_slice(), slash.as_slice()) {
                Some(sp) => {
                    let rest = slice_of(after.as_slice(), sp, after.len());
                    assert(rest@ =~= after@.skip(sp as int));
                    trim_chars(rest.as_slice(), '/')
                },
                None => Vec::new(),
            }
        },
        None => trim_chars(d.as_slice(), '/'),
    }
}

fn href_of(nodes: &Vec<XmlNode>, i: usize) -> (r: String)
    requires
        i < nodes@.len(),
    ensures
        r@ == href_text(node_views(nodes@), i as int),
{
    let end = end_of(nodes, i);
    match find_tag(nodes, i, end, "href") {
        Some(j) => match &nodes[j].text {
            Some(t) => t.clone(),
            None => String::new(),
        },
        None => String::new(),
    }
}

fn size_field(nodes: &Vec<XmlNode>, i: usize, end: usize) -> (r: u64)
    requires
        i < nodes@.len(),
        end as int == subtree_end(node_views(nodes@), i as int),
    ensures
        r == size_of_response(node_views(nodes@), i as int),
{
    match find_tag(nodes, i, end, "getcontentlength") {
        Some(j) => match &nodes[j].text {
            Some(t) => match parse_u64(t.as_str()) {
                Some(v) => v,
                None => 0,
            },
            None => 0,
        },
        None => 0,
    }
}

/// The entry for the response at node `i` (see [`response_item`]).
fn response_entry(nodes: &Vec<XmlNode>, i: usize, request_clean: &Vec<char>) -> (r: Option<RemoteItem>)
    requires
        i < nodes@.len(),
        !decode_panics(encode_utf8(href_text(node_views(nodes@), i as int))),
    ensures
        match r {
            Some(it) => response_item(node_views(nodes@), i as int, request_clean@) == Some(it@),
            None => response_item(node_views(nodes@), i as int, request_clean@) is None,
        },
{
    let href = href_of(nodes, i);
    let decoded = urldecoding_decode(href.as_str());
    let path = href_item_path(decoded.as_str());
    if chars_eq(path.as_slice(), request_clean.as_slice()) || path.len() == 0 {
        return None;
    }
    let t = trim_end_chars(path.as_slice(), '/');
    let name = last_segment(&t);
    if name.len() == 0 {
        return None;
    }
    let end = end_of(nodes, i);
    let is_dir = find_tag(nodes, i, end, "collection").is_some();
    let size = size_field(nodes, i, end);
    Some(RemoteItem { name: from_chars(name.as_slice()), is_dir, size })
}

/// Whether every response's href can be percent-decoded.
pub fn responses_decodable(nodes: &Vec<XmlNode>) -> (r: bool)
    ensures
        r == hrefs_decodable(node_views(nodes@)),
{
    let ghost ns = node_views(nodes@);
    let mut i: usize = 0;
    while i < nodes.len()
        invariant
            ns == node_views(nodes@),
            i <= nodes@.len(),
            forall|j: int| 0 <= j < i && #[trigger] is_tag(ns[j], "response"@) ==> !decode_panics(encode_utf8(href_text(ns, j))),
        decreases nodes@.len() - i,
    {
        if tag_is(&nodes[i], "response") {
            let href = href_of(nodes, i);
            if !decode_is_safe(href.as_str()) {
                return false;
            }
        }
        i = i + 1;
    }
    true
}

/// The entries that the PROPFIND answer `nodes` lists for a request on
/// `request_path`: one per `response` element, skipping the directory itself,
/// empty paths and empty names.
pub fn items_from_nodes(nodes: &Vec<XmlNode>, request_path: &str) -> (r: Vec<RemoteItem>)
    requires
        hrefs_decodable(node_views(nodes@)),
    ensures
        item_views(r@) == propfind_items(node_views(nodes@), request_path@),
{
    let ghost ns = node_views(nodes@);
    let rp = to_chars(request_path);
    let request_clean = trim_chars(rp.as_slice(), '/');
    let mut items: Vec<RemoteItem> = Vec::new();
    let mut i: usize = 0;
    while i < nodes.len()
        invariant
            ns == node_views(nodes@),
            hrefs_decodable(ns),
            request_clean@ == trim_char(request_path@, '/'),
            i <= nodes@.len(),
            item_views(items@) == items_upto(ns, i as int, request_clean@),
        decreases nodes@.len() - i,
    {
        if tag_is(&nodes[i], "response") {
            assert(is_tag(ns[i as int], "response"@));
            match response_entry(nodes, i, &request_clean) {
                Some(it) => {
                    items.push(it);
                    assert(item_views(items@) =~= items_upto(ns, i + 1, request_clean@));
                },
                None => {},
            }
        }
        i = i + 1;
    }
    items
}

/// Reads a PROPFIND multi-status document into directory entries. A document
/// that does not parse gives the parser's error; an href whose
/// percent-escapes cut a character in two is refused with
/// "malformed percent-escape in href".
pub fn parse_propfind_response(xml: &str, request_path: &str) -> (r: Result<Vec<RemoteItem>, WebDAVError>)
    ensures
        match xml_document_nodes(xml@) {
            Err(m) => r matches Err(WebDAVError::Parse(e)) && e@ == m,
            Ok(ns) => if hrefs_decodable(ns) {
                r matches Ok(v) && item_views(v@) == propfind_items(ns, request_path@)
            } else {
                r matches Err(WebDAVError::Parse(e)) && e@ == "malformed percent-escape in href"@
            },
        },
{
    match xml_nodes(xml) {
        Err(e) => Err(WebDAVError::Parse(e)),
        Ok(nodes) => {
            if responses_decodable(&nodes) {
                Ok(items_from_nodes(&nodes, request_path))
            } else {
                Err(WebDAVError::Parse(String::from_str("malformed percent-escape in href")))
            }
        },
    }
}


/// The requested folder itself is never one of its entries: a response
/// whose decoded href names the requested path (leading and trailing `/`
/// ignored) gives no entry, and every entry has a non-empty name.
pub proof fn law_requested_folder_skipped(ns: Seq<XmlNodeView>, i: int, request_path: Seq<char>)
    ensures
        item_path_of(url_decode(href_text(ns, i))) == trim_char(request_path, '/') ==> response_item(
            ns,
            i,
            trim_char(request_path, '/'),
        ) is None,
        response_item(ns, i, trim_char(request_path, '/')) matches Some(it) ==> it.name.len() > 0
            && item_path_of(url_decode(href_text(ns, i))) != trim_char(request_path, '/'),
{
}

} // verus!
