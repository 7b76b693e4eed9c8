//! The HTML document model that content is extracted from: the tree an HTML
//! parser builds, its traversal as a sequence of events, and the rebuilding of
//! the tree from that traversal.
use vstd::prelude::*;
use ego_tree::iter::Edge;
use scraper::Node;

verus! {

/// An attribute of an element: prefix, namespace, local name and value.
#[derive(Debug, Clone)]
pub struct HtmlAttr {
    pub prefix: Option<String>,
    pub ns: String,
    pub name: String,
    pub value: String,
}

/// One step of the depth-first traversal of a parsed document: a node opens
/// (an element, a text, or any other node) or the last open node closes.
#[derive(Debug, Clone)]
pub enum HtmlEvent {
    Open { ns: String, name: String, attrs: Vec<HtmlAttr> },
    Text(String),
    OpenOther,
    Close,
}

/// The key of an attribute: prefix, namespace and local name.
pub type AttrKey = (Option<Seq<char>>, Seq<char>, Seq<char>);

/// The attributes of an element: key to value.
pub type AttrMap = Map<AttrKey, Seq<char>>;

/// The key of an attribute.
pub open spec fn attr_key(a: HtmlAttr) -> AttrKey {
    (
        match a.prefix {
            Some(p) => Some(p@),
            None => None,
        },
        a.ns@,
        a.name@,
    )
}

/// Mathematical model of a node of a parsed document.
pub enum HtmlModel {
    Element { ns: Seq<char>, name: Seq<char>, attrs: AttrMap, children: Seq<HtmlModel> },
    Text(Seq<char>),
    /// The document itself, a doctype, a comment or a processing instruction.
    Other { children: Seq<HtmlModel> },
}

/// Mathematical model of a traversal event.
pub enum EventModel {
    Open { ns: Seq<char>, name: Seq<char>, attrs: AttrMap },
    Text(Seq<char>),
    OpenOther,
    Close,
}

/// A node of a parsed document.
#[derive(Debug)]
pub enum HtmlNode {
    Element { ns: String, name: String, attrs: Vec<HtmlAttr>, children: Vec<HtmlNode> },
    Text(String),
    Other { children: Vec<HtmlNode> },
}

/// The attribute map of a list of attributes; a later attribute with the same
/// key replaces an earlier one.
pub open spec fn attrs_map(s: Seq<HtmlAttr>) -> AttrMap
    decreases s.len(),
{
    if s.len() == 0 {
        Map::empty()
    } else {
        attrs_map(s.drop_last()).insert(attr_key(s.last()), s.last().value@)
    }
}

pub open spec fn event_model(e: HtmlEvent) -> EventModel {
    match e {
        HtmlEvent::Open { ns, name, attrs } => EventModel::Open { ns: ns@, name: name@, attrs: attrs_map(attrs@) },
        HtmlEvent::Text(s) => EventModel::Text(s@),
        HtmlEvent::OpenOther => EventModel::OpenOther,
        HtmlEvent::Close => EventModel::Close,
    }
}

pub open spec fn events_model(s: Seq<HtmlEvent>) -> Seq<EventModel> {
    s.map_values(|e: HtmlEvent| event_model(e))
}

pub open spec fn node_model(n: HtmlNode) -> HtmlModel
    decreases n,
{
    match n {
        HtmlNode::Element { ns, name, attrs, children } => HtmlModel::Element {
            ns: ns@,
            name: name@,
            attrs: attrs_map(attrs@),
            children: nodes_model(children@),
        },
        HtmlNode::Text(s) => HtmlModel::Text(s@),
        HtmlNode::Other { children } => HtmlModel::Other { children: nodes_model(children@) },
    }
}

pub open spec fn nodes_model(s: Seq<HtmlNode>) -> Seq<HtmlModel>
    decreases s,
{
    if s.len() == 0 {
        Seq::empty()
    } else {
        nodes_model(s.drop_last()).push(node_model(s.last()))
    }
}

impl View for HtmlNode {
    type V = HtmlModel;

    open spec fn view(&self) -> HtmlModel {
        node_model(*self)
    }
}

pub proof fn lemma_nodes_model(s: Seq<HtmlNode>)
    ensures
        nodes_model(s).len() == s.len(),
        forall|i: int| 0 <= i < s.len() ==> #[trigger] nodes_model(s)[i] == node_model(s[i]),
    decreases s.len(),
{
    if s.len() > 0 {
        lemma_nodes_model(s.drop_last());
    }
}

/// The depth-first traversal of a node: it opens, its children follow, and it
/// closes.
pub open spec fn node_events(n: HtmlModel) -> Seq<EventModel>
    decreases n,
{
    match n {
        HtmlModel::Element { ns, name, attrs, children } => seq![EventModel::Open { ns, name, attrs }]
            + forest_events(children) + seq![EventModel::Close],
        HtmlModel::Text(s) => seq![EventModel::Text(s), EventModel::Close],
        HtmlModel::Other { children } => seq![EventModel::OpenOther] + forest_events(children) + seq![
            EventModel::Close,
        ],
    }
}

/// The traversal of a list of sibling nodes, one after the other.
pub open spec fn forest_events(f: Seq<HtmlModel>) -> Seq<EventModel>
    decreases f,
{
    if f.len() == 0 {
        Seq::empty()
    } else {
        node_events(f[0]) + forest_events(f.subrange(1, f.len() as int))
    }
}

/// The document tree that the HTML parser builds from a text.
pub uninterp spec fn parsed_html(html: Seq<char>) -> HtmlModel;

/// Parses an HTML document with `scraper::Html::parse_document` and walks its
/// tree with `ego_tree`'s `traverse`, one event per edge.
///
/// Trusted: the events are the depth-first traversal of the tree that the
/// parser builds from the text (`parsed_html`), as `Traverse::next` in
/// ego-tree's source shows: a node opens, its children follow, it closes.
#[verifier::external_body]
fn html_events(html: &str) -> (r: Vec<HtmlEvent>)
    ensures
        events_model(r@) == node_events(parsed_html(html@)),
{
    let doc = scraper::Html::parse_document(html);
    doc.tree.root().traverse().map(|edge| match edge {
        Edge::Open(n) => match n.value() {
            Node::Element(e) => HtmlEvent::Open { ns: e.name.ns.to_string(), name: e.name().into(),
                attrs: e.attrs.iter().map(|(k, v)| HtmlAttr { prefix: k.prefix.as_deref().map(String::from),
                    ns: k.ns.to_string(), name: k.local.to_string(), value: v.to_string() }).collect() },
            Node::Text(t) => HtmlEvent::Text(t.to_string()),
            _ => HtmlEvent::OpenOther,
        },
        Edge::Close(_) => HtmlEvent::Close,
    }).collect()
}

/// Two attribute lists with the same keys and values in the same order have
/// the same map.
proof fn lemma_attrs_map_same(a: Seq<HtmlAttr>, b: Seq<HtmlAttr>)
    requires
        a.len() == b.len(),
        forall|j: int| 0 <= j < a.len() ==> attr_key(#[trigger] a[j]) == attr_key(b[j]) && a[j].value@ == b[j].value@,
    ensures
        attrs_map(a) == attrs_map(b),
    decreases a.len(),
{
    if a.len() > 0 {
        lemma_attrs_map_same(a.drop_last(), b.drop_last());
    }
}

fn clone_attrs(a: &Vec<HtmlAttr>) -> (r: Vec<HtmlAttr>)
    ensures
        attrs_map(r@) == attrs_map(a@),
{
    let mut r: Vec<HtmlAttr> = Vec::new();
    let mut i: usize = 0;
    while i < a.len()
        invariant
            i <= a.len(),
            r.len() == i,
            forall|j: int| 0 <= j < i ==> attr_key(#[trigger] r@[j]) == attr_key(a@[j]) && r@[j].value@ == a@[j].value@,
        decreases a.len() - i,
    {
        let prefix = match &a[i].prefix {
            Some(p) => Some(p.clone()),
            None => None,
        };
        r.push(HtmlAttr { prefix, ns: a[i].ns.clone(), name: a[i].name.clone(), value: a[i].value.clone() });
        i = i + 1;
    }
    proof {
        lemma_attrs_map_same(r@, a@);
    }
    r
}

/// The traversal of a node opens with something other than a close, and
/// holds at least two events.
proof fn lemma_node_events_shape(n: HtmlModel)
    ensures
        node_events(n).len() >= 2,
        !(node_events(n)[0] is Close),
{
}

/// The traversal of siblings after the first `k`: the `k`-th one's, then the
/// rest's.
proof fn lemma_forest_skip(f: Seq<HtmlModel>, k: int)
    requires
        0 <= k < f.len(),
    ensures
        forest_events(f.skip(k)) == node_events(f[k]) + forest_events(f.skip(k + 1)),
{
    assert(f.skip(k).subrange(1, f.skip(k).len() as int) =~= f.skip(k + 1));
}

/// Reads the node whose traversal starts at `pos`, and the position after it.
fn read_node(events: &Vec<HtmlEvent>, pos: usize) -> (r: (HtmlNode, usize))
    requires
        pos < events.len(),
    ensures
        pos < r.1 <= events.len(),
        forall|n: HtmlModel, rest: Seq<EventModel>|
            events_model(events@).skip(pos as int) == #[trigger] (node_events(n) + rest) ==> r.0@ == n
                && events_model(events@).skip(r.1 as int) == rest,
    decreases events.len() - pos, 0nat,
{
    let ghost e = events_model(events@);
    match &events[pos] {
        HtmlEvent::Text(s) => {
            let end: usize = if pos + 1 < events.len() { pos + 2 } else { pos + 1 };
            let node = HtmlNode::Text(s.clone());
            proof {
                assert forall|n: HtmlModel, rest: Seq<EventModel>|
                    e.skip(pos as int) == #[trigger] (node_events(n) + rest) implies node@ == n
                        && e.skip(end as int) == rest by {
                    lemma_node_events_shape(n);
                    assert(e.skip(pos as int)[0] == e[pos as int]);
                    assert(n is Text);
                    assert(e.skip(end as int) =~= e.skip(pos as int).skip(2));
                    assert((node_events(n) + rest).skip(2) =~= rest);
                }
            }
            (node, end)
        },
        _ => {
            let (kids, j) = read_forest(events, pos + 1);
            let end: usize = if j < events.len() { j + 1 } else { j };
            let node = match &events[pos] {
                HtmlEvent::Open { ns, name, attrs } => HtmlNode::Element {
                    ns: ns.clone(),
                    name: name.clone(),
                    attrs: clone_attrs(attrs),
                    children: kids,
                },
                _ => HtmlNode::Other { children: kids },
            };
            proof {
                assert forall|n: HtmlModel, rest: Seq<EventModel>|
                    e.skip(pos as int) == #[trigger] (node_events(n) + rest) implies node@ == n
                        && e.skip(end as int) == rest by {
                    lemma_node_events_shape(n);
                    assert(e.skip(pos as int)[0] == e[pos as int]);
                    let kids_m = match n {
                        HtmlModel::Element { children, .. } => children,
                        HtmlModel::Other { children } => children,
                        HtmlModel::Text(_) => Seq::empty(),
                    };
                    assert(!(n is Text));
                    assert(node_events(n) =~= seq![node_events(n)[0]] + forest_events(kids_m) + seq![EventModel::Close]);
                    assert(e.skip(pos + 1) =~= e.skip(pos as int).skip(1));
                    assert(e.skip(pos + 1) =~= forest_events(kids_m) + seq![EventModel::Close] + rest);
                    assert(e.skip(j as int) == seq![EventModel::Close] + rest);
                    assert(e.skip(j as int)[0] == e[j as int]);
                    assert(e.skip(end as int) =~= e.skip(j as int).skip(1));
                }
            }
            (node, end)
        },
    }
}

/// Reads the sibling nodes whose traversals start at `pos`, up to the close
/// of their parent, and the position of that close.
fn read_forest(events: &Vec<HtmlEvent>, pos: usize) -> (r: (Vec<HtmlNode>, usize))
    requires
        pos <= events.len(),
    ensures
        pos <= r.1 <= events.len(),
        forall|f: Seq<HtmlModel>, rest: Seq<EventModel>|
            events_model(events@).skip(pos as int) == #[trigger] (forest_events(f) + seq![EventModel::Close] + rest)
                ==> nodes_model(r.0@) == f && events_model(events@).skip(r.1 as int) == seq![EventModel::Close] + rest,
    decreases events.len() - pos, 1nat,
{
    let ghost e = events_model(events@);
    let mut nodes: Vec<HtmlNode> = Vec::new();
    let mut i: usize = pos;
    proof {
        assert forall|f: Seq<HtmlModel>, rest: Seq<EventModel>|
            e.skip(pos as int) == #[trigger] (forest_events(f) + seq![EventModel::Close] + rest) implies nodes.len()
                <= f.len() && nodes_model(nodes@) == f.take(nodes.len() as int) && e.skip(i as int)
                == forest_events(f.skip(nodes.len() as int)) + seq![EventModel::Close] + rest by {
            assert(f.take(0) =~= Seq::<HtmlModel>::empty());
            assert(f.skip(0) =~= f);
        }
    }
    loop
        invariant
            pos <= i <= events.len(),
            e == events_model(events@),
            forall|f: Seq<HtmlModel>, rest: Seq<EventModel>|
                e.skip(pos as int) == #[trigger] (forest_events(f) + seq![EventModel::Close] + rest) ==> nodes.len()
                    <= f.len() && nodes_model(nodes@) == f.take(nodes.len() as int) && e.skip(i as int)
                    == forest_events(f.skip(nodes.len() as int)) + seq![EventModel::Close] + rest,
        ensures
            pos <= i <= events.len(),
            forall|f: Seq<HtmlModel>, rest: Seq<EventModel>|
                e.skip(pos as int) == #[trigger] (forest_events(f) + seq![EventModel::Close] + rest) ==> nodes_model(nodes@)
                    == f && e.skip(i as int) == seq![EventModel::Close] + rest,
        decreases events.len() - i,
    {
        let stop = if i >= events.len() {
            true
        } else {
            match &events[i] {
                HtmlEvent::Close => true,
                _ => false,
            }
        };
        if stop {
            proof {
                assert forall|f: Seq<HtmlModel>, rest: Seq<EventModel>|
                    e.skip(pos as int) == #[trigger] (forest_events(f) + seq![EventModel::Close] + rest) implies nodes_model(
                        nodes@,
                    ) == f && e.skip(i as int) == seq![EventModel::Close] + rest by {
                    let k = nodes.len() as int;
                    if k < f.len() {
                        lemma_forest_skip(f, k);
                        lemma_node_events_shape(f[k]);
                        assert(e.skip(i as int)[0] == node_events(f[k])[0]);
                        assert(e.skip(i as int)[0] == e[i as int]);
                    }
                    assert(f.skip(k) =~= Seq::<HtmlModel>::empty());
                    assert(f.take(k) =~= f);
                    assert(forest_events(f.skip(k)) =~= Seq::<EventModel>::empty());
                    assert(e.skip(i as int) =~= seq![EventModel::Close] + rest);
                }
            }
            break;
        }
        let ghost before = nodes@;
        let (node, j) = read_node(events, i);
        nodes.push(node);
        proof {
            lemma_nodes_model(before);
            lemma_nodes_model(nodes@);
            assert forall|f: Seq<HtmlModel>, rest: Seq<EventModel>|
                e.skip(pos as int) == #[trigger] (forest_events(f) + seq![EventModel::Close] + rest) implies nodes.len()
                    <= f.len() && nodes_model(nodes@) == f.take(nodes.len() as int) && e.skip(j as int)
                    == forest_events(f.skip(nodes.len() as int)) + seq![EventModel::Close] + rest by {
                let k = before.len() as int;
                if k >= f.len() {
                    assert(f.skip(k) =~= Seq::<HtmlModel>::empty());
                    assert(forest_events(f.skip(k)) =~= Seq::<EventModel>::empty());
                    assert(e.skip(i as int)[0] == e[i as int]);
                    assert(e.skip(i as int)[0] == EventModel::Close);
                }
                lemma_forest_skip(f, k);
                let rest2 = forest_events(f.skip(k + 1)) + seq![EventModel::Close] + rest;
                assert(e.skip(i as int) =~= node_events(f[k]) + rest2);
                assert(node@ == f[k]);
                assert(nodes_model(nodes@) =~= f.take(k + 1));
            }
        }
        i = j;
    }
    (nodes, i)
}

/// Parses an HTML document into the tree that the parser builds.
pub fn parse_document(html: &str) -> (r: HtmlNode)
    ensures
        r@ == parsed_html(html@),
{
    let events = html_events(html);
    let ghost n = parsed_html(html@);
    proof {
        lemma_node_events_shape(n);
    }
    if events.len() == 0 {
        return HtmlNode::Other { children: Vec::new() };
    }
    let (node, _end) = read_node(&events, 0);
    proof {
        assert(events_model(events@).skip(0) =~= node_events(n) + Seq::<EventModel>::empty());
    }
    node
}

// ── Queries on a document tree ──

/// The children of a node (none for a text).
pub open spec fn children_of(n: HtmlModel) -> Seq<HtmlModel> {
    match n {
        HtmlModel::Element { children, .. } => children,
        HtmlModel::Other { children } => children,
        HtmlModel::Text(_) => Seq::empty(),
    }
}

/// Whether a node is an element with the given local name.
pub open spec fn is_element_named(n: HtmlModel, tag: Seq<char>) -> bool {
    n matches HtmlModel::Element { name, .. } && name == tag
}

/// The text of a node: all the text below it, in document order.
pub open spec fn text_of(n: HtmlModel) -> Seq<char>
    decreases n,
{
    match n {
        HtmlModel::Text(s) => s,
        HtmlModel::Element { children, .. } => texts_of(children),
        HtmlModel::Other { children } => texts_of(children),
    }
}

/// The texts of sibling nodes, one after the other.
pub open spec fn texts_of(f: Seq<HtmlModel>) -> Seq<char>
    decreases f,
{
    if f.len() == 0 {
        Seq::empty()
    } else {
        text_of(f[0]) + texts_of(f.subrange(1, f.len() as int))
    }
}

/// The elements with the given local name below a node, in document order.
pub open spec fn select_in(n: HtmlModel, tag: Seq<char>) -> Seq<HtmlModel>
    decreases n,
{
    match n {
        HtmlModel::Text(_) => Seq::empty(),
        HtmlModel::Element { children, .. } => select_in_forest(children, tag),
        HtmlModel::Other { children } => select_in_forest(children, tag),
    }
}

/// The elements with the given local name among sibling nodes and below them,
/// in document order.
pub open spec fn select_in_forest(f: Seq<HtmlModel>, tag: Seq<char>) -> Seq<HtmlModel>
    decreases f,
{
    if f.len() == 0 {
        Seq::empty()
    } else {
        let own: Seq<HtmlModel> = if is_element_named(f[0], tag) { seq![f[0]] } else { Seq::empty() };
        own + select_in(f[0], tag) + select_in_forest(f.subrange(1, f.len() as int), tag)
    }
}

/// The key under which `Element::attr` looks an attribute up: no prefix, no
/// namespace.
pub open spec fn plain_key(name: Seq<char>) -> AttrKey {
    (None, Seq::empty(), name)
}

/// The value of a node's attribute without namespace, where it has one.
pub open spec fn attr_of(n: HtmlModel, name: Seq<char>) -> Option<Seq<char>> {
    match n {
        HtmlModel::Element { attrs, .. } => if attrs.contains_key(plain_key(name)) {
            Some(attrs[plain_key(name)])
        } else {
            None
        },
        _ => None,
    }
}

/// A copy of a node.
pub fn clone_node(n: &HtmlNode) -> (r: HtmlNode)
    ensures
        r@ == n@,
    decreases n,
{
    match n {
        HtmlNode::Element { ns, name, attrs, children } => HtmlNode::Element {
            ns: ns.clone(),
            name: name.clone(),
            attrs: clone_attrs(attrs),
            children: clone_nodes(children),
        },
        HtmlNode::Text(s) => HtmlNode::Text(s.clone()),
        HtmlNode::Other { children } => HtmlNode::Other { children: clone_nodes(children) },
    }
}

/// A copy of a list of nodes.
pub fn clone_nodes(v: &Vec<HtmlNode>) -> (r: Vec<HtmlNode>)
    ensures
        nodes_model(r@) == nodes_model(v@),
    decreases v,
{
    let mut r: Vec<HtmlNode> = Vec::new();
    let mut i: usize = 0;
    while i < v.len()
        invariant
            i <= v.len(),
            nodes_model(r@) == nodes_model(v@.take(i as int)),
        decreases v.len() - i,
    {
        assert(decreases_to!(v => v@[i as int]));
        let c = clone_node(&v[i]);
        let ghost before = r@;
        r.push(c);
        assert(r@.drop_last() =~= before);
        assert(v@.take(i + 1).drop_last() =~= v@.take(i as int));
        i = i + 1;
    }
    assert(v@.take(v.len() as int) =~= v@);
    r
}

proof fn lemma_texts_push(f: Seq<HtmlModel>, n: HtmlModel)
    ensures
        texts_of(f.push(n)) == texts_of(f) + text_of(n),
    decreases f.len(),
{
    if f.len() == 0 {
        let e = f.push(n).subrange(1, 1);
        assert(e =~= Seq::<HtmlModel>::empty());
        assert(texts_of(e) == Seq::<char>::empty());
        assert(f.push(n)[0] == n);
        assert(texts_of(f.push(n)) =~= text_of(n));
    } else {
        lemma_texts_push(f.subrange(1, f.len() as int), n);
        assert(f.push(n).subrange(1, f.len() as int + 1) =~= f.subrange(1, f.len() as int).push(n));
        assert(texts_of(f.push(n)) =~= texts_of(f) + text_of(n));
    }
}

proof fn lemma_select_push(f: Seq<HtmlModel>, n: HtmlModel, tag: Seq<char>)
    ensures
        select_in_forest(f.push(n), tag) == select_in_forest(f, tag) + select_in_forest(seq![n], tag),
    decreases f.len(),
{
    let own_n: Seq<HtmlModel> = if is_element_named(n, tag) { seq![n] } else { Seq::empty() };
    let e = seq![n].subrange(1, 1);
    assert(e =~= Seq::<HtmlModel>::empty());
    assert(select_in_forest(e, tag) == Seq::<HtmlModel>::empty());
    assert(select_in_forest(seq![n], tag) =~= own_n + select_in(n, tag));
    if f.len() == 0 {
        assert(f.push(n) =~= seq![n]);
        assert(select_in_forest(f.push(n), tag) =~= select_in_forest(f, tag) + select_in_forest(seq![n], tag));
    } else {
        lemma_select_push(f.subrange(1, f.len() as int), n, tag);
        assert(f.push(n).subrange(1, f.len() as int + 1) =~= f.subrange(1, f.len() as int).push(n));
        assert(select_in_forest(f.push(n), tag) =~= select_in_forest(f, tag) + select_in_forest(seq![n], tag));
    }
}

/// Appends the text of a node to `out`.
pub fn append_text(n: &HtmlNode, out: &mut String)
    ensures
        final(out)@ == old(out)@ + text_of(n@),
    decreases n,
{
    match n {
        HtmlNode::Text(s) => {
            out.append(s.as_str());
        },
        HtmlNode::Element { children, .. } => {
            append_texts(children, out);
        },
        HtmlNode::Other { children } => {
            append_texts(children, out);
        },
    }
}

/// Appends the texts of sibling nodes to `out`.
pub fn append_texts(v: &Vec<HtmlNode>, out: &mut String)
    ensures
        final(out)@ == old(out)@ + texts_of(nodes_model(v@)),
    decreases v,
{
    let ghost m = nodes_model(v@);
    proof {
        lemma_nodes_model(v@);
        assert(m.take(0) =~= Seq::<HtmlModel>::empty());
    }
    let mut i: usize = 0;
    while i < v.len()
        invariant
            i <= v.len(),
            m == nodes_model(v@),
            m.len() == v.len(),
            forall|j: int| 0 <= j < v.len() ==> #[trigger] m[j] == node_model(v@[j]),
            out@ == old(out)@ + texts_of(m.take(i as int)),
        decreases v.len() - i,
    {
        assert(decreases_to!(v => v@[i as int]));
        append_text(&v[i], out);
        proof {
            lemma_texts_push(m.take(i as int), m[i as int]);
            assert(m.take(i + 1) =~= m.take(i as int).push(m[i as int]));
        }
        i = i + 1;
    }
    assert(m.take(v.len() as int) =~= m);
}

/// The text of an element without white space at either end (what the
/// extraction calls an element's text).
pub open spec fn element_text(n: HtmlModel) -> Seq<char> {
    crate::text::trim_ws(text_of(n))
}

/// The text of a node, trimmed.
pub fn text_trimmed(n: &HtmlNode) -> (r: String)
    ensures
        r@ == element_text(n@),
{
    let mut s = String::new();
    append_text(n, &mut s);
    assert(s@ =~= text_of(n@));
    crate::text::trim(s.as_str())
}

/// Appends copies of the elements with the given local name below a node.
pub fn select_into(n: &HtmlNode, tag: &str, out: &mut Vec<HtmlNode>)
    ensures
        nodes_model(final(out)@) == nodes_model(old(out)@) + select_in(n@, tag@),
    decreases n,
{
    match n {
        HtmlNode::Text(_) => {
            assert(nodes_model(out@) =~= nodes_model(out@) + Seq::<HtmlModel>::empty());
        },
        HtmlNode::Element { children, .. } => {
            select_into_forest(children, tag, out);
        },
        HtmlNode::Other { children } => {
            select_into_forest(children, tag, out);
        },
    }
}

pub fn is_named(n: &HtmlNode, tag: &str) -> (r: bool)
    ensures
        r == is_element_named(n@, tag@),
{
    match n {
        HtmlNode::Element { name, .. } => crate::text::str_eq(name.as_str(), tag),
        _ => false,
    }
}

proof fn lemma_nodes_model_push(s: Seq<HtmlNode>, n: HtmlNode)
    ensures
        nodes_model(s.push(n)) == nodes_model(s).push(node_model(n)),
{
    assert(s.push(n).drop_last() =~= s);
}

/// Appends copies of the elements with the given local name among sibling
/// nodes and below them.
pub fn select_into_forest(v: &Vec<HtmlNode>, tag: &str, out: &mut Vec<HtmlNode>)
    ensures
        nodes_model(final(out)@) == nodes_model(old(out)@) + select_in_forest(nodes_model(v@), tag@),
    decreases v,
{
    let ghost m = nodes_model(v@);
    proof {
        lemma_nodes_model(v@);
        assert(m.take(0) =~= Seq::<HtmlModel>::empty());
    }
    let mut i: usize = 0;
    assert(nodes_model(out@) =~= nodes_model(old(out)@) + select_in_forest(m.take(0), tag@));
    while i < v.len()
        invariant
            i <= v.len(),
            m == nodes_model(v@),
            m.len() == v.len(),
            forall|j: int| 0 <= j < v.len() ==> #[trigger] m[j] == node_model(v@[j]),
            nodes_model(out@) == nodes_model(old(out)@) + select_in_forest(m.take(i as int), tag@),
        decreases v.len() - i,
    {
        let ghost mid = nodes_model(out@);
        if is_named(&v[i], tag) {
            let c = clone_node(&v[i]);
            let ghost before = out@;
            out.push(c);
            proof {
                lemma_nodes_model_push(before, c);
            }
        }
        let ghost mid2 = nodes_model(out@);
        assert(decreases_to!(v => v@[i as int]));
        select_into(&v[i], tag, out);
        proof {
            let own: Seq<HtmlModel> = if is_element_named(m[i as int], tag@) { seq![m[i as int]] } else { Seq::empty() };
            let e = seq![m[i as int]].subrange(1, 1);
            assert(e =~= Seq::<HtmlModel>::empty());
            assert(select_in_forest(e, tag@) == Seq::<HtmlModel>::empty());
            assert(select_in_forest(seq![m[i as int]], tag@) =~= own + select_in(m[i as int], tag@));
            lemma_select_push(m.take(i as int), m[i as int], tag@);
            assert(m.take(i + 1) =~= m.take(i as int).push(m[i as int]));
            assert(nodes_model(out@) =~= nodes_model(old(out)@) + select_in_forest(m.take(i + 1), tag@));
        }
        i = i + 1;
    }
    assert(m.take(v.len() as int) =~= m);
}

/// The elements with the given local name below a node, in document order.
pub fn select(n: &HtmlNode, tag: &str) -> (r: Vec<HtmlNode>)
    ensures
        nodes_model(r@) == select_in(n@, tag@),
{
    let mut r: Vec<HtmlNode> = Vec::new();
    select_into(n, tag, &mut r);
    assert(nodes_model(r@) =~= select_in(n@, tag@));
    r
}

/// The value of a node's attribute without namespace (`Element::attr`).
pub fn attr_value(n: &HtmlNode, name: &str) -> (r: Option<String>)
    ensures
        match r {
            Some(v) => attr_of(n@, name@) == Some(v@),
            None => attr_of(n@, name@) is None,
        },
{
    match n {
        HtmlNode::Element { attrs, .. } => {
            let ghost k = plain_key(name@);
            let mut found: Option<usize> = None;
            let mut i: usize = 0;
            while i < attrs.len()
                invariant
                    i <= attrs.len(),
                    k == plain_key(name@),
                    match found {
                        Some(j) => j < i && attrs_map(attrs@.take(i as int)).contains_key(k)
                            && attrs_map(attrs@.take(i as int))[k] == attrs@[j as int].value@,
                        None => !attrs_map(attrs@.take(i as int)).contains_key(k),
                    },
                decreases attrs.len() - i,
            {
                assert(attrs@.take(i + 1).drop_last() =~= attrs@.take(i as int));
                let a = &attrs[i];
                let plain = match &a.prefix {
                    Some(_) => false,
                    None => a.ns.as_str().is_empty() && crate::text::str_eq(a.name.as_str(), name),
                };
                proof {
                    if plain {
                        assert(a.ns@ =~= Seq::<char>::empty());
                        assert(attr_key(*a) == k);
                    } else {
                        assert(attr_key(*a) != k);
                    }
                }
                if plain {
                    found = Some(i);
                }
                i = i + 1;
            }
            assert(attrs@.take(attrs.len() as int) =~= attrs@);
            match found {
                Some(j) => Some(attrs[j].value.clone()),
                None => None,
            }
        },
        _ => None,
    }
}

} // verus!
