use vstd::prelude::*;

verus! {

/// An attribute of an XML element.
#[derive(Clone, Debug)]
pub struct XmlAttribute {
    /// The namespace URI of a prefixed attribute; `None` for a plain one.
    pub namespace: Option<String>,
    pub name: String,
    pub value: String,
}

/// One node of a parsed XML document, with what the fact extraction reads
/// of it.  Nodes are numbered in document order (root node first), so the
/// descendants of node `p` (itself included) are the nodes
/// `p .. p + subtree_len`.
#[derive(Clone, Debug)]
pub struct XmlNode {
    pub is_element: bool,
    /// The local name of an element; empty for other nodes.
    pub name: String,
    /// The namespace URI of an element, if it has one.
    pub namespace: Option<String>,
    /// The prefix of the first namespace declaration in scope whose URI is
    /// the element's namespace URI (the empty string when it has none), and
    /// `xml` for the XML namespace URI; `None` when there is no such
    /// declaration or that declaration is the default namespace.
    pub prefix: Option<String>,
    pub attributes: Vec<XmlAttribute>,
    /// For an element, the text of its first child when that child is text;
    /// for a text or comment node, its own text; otherwise `None`.
    pub text: Option<String>,
    /// The number of the parent node.
    pub parent: Option<usize>,
    /// The number of nodes in the subtree rooted here, this node included.
    pub subtree_len: usize,
}

/// A parsed XML document: its nodes in document order and the number of its
/// root element.
#[derive(Clone, Debug)]
pub struct XmlDocument {
    pub nodes: Vec<XmlNode>,
    pub root_element: usize,
}

pub struct XmlAttributeView {
    pub namespace: Option<Seq<char>>,
    pub name: Seq<char>,
    pub value: Seq<char>,
}

pub struct XmlNodeView {
    pub is_element: bool,
    pub name: Seq<char>,
    pub namespace: Option<Seq<char>>,
    pub prefix: Option<Seq<char>>,
    pub attributes: Seq<XmlAttributeView>,
    pub text: Option<Seq<char>>,
    pub parent: Option<usize>,
    pub subtree_len: usize,
}

pub struct XmlDocumentView {
    pub nodes: Seq<XmlNodeView>,
    pub root_element: usize,
}

impl View for XmlAttribute {
    type V = XmlAttributeView;

    open spec fn view(&self) -> XmlAttributeView {
        XmlAttributeView {
            namespace: self.namespace.deep_view(),
            name: self.name@,
            value: self.value@,
        }
    }
}

impl View for XmlNode {
    type V = XmlNodeView;

    open spec fn view(&self) -> XmlNodeView {
        XmlNodeView {
            is_element: self.is_element,
            name: self.name@,
            namespace: self.namespace.deep_view(),
            prefix: self.prefix.deep_view(),
            attributes: self.attributes@.map_values(|a: XmlAttribute| a@),
            text: self.text.deep_view(),
            parent: self.parent,
            subtree_len: self.subtree_len,
        }
    }
}

impl View for XmlDocument {
    type V = XmlDocumentView;

    open spec fn view(&self) -> XmlDocumentView {
        XmlDocumentView {
            nodes: self.nodes@.map_values(|n: XmlNode| n@),
            root_element: self.root_element,
        }
    }
}

/// The document that roxmltree reads from `text`, or `None` where it
/// refuses the text.
pub uninterp spec fn parsed_xml(text: Seq<char>) -> Option<XmlDocumentView>;

/// `roxmltree::Document::parse`, with the resulting tree read out node by node
/// in the order of `Document::descendants` (which is the order of the node
/// ids, so each node's id is its position): for each node `is_element`,
/// `tag_name().name()`, `tag_name().namespace()`, `lookup_prefix` of that
/// namespace (or of `""`), `attributes()`, `text()`, the id of `parent()` and
/// the length of `descendants()`; and the id of `root_element()`.  `None`
/// where roxmltree returns an error.  The contract only names the result: it
/// is a function of the text alone.
#[verifier::external_body]
pub(crate) fn parse_xml_document(text: &str) -> (r: Option<XmlDocument>)
    ensures
        match r {
            Some(doc) => parsed_xml(text@) == Some(doc@),
            None => parsed_xml(text@) is None,
        },
{
    let doc = roxmltree::Document::parse(text).ok()?;
    let nodes = doc.descendants().map(|n| XmlNode::new(
        n.is_element(),
        n.tag_name().name(),
        n.tag_name().namespace(),
        n.lookup_prefix(n.tag_name().namespace().unwrap_or("")),
        n.attributes().iter().map(|a| XmlAttribute::new(a.namespace(), a.name(), a.value())).collect(),
        n.text(),
        n.parent().map(|p| p.id().get_usize()),
        n.descendants().count(),
    ));
    Some(XmlDocument { nodes: nodes.collect(), root_element: doc.root_element().id().get_usize() })
}

fn owned(s: Option<&str>) -> (r: Option<String>)
    ensures
        r.deep_view() == match s {
            Some(t) => Some(t@),
            None => None::<Seq<char>>,
        },
{
    match s {
        Some(t) => Some(t.to_owned()),
        None => None,
    }
}

impl XmlAttribute {
    pub fn new(namespace: Option<&str>, name: &str, value: &str) -> (r: XmlAttribute)
        ensures
            r.namespace.deep_view() == match namespace {
                Some(t) => Some(t@),
                None => None::<Seq<char>>,
            },
            r.name@ == name@,
            r.value@ == value@,
    {
        XmlAttribute { namespace: owned(namespace), name: name.to_owned(), value: value.to_owned() }
    }
}

impl XmlNode {
    pub fn new(
        is_element: bool,
        name: &str,
        namespace: Option<&str>,
        prefix: Option<&str>,
        attributes: Vec<XmlAttribute>,
        text: Option<&str>,
        parent: Option<usize>,
        subtree_len: usize,
    ) -> (r: XmlNode)
        ensures
            r.is_element == is_element,
            r.name@ == name@,
            r.namespace.deep_view() == match namespace {
                Some(t) => Some(t@),
                None => None::<Seq<char>>,
            },
            r.prefix.deep_view() == match prefix {
                Some(t) => Some(t@),
                None => None::<Seq<char>>,
            },
            r.attributes@ == attributes@,
            r.text.deep_view() == match text {
                Some(t) => Some(t@),
                None => None::<Seq<char>>,
            },
            r.parent == parent,
            r.subtree_len == subtree_len,
    {
        XmlNode {
            is_element,
            name: name.to_owned(),
            namespace: owned(namespace),
            prefix: owned(prefix),
            attributes,
            text: owned(text),
            parent,
            subtree_len,
        }
    }
}

} // verus!
