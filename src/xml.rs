//! A plain, owned model of an XML element tree, filled from the parser of
//! `sxd_document`, and the navigation helpers that the manifest reader uses.
use sxd_document::dom::{ChildOfElement, ChildOfRoot};
use vstd::prelude::*;

verus! {

/// An attribute: its namespace URI (if any), local name and value.
#[derive(Debug)]
pub struct XmlAttribute {
    pub namespace: Option<String>,
    pub name: String,
    pub value: String,
}

/// One child of an element (or of the document root).
#[derive(Debug)]
pub enum XmlNode {
    Element(XmlElement),
    Text(String),
    /// A comment or a processing instruction.
    Other,
}

/// An element: its local name, attributes and children in document order.
#[derive(Debug)]
pub struct XmlElement {
    pub name: String,
    pub attributes: Vec<XmlAttribute>,
    pub children: Vec<XmlNode>,
}

/// The first element in `nodes` whose local name is `name`.
pub open spec fn first_named(nodes: Seq<XmlNode>, name: Seq<char>) -> Option<XmlElement>
    decreases nodes.len(),
{
    if nodes.len() == 0 {
        None
    } else if nodes[0] is Element && nodes[0]->Element_0.name@ == name {
        Some(nodes[0]->Element_0)
    } else {
        first_named(nodes.drop_first(), name)
    }
}

/// The text of the first text node in `nodes`, or the empty text.
pub open spec fn first_text(nodes: Seq<XmlNode>) -> Seq<char>
    decreases nodes.len(),
{
    if nodes.len() == 0 {
        Seq::empty()
    } else if nodes[0] is Text {
        nodes[0]->Text_0@
    } else {
        first_text(nodes.drop_first())
    }
}

/// The elements among `nodes`, in order.
pub open spec fn elements_of(nodes: Seq<XmlNode>) -> Seq<XmlElement>
    decreases nodes.len(),
{
    if nodes.len() == 0 {
        Seq::empty()
    } else if nodes.last() is Element {
        elements_of(nodes.drop_last()).push(nodes.last()->Element_0)
    } else {
        elements_of(nodes.drop_last())
    }
}

/// The value of the first attribute without namespace whose name is `name`,
/// or the empty text.
pub open spec fn attribute_text(attrs: Seq<XmlAttribute>, name: Seq<char>) -> Seq<char>
    decreases attrs.len(),
{
    if attrs.len() == 0 {
        Seq::empty()
    } else if attrs[0].namespace is None && attrs[0].name@ == name {
        attrs[0].value@
    } else {
        attribute_text(attrs.drop_first(), name)
    }
}

/// What the XML parser makes of `text`: the children of the document root,
/// or `None` where `text` is not UTF-8 or not well-formed XML.
pub uninterp spec fn parsed_document(text: Seq<u8>) -> Option<Seq<XmlNode>>;

/// An element handle of a document parsed by `sxd_document`.
#[verifier::external_type_specification]
#[verifier::external_body]
pub struct ExElement<'d>(sxd_document::dom::Element<'d>);

/// Relies on `sxd_document::dom::Element` (`name`, `attributes`, `children`)
/// and on the text and attribute accessors: copies an element of a parsed
/// document, with all its descendants, into an owned tree.
#[verifier::external_body]
fn element_tree<'d>(e: sxd_document::dom::Element<'d>) -> XmlElement {
    XmlElement {
        name: e.name().local_part().to_string(),
        attributes: e.attributes().iter().map(|a| XmlAttribute {
            namespace: a.name().namespace_uri().map(|n| n.to_string()),
            name: a.name().local_part().to_string(),
            value: a.value().to_string(),
        }).collect(),
        children: e.children().iter().map(|c| match *c {
            ChildOfElement::Element(x) => XmlNode::Element(element_tree(x)),
            ChildOfElement::Text(t) => XmlNode::Text(t.text().to_string()),
            ChildOfElement::Comment(_) => XmlNode::Other,
            ChildOfElement::ProcessingInstruction(_) => XmlNode::Other,
        }).collect(),
    }
}

/// Relies on `sxd_document::parser::parse` (after `std::str::from_utf8`):
/// the parsed document's root children, or `None` on a parse error.
#[verifier::external_body]
pub(crate) fn parse_document(text: &[u8]) -> (r: Option<Vec<XmlNode>>)
    ensures
        match r {
            Some(v) => parsed_document(text@) == Some(v@),
            None => parsed_document(text@) is None,
        },
{
    let package = sxd_document::parser::parse(std::str::from_utf8(text).ok()?).ok()?;
    let document = package.as_document();
    Some(document.root().children().iter().map(|c| match *c {
        ChildOfRoot::Element(e) => XmlNode::Element(element_tree(e)),
        ChildOfRoot::Comment(_) => XmlNode::Other,
        ChildOfRoot::ProcessingInstruction(_) => XmlNode::Other,
    }).collect())
}


proof fn lemma_first_named_step(nodes: Seq<XmlNode>, i: int, name: Seq<char>)
    requires
        0 <= i < nodes.len(),
    ensures
        first_named(nodes.subrange(i, nodes.len() as int), name) == if nodes[i] is Element
            && nodes[i]->Element_0.name@ == name {
            Some(nodes[i]->Element_0)
        } else {
            first_named(nodes.subrange(i + 1, nodes.len() as int), name)
        },
{
    assert(nodes.subrange(i, nodes.len() as int).drop_first() =~= nodes.subrange(
        i + 1,
        nodes.len() as int,
    ));
}

proof fn lemma_first_text_step(nodes: Seq<XmlNode>, i: int)
    requires
        0 <= i < nodes.len(),
    ensures
        first_text(nodes.subrange(i, nodes.len() as int)) == if nodes[i] is Text {
            nodes[i]->Text_0@
        } else {
            first_text(nodes.subrange(i + 1, nodes.len() as int))
        },
{
    assert(nodes.subrange(i, nodes.len() as int).drop_first() =~= nodes.subrange(
        i + 1,
        nodes.len() as int,
    ));
}

proof fn lemma_attribute_text_step(attrs: Seq<XmlAttribute>, i: int, name: Seq<char>)
    requires
        0 <= i < attrs.len(),
    ensures
        attribute_text(attrs.subrange(i, attrs.len() as int), name) == if attrs[i].namespace is None
            && attrs[i].name@ == name {
            attrs[i].value@
        } else {
            attribute_text(attrs.subrange(i + 1, attrs.len() as int), name)
        },
{
    assert(attrs.subrange(i, attrs.len() as int).drop_first() =~= attrs.subrange(
        i + 1,
        attrs.len() as int,
    ));
}

/// Finds the first child element of `nodes` with the local name `name`.
pub fn find_named<'a>(nodes: &'a Vec<XmlNode>, name: &str) -> (r: Option<&'a XmlElement>)
    ensures
        match r {
            Some(e) => first_named(nodes@, name@) == Some(*e),
            None => first_named(nodes@, name@) is None,
        },
{
    let key = name.to_owned();
    let mut i: usize = 0;
    assert(nodes@.subrange(0, nodes@.len() as int) =~= nodes@);
    while i < nodes.len()
        invariant
            i <= nodes@.len(),
            key@ == name@,
            first_named(nodes@, name@) == first_named(nodes@.subrange(i as int, nodes@.len() as int), name@),
        decreases nodes.len() - i,
    {
        proof {
            lemma_first_named_step(nodes@, i as int, name@);
        }
        match &nodes[i] {
            XmlNode::Element(e) => {
                if e.name == key {
                    return Some(e);
                }
            },
            _ => {},
        }
        i = i + 1;
    }
    None
}

/// Finds the first child element of `elt` with the local name `name`.
pub fn find_child<'a>(elt: &'a XmlElement, name: &str) -> (r: Option<&'a XmlElement>)
    ensures
        match r {
            Some(e) => first_named(elt.children@, name@) == Some(*e),
            None => first_named(elt.children@, name@) is None,
        },
{
    find_named(&elt.children, name)
}

/// The text of the first text node directly under `elt`, or the empty string.
pub fn read_elt_text(elt: &XmlElement) -> (r: String)
    ensures
        r@ == first_text(elt.children@),
{
    let mut i: usize = 0;
    assert(elt.children@.subrange(0, elt.children@.len() as int) =~= elt.children@);
    while i < elt.children.len()
        invariant
            i <= elt.children@.len(),
            first_text(elt.children@) == first_text(
                elt.children@.subrange(i as int, elt.children@.len() as int),
            ),
        decreases elt.children.len() - i,
    {
        proof {
            lemma_first_text_step(elt.children@, i as int);
        }
        match &elt.children[i] {
            XmlNode::Text(t) => {
                return t.clone();
            },
            _ => {},
        }
        i = i + 1;
    }
    String::new()
}

/// The text of the first child element of `elt` named `name`, or the empty
/// string where there is no such child.
pub open spec fn child_text(elt: XmlElement, name: Seq<char>) -> Seq<char> {
    match first_named(elt.children@, name) {
        Some(c) => first_text(c.children@),
        None => Seq::empty(),
    }
}

/// Reads the text of the first child element of `elt` named `name`.
pub fn read_child_elt_str(elt: &XmlElement, name: &str) -> (r: String)
    ensures
        r@ == child_text(*elt, name@),
{
    match find_child(elt, name) {
        Some(c) => read_elt_text(c),
        None => String::new(),
    }
}

/// The value of the attribute `name` (without namespace) of `elt`, or the
/// empty string.
pub fn attribute_or_empty(elt: &XmlElement, name: &str) -> (r: String)
    ensures
        r@ == attribute_text(elt.attributes@, name@),
{
    let key = name.to_owned();
    let mut i: usize = 0;
    assert(elt.attributes@.subrange(0, elt.attributes@.len() as int) =~= elt.attributes@);
    while i < elt.attributes.len()
        invariant
            i <= elt.attributes@.len(),
            key@ == name@,
            attribute_text(elt.attributes@, name@) == attribute_text(
                elt.attributes@.subrange(i as int, elt.attributes@.len() as int),
                name@,
            ),
        decreases elt.attributes.len() - i,
    {
        proof {
            lemma_attribute_text_step(elt.attributes@, i as int, name@);
        }
        let a = &elt.attributes[i];
        if a.namespace.is_none() && a.name == key {
            return a.value.clone();
        }
        i = i + 1;
    }
    String::new()
}

/// The child elements of `elt`, in document order.
pub fn child_elements(elt: &XmlElement) -> (r: Vec<&XmlElement>)
    ensures
        r@.len() == elements_of(elt.children@).len(),
        forall|j: int| 0 <= j < r@.len() ==> *r@[j] == elements_of(elt.children@)[j],
{
    let mut r: Vec<&XmlElement> = Vec::new();
    let mut i: usize = 0;
    while i < elt.children.len()
        invariant
            i <= elt.children@.len(),
            r@.len() == elements_of(elt.children@.subrange(0, i as int)).len(),
            forall|j: int|
                0 <= j < r@.len() ==> *r@[j] == elements_of(elt.children@.subrange(0, i as int))[j],
        decreases elt.children.len() - i,
    {
        assert(elt.children@.subrange(0, i as int + 1).drop_last() =~= elt.children@.subrange(
            0,
            i as int,
        ));
        match &elt.children[i] {
            XmlNode::Element(e) => {
                r.push(e);
            },
            _ => {},
        }
        i = i + 1;
    }
    assert(elt.children@.subrange(0, elt.children@.len() as int) =~= elt.children@);
    r
}

} // verus!
