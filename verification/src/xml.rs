//! An XML document as a list of nodes in document order, and the reading
//! of attributes from a node.
use vstd::prelude::*;
use vstd::string::*;
use crate::template::text_of;
use crate::text::{is_digit, to_chars};

verus! {

/// One attribute of an element: its local name and its value.
#[derive(Debug)]
pub struct XmlAttribute {
    pub name: String,
    pub value: String,
}

/// One node of a document. `element` tells an element from any other kind
/// of node, `tag` is an element's local name, and `span` counts the node
/// and its descendants, which follow it in the document's list of nodes.
#[derive(Debug)]
pub struct XmlNode {
    pub element: bool,
    pub tag: String,
    pub attributes: Vec<XmlAttribute>,
    pub span: usize,
}

pub ghost struct Attribute {
    pub name: Seq<char>,
    pub value: Seq<char>,
}

pub ghost struct Node {
    pub element: bool,
    pub tag: Seq<char>,
    pub attributes: Seq<Attribute>,
    pub span: nat,
}

impl View for XmlAttribute {
    type V = Attribute;

    open spec fn view(&self) -> Attribute {
        Attribute { name: self.name@, value: self.value@ }
    }
}

impl View for XmlNode {
    type V = Node;

    open spec fn view(&self) -> Node {
        Node {
            element: self.element,
            tag: self.tag@,
            attributes: self.attributes@.map_values(|a: XmlAttribute| a@),
            span: self.span as nat,
        }
    }
}

/// The nodes of a document as mathematical values.
pub open spec fn document(nodes: Seq<XmlNode>) -> Seq<Node> {
    nodes.map_values(|n: XmlNode| n@)
}

pub open spec fn document_of(r: Option<Vec<XmlNode>>) -> Option<Seq<Node>> {
    match r {
        Some(nodes) => Some(document(nodes@)),
        None => None,
    }
}

/// What `roxmltree::Document::parse` makes of `text`: the nodes that
/// `descendants` walks from the root, or `None` where the text is refused.
pub uninterp spec fn xml_nodes(text: Seq<char>) -> Option<Seq<Node>>;

/// Parses `text` with `roxmltree::Document::parse` and lists the nodes that
/// `Document::descendants` yields, root first, each with `is_element`, the
/// local name of `tag_name`, the local name and value of each of its
/// `attributes`, and the count of `Node::descendants`. `None` where the
/// parser returns an error.
#[verifier::external_body]
fn read_document(text: &str) -> (r: Option<Vec<XmlNode>>)
    ensures
        document_of(r) == xml_nodes(text@),
{
    let doc = roxmltree::Document::parse(text).ok()?;
    Some(
        doc.descendants().map(
            |n| XmlNode {
                element: n.is_element(),
                tag: n.tag_name().name().to_string(),
                attributes: n.attributes().map(
                    |a| XmlAttribute { name: a.name().to_string(), value: a.value().to_string() },
                ).collect(),
                span: n.descendants().count(),
            },
        ).collect(),
    )
}

/// Reads an XML document into its nodes, in document order. `None` where
/// the text is not well-formed.
pub fn parse_xml(text: &str) -> (r: Option<Vec<XmlNode>>)
    ensures
        document_of(r) == xml_nodes(text@),
{
    read_document(text)
}

/// Whether a node is an element with the local name `name`.
pub open spec fn has_tag(node: Node, name: Seq<char>) -> bool {
    node.element && node.tag == name
}

/// The value of the first attribute named `name`.
pub open spec fn first_value(attributes: Seq<Attribute>, name: Seq<char>) -> Option<Seq<char>>
    decreases attributes.len(),
{
    if attributes.len() == 0 {
        None
    } else if attributes[0].name == name {
        Some(attributes[0].value)
    } else {
        first_value(attributes.drop_first(), name)
    }
}

/// The value of a node's attribute `name`, where it has one.
pub open spec fn attribute(node: Node, name: Seq<char>) -> Option<Seq<char>> {
    first_value(node.attributes, name)
}

/// Where the descendants of node `i` end in the document's list.
pub open spec fn end_of(nodes: Seq<Node>, i: int) -> int {
    if nodes[i].span <= nodes.len() - i {
        i + nodes[i].span
    } else {
        nodes.len() as int
    }
}

pub open spec fn digit_value(c: char) -> int {
    c as int - 48
}

/// The number that a run of decimal digits writes.
pub open spec fn decimal_value(s: Seq<char>) -> int
    decreases s.len(),
{
    if s.len() == 0 {
        0
    } else {
        decimal_value(s.drop_last()) * 10 + digit_value(s.last())
    }
}

pub open spec fn all_digits(s: Seq<char>) -> bool {
    forall|i: int| 0 <= i < s.len() ==> is_digit(#[trigger] s[i])
}

/// `s` without a leading `+`.
pub open spec fn unsigned_digits(s: Seq<char>) -> Seq<char> {
    if s.len() > 0 && s[0] == '+' {
        s.skip(1)
    } else {
        s
    }
}

/// The number that `s` writes in decimal: one digit or more, with or
/// without a `+` before them, and a value within 64 bits. `None` for any
/// other text.
pub open spec fn u64_of(s: Seq<char>) -> Option<u64> {
    let digits = unsigned_digits(s);
    if digits.len() > 0 && all_digits(digits) && decimal_value(digits) <= u64::MAX {
        Some(decimal_value(digits) as u64)
    } else {
        None
    }
}

/// The number written by the first `n` of a run of digits is not above the
/// number written by all of them.
pub proof fn lemma_decimal_value_grows(s: Seq<char>, n: int)
    requires
        all_digits(s),
        0 <= n <= s.len(),
    ensures
        0 <= decimal_value(s.take(n)) <= decimal_value(s),
    decreases s.len() - n,
{
    lemma_decimal_value_positive(s.take(n));
    if n < s.len() {
        assert(s.take(n + 1).drop_last() =~= s.take(n));
        assert(is_digit(s[n]));
        lemma_decimal_value_grows(s, n + 1);
    } else {
        assert(s.take(n) =~= s);
    }
}

pub proof fn lemma_decimal_value_positive(s: Seq<char>)
    requires
        all_digits(s),
    ensures
        0 <= decimal_value(s),
    decreases s.len(),
{
    if s.len() > 0 {
        assert(is_digit(s.last()));
        lemma_decimal_value_positive(s.drop_last());
    }
}

/// Reads a decimal number of at most 64 bits.
pub fn parse_u64(s: &str) -> (r: Option<u64>)
    ensures
        r == u64_of(s@),
{
    let chars = to_chars(s);
    let start: usize = if chars.len() > 0 && chars[0] == '+' {
        1
    } else {
        0
    };
    if chars.len() == start {
        return None;
    }
    let ghost digits = unsigned_digits(s@);
    let mut value: u64 = 0;
    let mut i: usize = start;
    proof {
        assert(digits =~= chars@.skip(start as int));
    }
    while i < chars.len()
        invariant
            start <= i <= chars.len(),
            digits == chars@.skip(start as int),
            digits == unsigned_digits(s@),
            all_digits(digits.take(i - start)),
            value == decimal_value(digits.take(i - start)),
        decreases chars.len() - i,
    {
        let c = chars[i];
        if !(c >= '0' && c <= '9') {
            proof {
                assert(digits[i - start] == c);
            }
            return None;
        }
        let digit: u64 = (c as u32 - 48) as u64;
        proof {
            assert(digits.take(i + 1 - start).drop_last() =~= digits.take(i - start));
            assert(digits.take(i + 1 - start).last() == c);
            assert(digit == digit_value(c));
        }
        if value > (u64::MAX - digit) / 10 {
            proof {
                if all_digits(digits) {
                    lemma_decimal_value_grows(digits, i + 1 - start);
                }
            }
            return None;
        }
        value = value * 10 + digit;
        i += 1;
    }
    proof {
        assert(digits.take(i - start) =~= digits);
    }
    Some(value)
}

/// Whether `node` is an element with the local name `name`.
pub fn has_tag_name(node: &XmlNode, name: &str) -> (r: bool)
    ensures
        r == has_tag(node@, name@),
{
    let wanted = name.to_owned();
    node.element && node.tag == wanted
}

/// The value of the attribute `attribute` of `node`: that of the first
/// attribute with that local name.
pub fn get_optional_attibute_from_node(node: &XmlNode, attribute: &str) -> (r: Option<String>)
    ensures
        text_of(r) == first_value(node@.attributes, attribute@),
{
    let wanted = attribute.to_owned();
    let ghost all = node@.attributes;
    let mut i: usize = 0;
    proof {
        assert(all.skip(0) =~= all);
    }
    while i < node.attributes.len()
        invariant
            i <= node.attributes.len(),
            all == node@.attributes,
            wanted@ == attribute@,
            first_value(all.skip(i as int), attribute@) == first_value(all, attribute@),
        decreases node.attributes.len() - i,
    {
        proof {
            assert(all.skip(i as int)[0] == node.attributes@[i as int]@);
            assert(all.skip(i as int).drop_first() =~= all.skip(i + 1));
        }
        if node.attributes[i].name == wanted {
            return Some(node.attributes[i].value.clone());
        }
        i += 1;
    }
    None
}

/// The number that the attribute `attribute` of `node` writes; an
/// attribute that writes none counts as absent.
pub open spec fn number_attribute(node: Node, name: Seq<char>) -> Option<u64> {
    match attribute(node, name) {
        Some(value) => u64_of(value),
        None => None,
    }
}

/// Reads an attribute of `node` as a number.
pub fn get_optional_u64_attibute_from_node(node: &XmlNode, attribute: &str) -> (r: Option<u64>)
    ensures
        r == number_attribute(node@, attribute@),
{
    match get_optional_attibute_from_node(node, attribute) {
        Some(value) => parse_u64(value.as_str()),
        None => None,
    }
}

/// Where the descendants of node `i` end.
pub fn subtree_end(nodes: &Vec<XmlNode>, i: usize) -> (r: usize)
    requires
        i < nodes.len(),
    ensures
        r == end_of(document(nodes@), i as int),
        i <= r <= nodes.len(),
{
    if nodes[i].span <= nodes.len() - i {
        i + nodes[i].span
    } else {
        nodes.len()
    }
}

} // verus!
