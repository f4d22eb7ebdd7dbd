//! The structural events of an XML document, as the library's own plain
//! values, and the trusted scan that produces them from a byte buffer.

use crate::text::{seq_ieq, str_eq, str_ieq};
use vstd::prelude::*;
use xml::name::OwnedName;
use xml::reader::{EventReader, XmlEvent as XE};

verus! {

/// A qualified name: local part and optional namespace URI. The reader
/// resolves every prefix, and refuses a prefix bound to an empty
/// namespace, so a name without a namespace is exactly one that was
/// written bare.
pub struct QName {
    pub local_name: String,
    pub namespace: Option<String>,
}

/// One attribute of a start tag.
pub struct Attribute {
    pub name: QName,
    pub value: String,
}

/// One structural event of a document walk. `Text` covers both character
/// data and CDATA sections; `Other` stands for the events the feed parsers
/// never inspect (comments, processing instructions, the end of the
/// document).
pub enum XmlNode {
    StartDocument { encoding: String },
    StartElement { name: QName, attributes: Vec<Attribute> },
    Text { data: String },
    EndElement { name: QName },
    Other,
}

impl Clone for QName {
    fn clone(&self) -> (res: Self)
        ensures
            res == *self,
    {
        QName { local_name: self.local_name.clone(), namespace: self.namespace.clone() }
    }
}

impl Clone for Attribute {
    fn clone(&self) -> (res: Self)
        ensures
            res == *self,
    {
        Attribute { name: self.name.clone(), value: self.value.clone() }
    }
}

pub fn clone_attrs(attrs: &Vec<Attribute>) -> (res: Vec<Attribute>)
    ensures
        res@ == attrs@,
{
    let mut out: Vec<Attribute> = Vec::new();
    let mut i: usize = 0;
    while i < attrs.len()
        invariant
            i <= attrs.len(),
            out@ =~= attrs@.take(i as int),
        decreases attrs.len() - i,
    {
        out.push(attrs[i].clone());
        i += 1;
    }
    proof {
        assert(attrs@.take(attrs@.len() as int) =~= attrs@);
    }
    out
}

/// A name written bare, with local part `s`: no namespace, hence no
/// prefix either.
pub open spec fn is_plain_name(q: QName, s: Seq<char>) -> bool {
    q.namespace is None && q.local_name@ == s
}

/// The name lies in namespace `ns`.
pub open spec fn has_ns(q: QName, ns: Seq<char>) -> bool {
    match q.namespace {
        Some(u) => u@ == ns,
        None => false,
    }
}

pub fn qname_is_plain(q: &QName, lit: &str) -> (r: bool)
    ensures
        r == is_plain_name(*q, lit@),
{
    match &q.namespace {
        Some(_) => false,
        None => str_eq(self_local(q), lit),
    }
}

fn self_local(q: &QName) -> (r: &str)
    ensures
        r@ == q.local_name@,
{
    self_str(&q.local_name)
}

fn self_str(s: &String) -> (r: &str)
    ensures
        r@ == s@,
{
    s.as_str()
}

pub fn qname_has_ns(q: &QName, ns: &str) -> (r: bool)
    ensures
        r == has_ns(*q, ns@),
{
    match &q.namespace {
        Some(u) => str_eq(self_str(u), ns),
        None => false,
    }
}

pub fn qname_local_is(q: &QName, lit: &str) -> (r: bool)
    ensures
        r == (q.local_name@ == lit@),
{
    str_eq(self_local(q), lit)
}

pub fn qname_local_ieq(q: &QName, lit: &str) -> (r: bool)
    ensures
        r == seq_ieq(q.local_name@, lit@),
{
    str_ieq(self_local(q), lit)
}

/// The first attribute whose name displays as the bare `key`, if any.
pub open spec fn find_plain_attr(attrs: Seq<Attribute>, key: Seq<char>) -> Option<Seq<char>>
    decreases attrs.len(),
{
    if attrs.len() == 0 {
        None
    } else if is_plain_name(attrs[0].name, key) {
        Some(attrs[0].value@)
    } else {
        find_plain_attr(attrs.drop_first(), key)
    }
}

pub fn find_plain_attr_exec(attrs: &Vec<Attribute>, key: &str) -> (r: Option<String>)
    ensures
        match r {
            Some(v) => find_plain_attr(attrs@, key@) == Some(v@),
            None => find_plain_attr(attrs@, key@) is None,
        },
{
    let mut i: usize = 0;
    proof {
        assert(attrs@.skip(0) =~= attrs@);
    }
    while i < attrs.len()
        invariant
            i <= attrs.len(),
            find_plain_attr(attrs@.skip(i as int), key@) == find_plain_attr(attrs@, key@),
        decreases attrs.len() - i,
    {
        proof {
            assert(attrs@.skip(i as int).drop_first() =~= attrs@.skip(i + 1));
            assert(attrs@.skip(i as int)[0] == attrs@[i as int]);
        }
        if qname_is_plain(&attrs[i].name, key) {
            return Some(attrs[i].value.clone());
        }
        i += 1;
    }
    None
}

/// The structural events that the XML reader yields for `bytes`, together
/// with the message of the well-formedness error that stopped it, if one
/// did. The reader's output depends on the bytes alone.
pub uninterp spec fn xml_scan_of(bytes: Seq<u8>) -> (Seq<XmlNode>, Option<Seq<char>>);

#[verifier::external_type_specification]
#[verifier::external_body]
pub struct ExXmlEvent(XE);

/// Relies on the shape of `xml::reader::XmlEvent`: character data, CDATA,
/// element tags and the document declaration are carried over one to one,
/// fields moved as they stand; every other variant becomes `Other`.
#[verifier::external_body]
fn event_node(ev: XE) -> XmlNode {
    let qn = |n: OwnedName| QName { local_name: n.local_name, namespace: n.namespace };
    match ev {
        XE::StartDocument { encoding, .. } => XmlNode::StartDocument { encoding },
        XE::StartElement { name, attributes, .. } => XmlNode::StartElement { name: qn(name), attributes: attributes.into_iter().map(|a| Attribute { name: qn(a.name), value: a.value }).collect() },
        XE::Characters(data) | XE::CData(data) => XmlNode::Text { data },
        XE::EndElement { name } => XmlNode::EndElement { name: qn(name) },
        _ => XmlNode::Other,
    }
}

/// Relies on `xml::reader::EventReader`: iterating it yields the document's
/// events in order until the end or a first error, a function of the input
/// bytes alone.
#[verifier::external_body]
pub fn scan_xml(buf: &[u8]) -> (r: (Vec<XmlNode>, Option<String>))
    ensures
        r.0@ == xml_scan_of(buf@).0,
        (r.1 matches Some(e) ==> xml_scan_of(buf@).1 == Some(e@)),
        (r.1 is None ==> xml_scan_of(buf@).1 is None),
{
    let mut events = Vec::new();
    for ev in EventReader::new(buf) {
        match ev {
            Ok(e) => events.push(event_node(e)),
            Err(e) => return (events, Some(e.to_string())),
        }
    }
    (events, None)
}

} // verus!
