//! The multi-dialect feed parser: one normalized entry type, one
//! event-driven parser state machine instantiated for each of the three
//! dialects, and the dispatcher that tries them in a fixed order.

use crate::error::{Error, InvalidRssError};
use crate::sanitize::{clip_fragments, clip_spec, html_text_fragments, text_fragments_of};
use crate::text::{concat2, seq_ieq, str_eq, str_ieq, trim_spec, trim_str};
use crate::xml_events::{
    clone_attrs, find_plain_attr, find_plain_attr_exec, has_ns, is_plain_name, qname_has_ns,
    qname_is_plain, qname_local_ieq, qname_local_is, scan_xml, xml_scan_of, Attribute, QName,
    XmlNode,
};
use vstd::prelude::*;

verus! {

pub const RDF_NS: &'static str = "http://purl.org/rss/1.0/";

pub const RDF_SYNTAX_NS: &'static str = "http://www.w3.org/1999/02/22-rdf-syntax-ns#";

pub const ELEMENTS_NS: &'static str = "http://purl.org/dc/elements/1.1/";

pub const CONTENT_NS: &'static str = "http://purl.org/rss/1.0/modules/content/";

pub const ATOM_NS: &'static str = "http://www.w3.org/2005/Atom";

pub const MEDIA_NS: &'static str = "http://search.yahoo.com/mrss/";

/// One normalized feed entry: the unit every dialect parses into.
#[derive(Debug, Clone, PartialEq)]
pub struct Rss {
    pub title: String,
    pub description: String,
    pub link: String,
    pub pub_date: Option<String>,
}

/// The mathematical value of an entry.
#[verifier::ext_equal]
pub struct RssView {
    pub title: Seq<char>,
    pub description: Seq<char>,
    pub link: Seq<char>,
    pub pub_date: Option<Seq<char>>,
}

impl View for Rss {
    type V = RssView;

    open spec fn view(&self) -> RssView {
        RssView {
            title: self.title@,
            description: self.description@,
            link: self.link@,
            pub_date: self.pub_date.deep_view(),
        }
    }
}

/// The entry built from raw accumulator fields: title and description are
/// trimmed, and the description is first stripped of markup and bounded.
pub open spec fn entry_of(
    title: Seq<char>,
    description: Seq<char>,
    link: Seq<char>,
    pub_date: Option<Seq<char>>,
) -> RssView {
    RssView {
        title: trim_spec(title),
        description: trim_spec(clip_spec(text_fragments_of(description))),
        link: link,
        pub_date: pub_date,
    }
}

impl Rss {
    /// Builds one normalized entry, sanitizing the title and description.
    pub fn new(title: String, description: String, link: String, pub_date: Option<String>) -> (r:
        Rss)
        ensures
            r@ == entry_of(title@, description@, link@, pub_date.deep_view()),
    {
        Rss {
            title: Rss::trim(title),
            description: Rss::trim(Rss::pick_texts(description)),
            link: link,
            pub_date: pub_date,
        }
    }

    /// Removes leading and trailing white space.
    pub fn trim(s: String) -> (r: String)
        ensures
            r@ == trim_spec(s@),
    {
        trim_str(s.as_str())
    }

    /// Strips embedded markup from `data` and bounds the remaining text.
    fn pick_texts(data: String) -> (r: String)
        ensures
            r@ == clip_spec(text_fragments_of(data@)),
    {
        let frags = html_text_fragments(data.as_str());
        clip_fragments(&frags)
    }
}

/// The three syndication dialects, in the order the dispatcher tries them.
#[derive(Clone, Copy, PartialEq, Eq, Structural)]
pub enum Dialect {
    RssV20,
    Atom,
    RssV10,
}

/// The display name a dialect tags its failure messages with.
pub open spec fn dialect_name(d: Dialect) -> Seq<char> {
    match d {
        Dialect::RssV20 => "RSS V2"@,
        Dialect::Atom => "Atom"@,
        Dialect::RssV10 => "RSS V1"@,
    }
}

pub fn dialect_label(d: Dialect) -> (r: &'static str)
    ensures
        r@ == dialect_name(d),
{
    match d {
        Dialect::RssV20 => "RSS V2",
        Dialect::Atom => "Atom",
        Dialect::RssV10 => "RSS V1",
    }
}

/// A dialect-tagged diagnostic: `[name] ` followed by the cause and its
/// detail.
pub open spec fn dmsg(d: Dialect, body: Seq<char>, detail: Seq<char>) -> Seq<char> {
    "["@ + dialect_name(d) + "] "@ + body + detail
}

fn make_msg(d: Dialect, body: &str, detail: &str) -> (r: String)
    ensures
        r@ == dmsg(d, body@, detail@),
{
    let a = concat2("[", dialect_label(d));
    let b = concat2(a.as_str(), "] ");
    let c = concat2(b.as_str(), body);
    let r = concat2(c.as_str(), detail);
    proof {
        assert(r@ =~= dmsg(d, body@, detail@));
    }
    r
}

/// An open element: its name and its attributes, as spec values.
#[verifier::ext_equal]
pub struct FrameView {
    pub name: QName,
    pub attrs: Seq<Attribute>,
}

/// The full state of one dialect parser: the stack of open elements
/// (most recently opened last), the accumulator of the entry being built,
/// and the entries emitted so far.
#[verifier::ext_equal]
pub struct ParserModel {
    pub stack: Seq<FrameView>,
    pub title: Seq<char>,
    pub link: Seq<char>,
    pub description: Seq<char>,
    pub pub_date: Option<Seq<char>>,
    pub results: Seq<RssView>,
}

pub open spec fn init_model() -> ParserModel {
    ParserModel {
        stack: Seq::empty(),
        title: Seq::empty(),
        link: Seq::empty(),
        description: Seq::empty(),
        pub_date: None,
        results: Seq::empty(),
    }
}

pub open spec fn is_atom_name(q: QName, local: Seq<char>) -> bool {
    has_ns(q, ATOM_NS@) && q.local_name@ == local
}

pub open spec fn is_media_name(q: QName, local: Seq<char>) -> bool {
    has_ns(q, MEDIA_NS@) && q.local_name@ == local
}

/// An RSS 1.0 item element: local name `item` up to ASCII case, in the
/// RDF content namespace.
pub open spec fn is_rdf_item(q: QName) -> bool {
    seq_ieq(q.local_name@, "item"@) && has_ns(q, RDF_NS@)
}

/// The element whose end emits an entry, per dialect.
pub open spec fn is_item_end(d: Dialect, name: QName) -> bool {
    match d {
        Dialect::RssV20 => is_plain_name(name, "item"@),
        Dialect::Atom => is_atom_name(name, "entry"@),
        Dialect::RssV10 => is_rdf_item(name),
    }
}

/// An `atom:link` whose `rel` does not discriminate it away: `rel` absent,
/// or present and neither `self` nor `alternate`.
pub open spec fn link_qualifies(attrs: Seq<Attribute>) -> bool {
    match find_plain_attr(attrs, "rel"@) {
        None => true,
        Some(v) => v != "self"@ && v != "alternate"@,
    }
}

/// The document encoding the parsers accept.
pub open spec fn encoding_ok(enc: Seq<char>) -> bool {
    seq_ieq(enc, "UTF-8"@)
}

pub open spec fn ns_detail(ns: Option<String>) -> Seq<char> {
    match ns {
        Some(u) => u@,
        None => "none"@,
    }
}

/// The verdict on a document's root element: `None` when the dialect
/// accepts it, otherwise the dialect-tagged message explaining why not.
pub open spec fn root_error(d: Dialect, name: QName, attrs: Seq<Attribute>) -> Option<Seq<char>> {
    match d {
        Dialect::RssV20 => if name.local_name@ != "rss"@ {
            Some(dmsg(d, "invalid root element: "@, name.local_name@))
        } else {
            match find_plain_attr(attrs, "version"@) {
                None => Some(dmsg(d, "undefined RSS version"@, ""@)),
                Some(v) => if v == "2.0"@ {
                    None
                } else {
                    Some(dmsg(d, "unsupported RSS version: "@, v))
                },
            }
        },
        Dialect::Atom => if name.local_name@ != "feed"@ {
            Some(dmsg(d, "invalid root element: "@, name.local_name@))
        } else if !has_ns(name, ATOM_NS@) {
            Some(dmsg(d, "invalid root namespace: "@, ns_detail(name.namespace)))
        } else {
            None
        },
        Dialect::RssV10 => if !seq_ieq(name.local_name@, "rdf"@) {
            Some(dmsg(d, "invalid root element: "@, name.local_name@))
        } else if !has_ns(name, RDF_SYNTAX_NS@) {
            Some(dmsg(d, "invalid root namespace: "@, ns_detail(name.namespace)))
        } else {
            None
        },
    }
}

/// The state after a start tag: an `atom:link` without a discriminating
/// `rel` captures its `href` as the entry's link; every start tag pushes
/// its frame.
pub open spec fn step_start(
    d: Dialect,
    m: ParserModel,
    name: QName,
    attrs: Seq<Attribute>,
) -> ParserModel {
    let link = if d is Atom && is_atom_name(name, "link"@) && link_qualifies(attrs) {
        match find_plain_attr(attrs, "href"@) {
            Some(h) => h,
            None => m.link,
        }
    } else {
        m.link
    };
    ParserModel { stack: m.stack.push(FrameView { name, attrs }), link, ..m }
}

/// The YouTube extension context: text three levels deep under
/// `entry` / `media:group` / `media:description`.
pub open spec fn in_media_description(stack: Seq<FrameView>) -> bool {
    stack.len() >= 3 && is_atom_name(stack[stack.len() - 3].name, "entry"@) && is_media_name(
        stack[stack.len() - 2].name,
        "group"@,
    ) && is_media_name(stack[stack.len() - 1].name, "description"@)
}

pub open spec fn step_text_v2(m: ParserModel, data: Seq<char>) -> ParserModel {
    if m.stack.len() < 2 {
        m
    } else if !is_plain_name(m.stack[m.stack.len() - 2].name, "item"@) {
        m
    } else {
        let q = m.stack[m.stack.len() - 1].name;
        if q.local_name@ == "title"@ {
            ParserModel { title: data, ..m }
        } else if q.local_name@ == "link"@ {
            ParserModel { link: data, ..m }
        } else if q.local_name@ == "description"@ {
            ParserModel { description: data, ..m }
        } else if has_ns(q, CONTENT_NS@) && q.local_name@ == "encoded"@ {
            if m.description.len() == 0 {
                ParserModel { description: data, ..m }
            } else {
                m
            }
        } else if q.local_name@ == "pubDate"@ {
            ParserModel { pub_date: Some(data), ..m }
        } else {
            m
        }
    }
}

pub open spec fn step_text_atom(m: ParserModel, data: Seq<char>) -> ParserModel {
    if in_media_description(m.stack) && m.description.len() == 0 {
        ParserModel { description: data, ..m }
    } else if m.stack.len() < 2 {
        m
    } else if is_atom_name(m.stack[m.stack.len() - 2].name, "entry"@) {
        let q = m.stack[m.stack.len() - 1].name;
        if is_atom_name(q, "title"@) {
            ParserModel { title: data, ..m }
        } else if is_atom_name(q, "content"@) {
            ParserModel { description: data, ..m }
        } else if is_atom_name(q, "published"@) {
            ParserModel { pub_date: Some(data), ..m }
        } else if is_atom_name(q, "updated"@) {
            if m.pub_date is None {
                ParserModel { pub_date: Some(data), ..m }
            } else {
                m
            }
        } else {
            m
        }
    } else {
        m
    }
}

pub open spec fn step_text_v1(m: ParserModel, data: Seq<char>) -> ParserModel {
    if m.stack.len() < 2 {
        m
    } else if !is_rdf_item(m.stack[m.stack.len() - 2].name) {
        m
    } else {
        let q = m.stack[m.stack.len() - 1].name;
        if has_ns(q, RDF_NS@) && q.local_name@ == "title"@ {
            ParserModel { title: data, ..m }
        } else if has_ns(q, RDF_NS@) && q.local_name@ == "link"@ {
            ParserModel { link: data, ..m }
        } else if has_ns(q, RDF_NS@) && q.local_name@ == "description"@ {
            ParserModel { description: data, ..m }
        } else if has_ns(q, CONTENT_NS@) && q.local_name@ == "encoded"@ {
            if m.description.len() == 0 {
                ParserModel { description: data, ..m }
            } else {
                m
            }
        } else if has_ns(q, ELEMENTS_NS@) && q.local_name@ == "date"@ {
            ParserModel { pub_date: Some(data), ..m }
        } else {
            m
        }
    }
}

/// The state after character data: text is routed into the accumulator
/// only in the dialect's own item context.
pub open spec fn step_text(d: Dialect, m: ParserModel, data: Seq<char>) -> ParserModel {
    match d {
        Dialect::RssV20 => step_text_v2(m, data),
        Dialect::Atom => step_text_atom(m, data),
        Dialect::RssV10 => step_text_v1(m, data),
    }
}

/// The state after an end tag: closing an item emits the accumulated
/// entry and resets the accumulator; the frame is popped either way.
pub open spec fn step_end(d: Dialect, m: ParserModel, name: QName) -> ParserModel {
    let m1 = if is_item_end(d, name) {
        ParserModel {
            results: m.results.push(entry_of(m.title, m.description, m.link, m.pub_date)),
            title: Seq::empty(),
            link: Seq::empty(),
            description: Seq::empty(),
            pub_date: None,
            ..m
        }
    } else {
        m
    };
    if m1.stack.len() > 0 {
        ParserModel { stack: m1.stack.drop_last(), ..m1 }
    } else {
        m1
    }
}

/// One dialect's whole walk over the remaining events, from state `m`.
/// The first start tag must pass root verification; a declared encoding
/// other than UTF-8 aborts; a scan error surfaces once the events that
/// preceded it are exhausted.
pub open spec fn walk_from(
    d: Dialect,
    m: ParserModel,
    root_seen: bool,
    events: Seq<XmlNode>,
    scan_err: Option<Seq<char>>,
) -> Result<Seq<RssView>, Seq<char>>
    decreases events.len(),
{
    if events.len() == 0 {
        match scan_err {
            Some(e) => Err(e),
            None => Ok(m.results),
        }
    } else {
        let rest = events.drop_first();
        match events[0] {
            XmlNode::StartDocument { encoding } => if !encoding_ok(encoding@) {
                Err(dmsg(d, "unsupported encoding: "@, encoding@))
            } else {
                walk_from(d, m, root_seen, rest, scan_err)
            },
            XmlNode::StartElement { name, attributes } => if !root_seen {
                match root_error(d, name, attributes@) {
                    Some(e) => Err(e),
                    None => walk_from(d, step_start(d, m, name, attributes@), true, rest, scan_err),
                }
            } else {
                walk_from(d, step_start(d, m, name, attributes@), true, rest, scan_err)
            },
            XmlNode::Text { data } => walk_from(d, step_text(d, m, data@), root_seen, rest, scan_err),
            XmlNode::EndElement { name } => walk_from(d, step_end(d, m, name), root_seen, rest, scan_err),
            XmlNode::Other => walk_from(d, m, root_seen, rest, scan_err),
        }
    }
}

/// One dialect's verdict on a scanned document.
pub open spec fn walk(d: Dialect, events: Seq<XmlNode>, scan_err: Option<Seq<char>>) -> Result<
    Seq<RssView>,
    Seq<char>,
> {
    walk_from(d, init_model(), false, events, scan_err)
}

/// Tries the dialects in the fixed order RSS 2.0, Atom, RSS 1.0 and
/// keeps the earliest success; otherwise the three failure messages are
/// collected in that same order.
pub open spec fn dispatch(events: Seq<XmlNode>, scan_err: Option<Seq<char>>) -> Result<
    Seq<RssView>,
    Seq<Seq<char>>,
> {
    match walk(Dialect::RssV20, events, scan_err) {
        Ok(r) => Ok(r),
        Err(e1) => match walk(Dialect::Atom, events, scan_err) {
            Ok(r) => Ok(r),
            Err(e2) => match walk(Dialect::RssV10, events, scan_err) {
                Ok(r) => Ok(r),
                Err(e3) => Err(seq![e1, e2, e3]),
            },
        },
    }
}

/// What parsing a byte buffer yields: the dispatcher's verdict on the
/// events the XML reader yields for those bytes.
pub open spec fn parse_feed_spec(bytes: Seq<u8>) -> Result<Seq<RssView>, Seq<Seq<char>>> {
    dispatch(xml_scan_of(bytes).0, xml_scan_of(bytes).1)
}

/// The views of a list of entries.
pub open spec fn entries_view(s: Seq<Rss>) -> Seq<RssView> {
    s.map_values(|x: Rss| x@)
}

/// An open element as stored by the parser.
pub struct Frame {
    pub name: QName,
    pub attrs: Vec<Attribute>,
}

pub open spec fn frame_view(f: Frame) -> FrameView {
    FrameView { name: f.name, attrs: f.attrs@ }
}

pub open spec fn stack_view(s: Seq<Frame>) -> Seq<FrameView> {
    s.map_values(|f: Frame| frame_view(f))
}

proof fn lemma_stack_push(s: Seq<Frame>, f: Frame)
    ensures
        stack_view(s.push(f)) =~= stack_view(s).push(frame_view(f)),
{
}

proof fn lemma_stack_drop(s: Seq<Frame>)
    requires
        s.len() > 0,
    ensures
        stack_view(s.subrange(0, s.len() - 1)) =~= stack_view(s).drop_last(),
{
}

proof fn lemma_entries_push(s: Seq<Rss>, x: Rss)
    ensures
        entries_view(s.push(x)) =~= entries_view(s).push(x@),
{
}

/// One dialect parser: the tag picks the dialect's rules, the rest of the
/// fields hold its state.
pub struct Parser {
    pub dialect: Dialect,
    pub results: Vec<Rss>,
    pub elements: Vec<Frame>,
    pub title: String,
    pub link: String,
    pub description: String,
    pub pub_date: Option<String>,
}

impl Parser {
    pub open spec fn model(&self) -> ParserModel {
        ParserModel {
            stack: stack_view(self.elements@),
            title: self.title@,
            link: self.link@,
            description: self.description@,
            pub_date: self.pub_date.deep_view(),
            results: entries_view(self.results@),
        }
    }

    pub fn new(dialect: Dialect) -> (p: Parser)
        ensures
            p.dialect == dialect,
            p.model() == init_model(),
    {
        let p = Parser {
            dialect,
            results: Vec::new(),
            elements: Vec::new(),
            title: String::new(),
            link: String::new(),
            description: String::new(),
            pub_date: None,
        };
        proof {
            assert(p.model() =~= init_model());
        }
        p
    }

    /// Pushes the frame; for Atom, an `atom:link` without a
    /// discriminating `rel` first captures its `href` as the link.
    pub fn parse_start_element(&mut self, name: QName, attrs: Vec<Attribute>)
        ensures
            final(self).dialect == old(self).dialect,
            final(self).model() == step_start(
                old(self).dialect,
                old(self).model(),
                name,
                attrs@,
            ),
    {
        let ghost m0 = self.model();
        match self.dialect {
            Dialect::Atom => {
                if qname_has_ns(&name, ATOM_NS) && qname_local_is(&name, "link") {
                    let qualifies = match find_plain_attr_exec(&attrs, "rel") {
                        None => true,
                        Some(v) => !str_eq(v.as_str(), "self") && !str_eq(v.as_str(), "alternate"),
                    };
                    if qualifies {
                        match find_plain_attr_exec(&attrs, "href") {
                            Some(h) => {
                                self.link = h;
                            },
                            None => {},
                        }
                    }
                }
            },
            _ => {},
        }
        let ghost fr = Frame { name, attrs };
        self.elements.push(Frame { name, attrs });
        proof {
            lemma_stack_push(old(self).elements@, fr);
            assert(self.model() =~= step_start(old(self).dialect, m0, name, attrs@));
        }
    }

    /// True while the open elements end in `entry`, `media:group`,
    /// `media:description`.
    fn is_media_description(&self) -> (r: bool)
        ensures
            r == in_media_description(self.model().stack),
    {
        let n = self.elements.len();
        if n < 3 {
            return false;
        }
        proof {
            assert(self.model().stack[n - 3] == frame_view(self.elements@[n - 3]));
            assert(self.model().stack[n - 2] == frame_view(self.elements@[n - 2]));
            assert(self.model().stack[n - 1] == frame_view(self.elements@[n - 1]));
        }
        if !(qname_has_ns(&self.elements[n - 3].name, ATOM_NS) && qname_local_is(
            &self.elements[n - 3].name,
            "entry",
        )) {
            return false;
        }
        if !(qname_has_ns(&self.elements[n - 2].name, MEDIA_NS) && qname_local_is(
            &self.elements[n - 2].name,
            "group",
        )) {
            return false;
        }
        qname_has_ns(&self.elements[n - 1].name, MEDIA_NS) && qname_local_is(
            &self.elements[n - 1].name,
            "description",
        )
    }

    /// Routes character data into the accumulator when the open-element
    /// context calls for it.
    pub fn parse_content(&mut self, data: String)
        ensures
            final(self).dialect == old(self).dialect,
            final(self).model() == step_text(old(self).dialect, old(self).model(), data@),
    {
        let ghost m0 = self.model();
        let n = self.elements.len();
        proof {
            if n >= 1 {
                assert(m0.stack[n - 1] == frame_view(self.elements@[n - 1]));
            }
            if n >= 2 {
                assert(m0.stack[n - 2] == frame_view(self.elements@[n - 2]));
            }
        }
        match self.dialect {
            Dialect::RssV20 => {
                if n < 2 {
                    return ;
                }
                if !qname_is_plain(&self.elements[n - 2].name, "item") {
                    return ;
                }
                if qname_local_is(&self.elements[n - 1].name, "title") {
                    self.title = data;
                } else if qname_local_is(&self.elements[n - 1].name, "link") {
                    self.link = data;
                } else if qname_local_is(&self.elements[n - 1].name, "description") {
                    self.description = data;
                } else if qname_has_ns(&self.elements[n - 1].name, CONTENT_NS) && qname_local_is(
                    &self.elements[n - 1].name,
                    "encoded",
                ) {
                    if self.description.as_str().is_empty() {
                        self.description = data;
                    }
                } else if qname_local_is(&self.elements[n - 1].name, "pubDate") {
                    self.pub_date = Some(data);
                }
            },
            Dialect::Atom => {
                if self.is_media_description() && self.description.as_str().is_empty() {
                    self.description = data;
                    return ;
                }
                if n < 2 {
                    return ;
                }
                if qname_has_ns(&self.elements[n - 2].name, ATOM_NS) && qname_local_is(
                    &self.elements[n - 2].name,
                    "entry",
                ) {
                    if qname_has_ns(&self.elements[n - 1].name, ATOM_NS) && qname_local_is(
                        &self.elements[n - 1].name,
                        "title",
                    ) {
                        self.title = data;
                    } else if qname_has_ns(&self.elements[n - 1].name, ATOM_NS) && qname_local_is(
                        &self.elements[n - 1].name,
                        "content",
                    ) {
                        self.description = data;
                    } else if qname_has_ns(&self.elements[n - 1].name, ATOM_NS) && qname_local_is(
                        &self.elements[n - 1].name,
                        "published",
                    ) {
                        self.pub_date = Some(data);
                    } else if qname_has_ns(&self.elements[n - 1].name, ATOM_NS) && qname_local_is(
                        &self.elements[n - 1].name,
                        "updated",
                    ) {
                        if self.pub_date.is_none() {
                            self.pub_date = Some(data);
                        }
                    }
                }
            },
            Dialect::RssV10 => {
                if n < 2 {
                    return ;
                }
                if !(qname_local_ieq(&self.elements[n - 2].name, "item") && qname_has_ns(
                    &self.elements[n - 2].name,
                    RDF_NS,
                )) {
                    return ;
                }
                if qname_has_ns(&self.elements[n - 1].name, RDF_NS) && qname_local_is(
                    &self.elements[n - 1].name,
                    "title",
                ) {
                    self.title = data;
                } else if qname_has_ns(&self.elements[n - 1].name, RDF_NS) && qname_local_is(
                    &self.elements[n - 1].name,
                    "link",
                ) {
                    self.link = data;
                } else if qname_has_ns(&self.elements[n - 1].name, RDF_NS) && qname_local_is(
                    &self.elements[n - 1].name,
                    "description",
                ) {
                    self.description = data;
                } else if qname_has_ns(&self.elements[n - 1].name, CONTENT_NS) && qname_local_is(
                    &self.elements[n - 1].name,
                    "encoded",
                ) {
                    if self.description.as_str().is_empty() {
                        self.description = data;
                    }
                } else if qname_has_ns(&self.elements[n - 1].name, ELEMENTS_NS) && qname_local_is(
                    &self.elements[n - 1].name,
                    "date",
                ) {
                    self.pub_date = Some(data);
                }
            },
        }
    }

    /// On an item's end tag, emits the accumulated entry and resets the
    /// accumulator; pops the frame either way.
    pub fn parse_end_element(&mut self, name: QName)
        ensures
            final(self).dialect == old(self).dialect,
            final(self).model() == step_end(old(self).dialect, old(self).model(), name),
    {
        let ghost m0 = self.model();
        let emit = match self.dialect {
            Dialect::RssV20 => qname_is_plain(&name, "item"),
            Dialect::Atom => qname_has_ns(&name, ATOM_NS) && qname_local_is(&name, "entry"),
            Dialect::RssV10 => qname_local_ieq(&name, "item") && qname_has_ns(&name, RDF_NS),
        };
        if emit {
            let rss = Rss::new(
                self.title.clone(),
                self.description.clone(),
                self.link.clone(),
                self.pub_date.clone(),
            );
            proof {
                lemma_entries_push(self.results@, rss);
            }
            self.results.push(rss);
            self.title = String::new();
            self.link = String::new();
            self.description = String::new();
            self.pub_date = None;
        }
        if self.elements.len() > 0 {
            proof {
                lemma_stack_drop(self.elements@);
            }
            self.elements.pop();
        }
        proof {
            assert(self.model() =~= step_end(old(self).dialect, m0, name));
        }
    }

    /// The dialect's verdict on the element on top of the stack, run once
    /// on the document's root.
    pub fn verify_rss(&self) -> (r: Option<String>)
        requires
            self.elements@.len() > 0,
        ensures
            ({
                let top = self.model().stack.last();
                match r {
                    Some(e) => root_error(self.dialect, top.name, top.attrs) == Some(e@),
                    None => root_error(self.dialect, top.name, top.attrs) is None,
                }
            }),
    {
        let n = self.elements.len();
        proof {
            assert(self.model().stack[n - 1] == frame_view(self.elements@[n - 1]));
        }
        let f = &self.elements[n - 1];
        match self.dialect {
            Dialect::RssV20 => {
                if !qname_local_is(&f.name, "rss") {
                    return Some(
                        make_msg(self.dialect, "invalid root element: ", f.name.local_name.as_str()),
                    );
                }
                match find_plain_attr_exec(&f.attrs, "version") {
                    None => Some(make_msg(self.dialect, "undefined RSS version", "")),
                    Some(v) => {
                        if str_eq(v.as_str(), "2.0") {
                            None
                        } else {
                            Some(make_msg(self.dialect, "unsupported RSS version: ", v.as_str()))
                        }
                    },
                }
            },
            Dialect::Atom => {
                if !qname_local_is(&f.name, "feed") {
                    Some(make_msg(self.dialect, "invalid root element: ", f.name.local_name.as_str()))
                } else if !qname_has_ns(&f.name, ATOM_NS) {
                    let detail = match &f.name.namespace {
                        Some(u) => u.as_str(),
                        None => "none",
                    };
                    Some(make_msg(self.dialect, "invalid root namespace: ", detail))
                } else {
                    None
                }
            },
            Dialect::RssV10 => {
                if !qname_local_ieq(&f.name, "rdf") {
                    Some(make_msg(self.dialect, "invalid root element: ", f.name.local_name.as_str()))
                } else if !qname_has_ns(&f.name, RDF_SYNTAX_NS) {
                    let detail = match &f.name.namespace {
                        Some(u) => u.as_str(),
                        None => "none",
                    };
                    Some(make_msg(self.dialect, "invalid root namespace: ", detail))
                } else {
                    None
                }
            },
        }
    }
}

/// Walks one dialect over the scanned events: the exec counterpart of
/// `walk`.
pub fn parse(events: &Vec<XmlNode>, scan_err: &Option<String>, dialect: Dialect) -> (r: Result<
    Vec<Rss>,
    InvalidRssError,
>)
    ensures
        ({
            let w = walk(dialect, events@, scan_err.deep_view());
            match r {
                Ok(v) => w == Ok::<Seq<RssView>, Seq<char>>(entries_view(v@)),
                Err(e) => w == Err::<Seq<RssView>, Seq<char>>(e@),
            }
        }),
{
    let ghost errv = scan_err.deep_view();
    let mut p = Parser::new(dialect);
    let mut root = true;
    let mut i: usize = 0;
    proof {
        assert(events@.skip(0) =~= events@);
    }
    while i < events.len()
        invariant
            i <= events@.len(),
            p.dialect == dialect,
            errv == scan_err.deep_view(),
            walk_from(dialect, p.model(), !root, events@.skip(i as int), errv) == walk(
                dialect,
                events@,
                errv,
            ),
        decreases events@.len() - i,
    {
        proof {
            assert(events@.skip(i as int)[0] == events@[i as int]);
            assert(events@.skip(i as int).drop_first() =~= events@.skip(i + 1));
        }
        match &events[i] {
            XmlNode::StartDocument { encoding } => {
                if !str_ieq(encoding.as_str(), "UTF-8") {
                    return Err(
                        InvalidRssError {
                            message: make_msg(dialect, "unsupported encoding: ", encoding.as_str()),
                        },
                    );
                }
            },
            XmlNode::StartElement { name, attributes } => {
                p.parse_start_element(name.clone(), clone_attrs(attributes));
                if root {
                    proof {
                        assert(p.model().stack.len() > 0);
                    }
                    match p.verify_rss() {
                        Some(msg) => {
                            return Err(InvalidRssError { message: msg });
                        },
                        None => {},
                    }
                    root = false;
                }
            },
            XmlNode::Text { data } => {
                p.parse_content(data.clone());
            },
            XmlNode::EndElement { name } => {
                p.parse_end_element(name.clone());
            },
            XmlNode::Other => {},
        }
        i += 1;
    }
    proof {
        assert(events@.skip(events@.len() as int) =~= Seq::<XmlNode>::empty());
    }
    match scan_err {
        Some(e) => Err(InvalidRssError { message: e.clone() }),
        None => Ok(p.results),
    }
}

/// Parses a feed document: tries RSS 2.0, then Atom, then RSS 1.0, and
/// returns the first dialect's entries or all three failures together.
pub fn parse_rss(buf: &[u8]) -> (r: Result<Vec<Rss>, Error>)
    ensures
        ({
            let s = parse_feed_spec(buf@);
            match r {
                Ok(v) => s == Ok::<Seq<RssView>, Seq<Seq<char>>>(entries_view(v@)),
                Err(e) => s == Err::<Seq<RssView>, Seq<Seq<char>>>(e@),
            }
        }),
{
    let (events, scan_err) = scan_xml(buf);
    proof {
        assert(scan_err.deep_view() == xml_scan_of(buf@).1);
    }
    let e1 = match parse(&events, &scan_err, Dialect::RssV20) {
        Ok(v) => {
            return Ok(v);
        },
        Err(e) => e,
    };
    let e2 = match parse(&events, &scan_err, Dialect::Atom) {
        Ok(v) => {
            return Ok(v);
        },
        Err(e) => e,
    };
    let e3 = match parse(&events, &scan_err, Dialect::RssV10) {
        Ok(v) => {
            return Ok(v);
        },
        Err(e) => e,
    };
    let ghost g1 = e1@;
    let ghost g2 = e2@;
    let ghost g3 = e3@;
    let messages = vec![e1.message, e2.message, e3.message];
    let err = Error { messages };
    proof {
        assert(err@ =~= seq![g1, g2, g3]);
    }
    Err(err)
}

/// How many end tags in the events close an item of dialect `d`.
pub open spec fn entry_close_count(d: Dialect, events: Seq<XmlNode>) -> int
    decreases events.len(),
{
    if events.len() == 0 {
        0
    } else {
        (if events[0] matches XmlNode::EndElement { name } && is_item_end(d, name) {
            1int
        } else {
            0int
        }) + entry_close_count(d, events.drop_first())
    }
}

proof fn lemma_step_text_keeps_results(d: Dialect, m: ParserModel, data: Seq<char>)
    ensures
        step_text(d, m, data).results == m.results,
{
    match d {
        Dialect::RssV20 => assert(step_text(d, m, data) == step_text_v2(m, data)),
        Dialect::Atom => assert(step_text(d, m, data) == step_text_atom(m, data)),
        Dialect::RssV10 => assert(step_text(d, m, data) == step_text_v1(m, data)),
    }
}

proof fn lemma_count_from(
    d: Dialect,
    m: ParserModel,
    root_seen: bool,
    events: Seq<XmlNode>,
    scan_err: Option<Seq<char>>,
)
    ensures
        walk_from(d, m, root_seen, events, scan_err) matches Ok(es) ==> es.len() == m.results.len()
            + entry_close_count(d, events) && m.results.is_prefix_of(es),
    decreases events.len(),
{
    if events.len() > 0 {
        let rest = events.drop_first();
        match events[0] {
            XmlNode::StartDocument { .. } => {
                lemma_count_from(d, m, root_seen, rest, scan_err);
            },
            XmlNode::StartElement { name, attributes } => {
                let m1 = step_start(d, m, name, attributes@);
                assert(m1.results == m.results);
                lemma_count_from(d, m1, true, rest, scan_err);
            },
            XmlNode::Text { data } => {
                let m1 = step_text(d, m, data@);
                lemma_step_text_keeps_results(d, m, data@);
                lemma_count_from(d, m1, root_seen, rest, scan_err);
            },
            XmlNode::EndElement { name } => {
                let m1 = step_end(d, m, name);
                if is_item_end(d, name) {
                    assert(m1.results.len() == m.results.len() + 1);
                    assert(m.results.is_prefix_of(m1.results));
                } else {
                    assert(m1.results == m.results);
                }
                lemma_count_from(d, m1, root_seen, rest, scan_err);
                match walk_from(d, m1, root_seen, rest, scan_err) {
                    Ok(es) => {
                        assert(m1.results.is_prefix_of(es));
                        assert forall|t: int| 0 <= t < m.results.len() implies #[trigger] m
                            .results[t] == es[t] by {
                            assert(m.results[t] == m1.results[t]);
                            assert(m1.results[t] == es.subrange(0, m1.results.len() as int)[t]);
                        }
                        assert(m.results =~= es.subrange(0, m.results.len() as int));
                    },
                    Err(_) => {},
                }
            },
            XmlNode::Other => {
                lemma_count_from(d, m, root_seen, rest, scan_err);
            },
        }
    }
}

/// An accepted walk yields exactly one entry per closed item of its
/// dialect (the plain `item` tag for RSS 2.0): one entry is appended at
/// each close and none is ever removed or reordered, so the entries
/// stand in document order.
pub proof fn lemma_entry_count(d: Dialect, events: Seq<XmlNode>, scan_err: Option<Seq<char>>)
    ensures
        walk(d, events, scan_err) matches Ok(es) ==> es.len() == entry_close_count(d, events),
{
    lemma_count_from(d, init_model(), false, events, scan_err);
}

/// First writer wins for the description: text inside `content:encoded`
/// fills the field only while it is still empty, in RSS 2.0 and RSS 1.0
/// alike.
pub proof fn lemma_content_encoded_fallback(d: Dialect, m: ParserModel, data: Seq<char>)
    requires
        !(d is Atom),
        m.stack.len() >= 2,
        d is RssV20 ==> is_plain_name(m.stack[m.stack.len() - 2].name, "item"@),
        d is RssV10 ==> is_rdf_item(m.stack[m.stack.len() - 2].name),
        has_ns(m.stack[m.stack.len() - 1].name, CONTENT_NS@),
        m.stack[m.stack.len() - 1].name.local_name@ == "encoded"@,
    ensures
        m.description.len() > 0 ==> step_text(d, m, data) == m,
        m.description.len() == 0 ==> step_text(d, m, data).description == data,
{
    reveal_strlit("encoded");
    reveal_strlit("title");
    reveal_strlit("link");
    reveal_strlit("description");
    reveal_strlit("date");
    assert("encoded"@.len() == 7);
    assert("title"@.len() == 5);
    assert("link"@.len() == 4);
    assert("description"@.len() == 11);
    assert("date"@.len() == 4);
    assert("encoded"@ != "title"@);
    assert("encoded"@ != "link"@);
    assert("encoded"@ != "description"@);
    assert("encoded"@ != "date"@);
    match d {
        Dialect::RssV20 => {
            assert(step_text(d, m, data) == step_text_v2(m, data));
        },
        Dialect::RssV10 => {
            assert(step_text(d, m, data) == step_text_v1(m, data));
        },
        Dialect::Atom => {
            assert(false);
        },
    }
}

/// A plain `description` element always overwrites the field, even after
/// `content:encoded` filled it: source order decides, first writer wins
/// only between the two description sources.
pub proof fn lemma_description_overwrites(d: Dialect, m: ParserModel, data: Seq<char>)
    requires
        !(d is Atom),
        m.stack.len() >= 2,
        d is RssV20 ==> is_plain_name(m.stack[m.stack.len() - 2].name, "item"@),
        d is RssV10 ==> is_rdf_item(m.stack[m.stack.len() - 2].name) && has_ns(
            m.stack[m.stack.len() - 1].name,
            RDF_NS@,
        ),
        m.stack[m.stack.len() - 1].name.local_name@ == "description"@,
    ensures
        step_text(d, m, data).description == data,
{
    reveal_strlit("description");
    reveal_strlit("title");
    reveal_strlit("link");
    assert("description"@.len() == 11);
    assert("title"@.len() == 5);
    assert("link"@.len() == 4);
    assert("description"@ != "title"@);
    assert("description"@ != "link"@);
    match d {
        Dialect::RssV20 => {
            assert(step_text(d, m, data) == step_text_v2(m, data));
        },
        Dialect::RssV10 => {
            assert(step_text(d, m, data) == step_text_v1(m, data));
        },
        Dialect::Atom => {
            assert(false);
        },
    }
}

/// Inside an RSS 2.0 item, the text of a `link` or `pubDate` element is
/// stored verbatim, and the emitted entry hands both fields on untouched:
/// only the title and the description are sanitized.
pub proof fn lemma_v2_link_date_verbatim(m: ParserModel, data: Seq<char>)
    requires
        m.stack.len() >= 2,
        is_plain_name(m.stack[m.stack.len() - 2].name, "item"@),
    ensures
        m.stack[m.stack.len() - 1].name.local_name@ == "link"@ ==> step_text_v2(m, data).link
            == data,
        m.stack[m.stack.len() - 1].name.local_name@ == "pubDate"@ ==> step_text_v2(
            m,
            data,
        ).pub_date == Some(data),
        entry_of(m.title, m.description, m.link, m.pub_date).link == m.link,
        entry_of(m.title, m.description, m.link, m.pub_date).pub_date == m.pub_date,
{
    reveal_strlit("title");
    reveal_strlit("link");
    reveal_strlit("description");
    reveal_strlit("encoded");
    reveal_strlit("pubDate");
    assert("link"@.len() == 4);
    assert("title"@.len() == 5);
    assert("description"@.len() == 11);
    assert("pubDate"@.len() == 7);
    assert("encoded"@.len() == 7);
    assert("pubDate"@[0] == 'p' && "encoded"@[0] == 'e');
    assert("pubDate"@ != "encoded"@);
}

/// The Atom link convention: an `atom:link` without a `rel`, or with a
/// `rel` that is neither `self` nor `alternate`, hands its `href` to the
/// entry; a `self` or `alternate` link changes nothing.
pub proof fn lemma_atom_link_rel(m: ParserModel, name: QName, attrs: Seq<Attribute>)
    requires
        is_atom_name(name, "link"@),
    ensures
        (find_plain_attr(attrs, "rel"@) is None && find_plain_attr(attrs, "href"@) is Some)
            ==> step_start(Dialect::Atom, m, name, attrs).link == find_plain_attr(
            attrs,
            "href"@,
        ).unwrap(),
        (find_plain_attr(attrs, "rel"@) is Some && (find_plain_attr(attrs, "rel"@).unwrap()
            == "self"@ || find_plain_attr(attrs, "rel"@).unwrap() == "alternate"@)) ==> step_start(
            Dialect::Atom,
            m,
            name,
            attrs,
        ).link == m.link,
        (find_plain_attr(attrs, "rel"@) is Some && find_plain_attr(attrs, "rel"@).unwrap()
            != "self"@ && find_plain_attr(attrs, "rel"@).unwrap() != "alternate"@
            && find_plain_attr(attrs, "href"@) is Some) ==> step_start(
            Dialect::Atom,
            m,
            name,
            attrs,
        ).link == find_plain_attr(attrs, "href"@).unwrap(),
{
}

/// A tag at the head of a message: `[` then the dialect's name then `] `.
pub open spec fn dialect_tag(d: Dialect) -> Seq<char> {
    "["@ + dialect_name(d) + "] "@
}

pub open spec fn starts_with(s: Seq<char>, t: Seq<char>) -> bool {
    s.len() >= t.len() && s.take(t.len() as int) == t
}

proof fn lemma_dmsg_tagged(d: Dialect, body: Seq<char>, detail: Seq<char>)
    ensures
        starts_with(dmsg(d, body, detail), dialect_tag(d)),
{
    assert(dmsg(d, body, detail).take(dialect_tag(d).len() as int) =~= dialect_tag(d));
}

/// Every root-verification failure begins with its dialect's tag.
pub proof fn lemma_root_error_tagged(d: Dialect, name: QName, attrs: Seq<Attribute>)
    requires
        root_error(d, name, attrs) is Some,
    ensures
        starts_with(root_error(d, name, attrs).unwrap(), dialect_tag(d)),
{
    match d {
        Dialect::RssV20 => {
            if name.local_name@ != "rss"@ {
                lemma_dmsg_tagged(d, "invalid root element: "@, name.local_name@);
            } else {
                match find_plain_attr(attrs, "version"@) {
                    None => lemma_dmsg_tagged(d, "undefined RSS version"@, ""@),
                    Some(v) => {
                        if v != "2.0"@ {
                            lemma_dmsg_tagged(d, "unsupported RSS version: "@, v);
                        }
                    },
                }
            }
        },
        Dialect::Atom => {
            if name.local_name@ != "feed"@ {
                lemma_dmsg_tagged(d, "invalid root element: "@, name.local_name@);
            } else {
                lemma_dmsg_tagged(d, "invalid root namespace: "@, ns_detail(name.namespace));
            }
        },
        Dialect::RssV10 => {
            if !seq_ieq(name.local_name@, "rdf"@) {
                lemma_dmsg_tagged(d, "invalid root element: "@, name.local_name@);
            } else {
                lemma_dmsg_tagged(d, "invalid root namespace: "@, ns_detail(name.namespace));
            }
        },
    }
}

/// Messages tagged by the three dialects are pairwise distinct.
pub proof fn lemma_dialect_tags_distinguish(m1: Seq<char>, m2: Seq<char>, m3: Seq<char>)
    requires
        starts_with(m1, dialect_tag(Dialect::RssV20)),
        starts_with(m2, dialect_tag(Dialect::Atom)),
        starts_with(m3, dialect_tag(Dialect::RssV10)),
    ensures
        m1 != m2,
        m2 != m3,
        m1 != m3,
{
    reveal_strlit("[");
    reveal_strlit("] ");
    reveal_strlit("RSS V2");
    reveal_strlit("Atom");
    reveal_strlit("RSS V1");
    let t1 = dialect_tag(Dialect::RssV20);
    let t2 = dialect_tag(Dialect::Atom);
    let t3 = dialect_tag(Dialect::RssV10);
    assert(t1.len() == 9);
    assert(t2.len() == 7);
    assert(t3.len() == 9);
    assert(m1[1] == m1.take(9)[1]);
    assert(m2[1] == m2.take(7)[1]);
    assert(m3[1] == m3.take(9)[1]);
    assert(t1[1] == 'R');
    assert(t2[1] == 'A');
    assert(t3[1] == 'R');
    assert(m1[6] == m1.take(9)[6]);
    assert(m3[6] == m3.take(9)[6]);
    assert(t1[6] == '2');
    assert(t3[6] == '1');
    assert(m1 != m2);
    assert(m2 != m3);
    assert(m1 != m3);
}

proof fn lemma_walk_stops_at_bad_root(
    d: Dialect,
    m: ParserModel,
    events: Seq<XmlNode>,
    scan_err: Option<Seq<char>>,
    j: int,
    k: int,
    name: QName,
    attributes: Vec<Attribute>,
)
    requires
        0 <= j <= k < events.len(),
        events[k] == (XmlNode::StartElement { name, attributes }),
        forall|t: int| j <= t < k ==> !((#[trigger] events[t]) is StartElement),
        forall|t: int|
            j <= t < k ==> ((#[trigger] events[t]) matches XmlNode::StartDocument { encoding }
                ==> encoding_ok(encoding@)),
        root_error(d, name, attributes@) is Some,
    ensures
        walk_from(d, m, false, events.skip(j), scan_err) == Err::<Seq<RssView>, Seq<char>>(
            root_error(d, name, attributes@).unwrap(),
        ),
    decreases k - j,
{
    assert(events.skip(j)[0] == events[j]);
    assert(events.skip(j).drop_first() =~= events.skip(j + 1));
    if j == k {
    } else {
        match events[j] {
            XmlNode::StartDocument { encoding } => {
                lemma_walk_stops_at_bad_root(d, m, events, scan_err, j + 1, k, name, attributes);
            },
            XmlNode::Text { data } => {
                lemma_walk_stops_at_bad_root(
                    d,
                    step_text(d, m, data@),
                    events,
                    scan_err,
                    j + 1,
                    k,
                    name,
                    attributes,
                );
            },
            XmlNode::EndElement { name: n2 } => {
                lemma_walk_stops_at_bad_root(
                    d,
                    step_end(d, m, n2),
                    events,
                    scan_err,
                    j + 1,
                    k,
                    name,
                    attributes,
                );
            },
            XmlNode::Other => {
                lemma_walk_stops_at_bad_root(d, m, events, scan_err, j + 1, k, name, attributes);
            },
            XmlNode::StartElement { .. } => {
                assert(false);
            },
        }
    }
}

/// A document whose root element no dialect accepts fails them all, and
/// the aggregate holds exactly the three root complaints, in dispatch
/// order, each bearing its own dialect's tag, pairwise distinct.
pub proof fn lemma_malformed_root_aggregates(
    events: Seq<XmlNode>,
    scan_err: Option<Seq<char>>,
    k: int,
    name: QName,
    attributes: Vec<Attribute>,
)
    requires
        0 <= k < events.len(),
        events[k] == (XmlNode::StartElement { name, attributes }),
        forall|t: int| 0 <= t < k ==> !((#[trigger] events[t]) is StartElement),
        forall|t: int|
            0 <= t < k ==> ((#[trigger] events[t]) matches XmlNode::StartDocument { encoding }
                ==> encoding_ok(encoding@)),
        root_error(Dialect::RssV20, name, attributes@) is Some,
        root_error(Dialect::Atom, name, attributes@) is Some,
        root_error(Dialect::RssV10, name, attributes@) is Some,
    ensures
        ({
            let e1 = root_error(Dialect::RssV20, name, attributes@).unwrap();
            let e2 = root_error(Dialect::Atom, name, attributes@).unwrap();
            let e3 = root_error(Dialect::RssV10, name, attributes@).unwrap();
            dispatch(events, scan_err) == Err::<Seq<RssView>, Seq<Seq<char>>>(seq![e1, e2, e3])
                && starts_with(e1, dialect_tag(Dialect::RssV20)) && starts_with(
                e2,
                dialect_tag(Dialect::Atom),
            ) && starts_with(e3, dialect_tag(Dialect::RssV10)) && e1 != e2 && e2 != e3 && e1 != e3
        }),
{
    assert(events.skip(0) =~= events);
    lemma_walk_stops_at_bad_root(
        Dialect::RssV20,
        init_model(),
        events,
        scan_err,
        0,
        k,
        name,
        attributes,
    );
    lemma_walk_stops_at_bad_root(
        Dialect::Atom,
        init_model(),
        events,
        scan_err,
        0,
        k,
        name,
        attributes,
    );
    lemma_walk_stops_at_bad_root(
        Dialect::RssV10,
        init_model(),
        events,
        scan_err,
        0,
        k,
        name,
        attributes,
    );
    let e1 = root_error(Dialect::RssV20, name, attributes@).unwrap();
    let e2 = root_error(Dialect::Atom, name, attributes@).unwrap();
    let e3 = root_error(Dialect::RssV10, name, attributes@).unwrap();
    lemma_root_error_tagged(Dialect::RssV20, name, attributes@);
    lemma_root_error_tagged(Dialect::Atom, name, attributes@);
    lemma_root_error_tagged(Dialect::RssV10, name, attributes@);
    lemma_dialect_tags_distinguish(e1, e2, e3);
}

/// Running the dispatcher twice over one buffer cannot disagree with
/// itself: nothing outside the argument bytes influences the outcome.
pub proof fn lemma_reparse_identical(
    bytes: Seq<u8>,
    r1: Result<Seq<RssView>, Seq<Seq<char>>>,
    r2: Result<Seq<RssView>, Seq<Seq<char>>>,
)
    requires
        r1 == parse_feed_spec(bytes),
        r2 == parse_feed_spec(bytes),
    ensures
        r1 == r2,
{
}

} // verus!
