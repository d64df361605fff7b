//! XML documents as streams of events, read with `quick_xml`.
//!
//! The reader itself is the outside crate's. What this module adds is a plain
//! event type and the meaning of a read: a document stands for one sequence of
//! events, and each read takes the first of those that are left.
use quick_xml::events::Event;
use vstd::prelude::*;
use vstd::utf8::{decode_utf8, encode_utf8, valid_utf8};

verus! {

/// `quick_xml::Reader`, the pull parser over a byte source.
#[verifier::external_type_specification]
#[verifier::external_body]
#[verifier::reject_recursive_types(R)]
pub struct ExReader<R>(quick_xml::Reader<R>);

/// `quick_xml::Error`, what a read of a malformed document gives.
#[verifier::external_type_specification]
#[verifier::external_body]
pub struct ExError(quick_xml::Error);

/// An opening tag: its local name, its attributes in document order as
/// undecoded `(key, value)` pairs (a malformed attribute is `None`), and whether
/// it closes itself, as `<tag/>` does.
pub struct Tag {
    pub name: Vec<u8>,
    pub attributes: Vec<Option<(Vec<u8>, Vec<u8>)>>,
    pub empty: bool,
}

/// One event of a document.
pub enum XmlEvent {
    /// `<tag>` or `<tag/>`
    Open(Tag),
    /// `</tag>`, by its local name.
    Close(Vec<u8>),
    /// Character data with its entities resolved; `None` where that fails.
    Text(Option<String>),
    /// The end of the document.
    Eof,
    /// A comment, declaration, CDATA section or processing instruction.
    Other,
}

/// The meaning of a [`Tag`].
pub struct TagItem {
    pub name: Seq<u8>,
    pub attributes: Seq<Option<(Seq<u8>, Seq<u8>)>>,
    pub empty: bool,
}

/// The meaning of one read: an [`XmlEvent`], or a failure to read one.
pub enum XmlItem {
    Open(TagItem),
    Close(Seq<u8>),
    Text(Option<Seq<char>>),
    Eof,
    Other,
    Failed,
}

pub open spec fn attribute_view(a: Option<(Vec<u8>, Vec<u8>)>) -> Option<(Seq<u8>, Seq<u8>)> {
    match a {
        Some((key, value)) => Some((key@, value@)),
        None => None,
    }
}

impl View for Tag {
    type V = TagItem;

    open spec fn view(&self) -> TagItem {
        TagItem {
            name: self.name@,
            attributes: self.attributes@.map_values(
                |a: Option<(Vec<u8>, Vec<u8>)>| attribute_view(a),
            ),
            empty: self.empty,
        }
    }
}

impl View for XmlEvent {
    type V = XmlItem;

    open spec fn view(&self) -> XmlItem {
        match self {
            XmlEvent::Open(t) => XmlItem::Open(t@),
            XmlEvent::Close(name) => XmlItem::Close(name@),
            XmlEvent::Text(Some(s)) => XmlItem::Text(Some(s@)),
            XmlEvent::Text(None) => XmlItem::Text(None),
            XmlEvent::Eof => XmlItem::Eof,
            XmlEvent::Other => XmlItem::Other,
        }
    }
}

/// An event that no event of the document follows.
pub open spec fn ends_stream(e: XmlItem) -> bool {
    e is Eof || e is Failed
}

/// A whole stream: it runs up to its first end of file or failure.
pub open spec fn whole_stream(events: Seq<XmlItem>) -> bool {
    &&& events.len() > 0
    &&& forall|i: int|
        0 <= i < events.len() ==> (ends_stream(#[trigger] events[i]) <==> i == events.len() - 1)
}

/// What follows an event that ends no stream is a whole stream again.
pub proof fn lemma_rest_of_stream(events: Seq<XmlItem>)
    requires
        whole_stream(events),
        !ends_stream(events[0]),
    ensures
        whole_stream(events.drop_first()),
{
    let rest = events.drop_first();
    assert forall|i: int| 0 <= i < rest.len() implies (ends_stream(#[trigger] rest[i]) <==> i
        == rest.len() - 1) by {
        assert(rest[i] == events[i + 1]);
    }
}

/// The events that `quick_xml` reads from the document `doc`, up to the end of
/// file or the first error.
pub uninterp spec fn document_events(doc: Seq<u8>) -> Seq<XmlItem>;

/// The events that a reader gives from where it stands, up to the end of file or
/// the first error.
pub uninterp spec fn pending_events(reader: quick_xml::Reader<&[u8]>) -> Seq<XmlItem>;

/// `quick_xml::Reader::from_reader` on a byte slice, with its default settings:
/// nothing has been read yet. Every event but the end of file takes at least
/// one byte of the slice, so the events are finitely many and the last of them
/// is the end of file or an error.
#[verifier::external_body]
pub(crate) fn open_document<'a>(doc: &'a [u8]) -> (r: quick_xml::Reader<&'a [u8]>)
    ensures
        pending_events(r) == document_events(doc@),
        whole_stream(pending_events(r)),
{
    quick_xml::Reader::from_reader(doc)
}

/// `quick_xml::Reader::read_event`: gives the first pending event, and moves past
/// it where it is neither the end of file nor an error; of a reader that has given
/// one of these nothing is said. A tag is carried over by its `local_name` and its
/// `attributes`, character data by `unescape`.
#[verifier::external_body]
pub(crate) fn next_event(reader: &mut quick_xml::Reader<&[u8]>) -> (r: Result<
    XmlEvent,
    quick_xml::Error,
>)
    requires
        pending_events(*old(reader)).len() > 0,
    ensures
        pending_events(*old(reader))[0] == (match r {
            Ok(e) => e@,
            Err(_) => XmlItem::Failed,
        }),
        !ends_stream(pending_events(*old(reader))[0]) ==> pending_events(*final(reader))
            == pending_events(*old(reader)).drop_first(),
{
    let event = reader.read_event()?;
    let empty = matches!(event, Event::Empty(_));
    Ok(match event {
        Event::Start(e) | Event::Empty(e) => XmlEvent::Open(Tag {
            name: e.local_name().as_ref().to_vec(),
            attributes: e.attributes().map(|a| a.ok().map(|a| (a.key.0.to_vec(), a.value.to_vec()))).collect(),
            empty,
        }),
        Event::End(e) => XmlEvent::Close(e.local_name().as_ref().to_vec()),
        Event::Text(t) => XmlEvent::Text(t.unescape().ok().map(Into::into)),
        Event::Eof => XmlEvent::Eof,
        _ => XmlEvent::Other,
    })
}

/// `String::from_utf8`: the bytes read as UTF-8, `None` where they are not.
#[verifier::external_body]
pub(crate) fn utf8_text(bytes: Vec<u8>) -> (r: Option<String>)
    ensures
        r is Some == valid_utf8(bytes@),
        r matches Some(s) ==> s@ == decode_utf8(bytes@),
{
    String::from_utf8(bytes).ok()
}

/// `name` is the tag name `tag`.
pub open spec fn is_tag(name: Seq<u8>, tag: Seq<char>) -> bool {
    name == encode_utf8(tag)
}

/// Whether a tag name is `tag`.
pub fn tag_is(name: &Vec<u8>, tag: &str) -> (r: bool)
    ensures
        r == is_tag(name@, tag@),
{
    bytes_same(name.as_slice(), tag.as_bytes())
}

/// Whether two byte strings are equal.
pub fn bytes_same(a: &[u8], b: &[u8]) -> (r: bool)
    ensures
        r == (a@ == b@),
{
    if a.len() != b.len() {
        return false;
    }
    let mut i: usize = 0;
    while i < a.len()
        invariant
            i <= a@.len(),
            a@.len() == b@.len(),
            forall|j: int| 0 <= j < i ==> a@[j] == b@[j],
        decreases a.len() - i,
    {
        if a[i] != b[i] {
            return false;
        }
        i += 1;
    }
    assert(a@ =~= b@);
    true
}

/// The value of the first well-formed attribute with this key, where it is
/// UTF-8.
pub open spec fn attribute_text(
    attributes: Seq<Option<(Seq<u8>, Seq<u8>)>>,
    key: Seq<u8>,
) -> Option<Seq<char>>
    decreases attributes.len(),
{
    if attributes.len() == 0 {
        None
    } else {
        match attributes[0] {
            Some((k, value)) if k == key => if valid_utf8(value) {
                Some(decode_utf8(value))
            } else {
                None
            },
            _ => attribute_text(attributes.drop_first(), key),
        }
    }
}

/// Reads one attribute off an opening tag.
pub fn attr_val(tag: &Tag, key: &str) -> (r: Option<String>)
    ensures
        r is Some == attribute_text(tag@.attributes, encode_utf8(key@)) is Some,
        r matches Some(s) ==> s@ == attribute_text(tag@.attributes, encode_utf8(key@))->0,
{
    let wanted = key.as_bytes();
    let ghost all = tag@.attributes;
    let mut i: usize = 0;
    assert(all.skip(0) =~= all);
    while i < tag.attributes.len()
        invariant
            all == tag@.attributes,
            all.len() == tag.attributes@.len(),
            wanted@ == encode_utf8(key@),
            i <= all.len(),
            attribute_text(all, wanted@) == attribute_text(all.skip(i as int), wanted@),
        decreases tag.attributes.len() - i,
    {
        assert(all.skip(i as int).drop_first() =~= all.skip(i + 1));
        assert(all.skip(i as int)[0] == attribute_view(tag.attributes@[i as int]));
        match &tag.attributes[i] {
            Some((k, value)) => {
                if bytes_same(k.as_slice(), wanted) {
                    let copy = copy_bytes(value);
                    return utf8_text(copy);
                }
            },
            None => {},
        }
        i += 1;
    }
    None
}

/// A copy of a byte vector.
pub fn copy_bytes(v: &Vec<u8>) -> (r: Vec<u8>)
    ensures
        r@ == v@,
{
    let mut out: Vec<u8> = Vec::new();
    let mut i: usize = 0;
    while i < v.len()
        invariant
            i <= v@.len(),
            out@ == v@.take(i as int),
        decreases v.len() - i,
    {
        out.push(v[i]);
        assert(v@.take(i + 1) =~= v@.take(i as int).push(v@[i as int]));
        i += 1;
    }
    assert(v@.take(v@.len() as int) =~= v@);
    out
}

} // verus!
