//! EDGAR's browse feed: an Atom document with one entry per filing.
use vstd::prelude::*;

use crate::nport::{parent_path, path_view};
use crate::text::{trim, trimmed};
use crate::xml::{
    attr_val, attribute_text, document_events, is_tag, lemma_rest_of_stream, next_event,
    open_document, pending_events, tag_is, whole_stream, Tag, TagItem, XmlEvent, XmlItem,
};
use vstd::utf8::encode_utf8;

verus! {

/// One filing of a feed.
pub struct AtomEntry {
    pub form: String,
    pub accession: String,
    pub filed: String,
    /// EDGAR filing-index page URL.
    pub href: String,
}

/// The meaning of an [`AtomEntry`].
pub struct EntryItem {
    pub form: Seq<char>,
    pub accession: Seq<char>,
    pub filed: Seq<char>,
    pub href: Seq<char>,
}

impl View for AtomEntry {
    type V = EntryItem;

    open spec fn view(&self) -> EntryItem {
        EntryItem {
            form: self.form@,
            accession: self.accession@,
            filed: self.filed@,
            href: self.href@,
        }
    }
}

pub open spec fn entries_view(v: Seq<AtomEntry>) -> Seq<EntryItem> {
    v.map_values(|e: AtomEntry| e@)
}

pub open spec fn entry_view(e: Option<AtomEntry>) -> Option<EntryItem> {
    match e {
        Some(x) => Some(x@),
        None => None,
    }
}

pub open spec fn empty_entry() -> EntryItem {
    EntryItem {
        form: Seq::empty(),
        accession: Seq::empty(),
        filed: Seq::empty(),
        href: Seq::empty(),
    }
}

/// An entry after a `<category term="..">` tag: the term is its form, also over
/// a form that was read before.
pub open spec fn with_category(cur: Option<EntryItem>, tag: TagItem) -> Option<EntryItem> {
    match (cur, attribute_text(tag.attributes, encode_utf8("term"@))) {
        (Some(c), Some(term)) => Some(EntryItem { form: term, ..c }),
        _ => cur,
    }
}

/// An entry after the text `txt` of an element `tag`: the first text of each
/// field stays.
pub open spec fn with_entry_field(c: EntryItem, tag: Seq<u8>, txt: Seq<char>) -> EntryItem {
    if is_tag(tag, "accession-number"@) && c.accession.len() == 0 {
        EntryItem { accession: txt, ..c }
    } else if is_tag(tag, "filing-date"@) && c.filed.len() == 0 {
        EntryItem { filed: txt, ..c }
    } else if is_tag(tag, "filing-href"@) && c.href.len() == 0 {
        EntryItem { href: txt, ..c }
    } else if is_tag(tag, "filing-type"@) && c.form.len() == 0 {
        EntryItem { form: txt, ..c }
    } else {
        c
    }
}

/// Sets the current entry's form from a `<category term="..">` tag.
pub fn set_form_from_category(tag: &Tag, cur: &mut Option<AtomEntry>)
    ensures
        entry_view(*final(cur)) == with_category(entry_view(*old(cur)), tag@),
{
    match cur.take() {
        Some(mut c) => {
            match attr_val(tag, "term") {
                Some(term) => {
                    c.form = term;
                },
                None => {},
            }
            *cur = Some(c);
        },
        None => {},
    }
}

/// A feed being walked.
pub struct AtomReader {
    path: Vec<Vec<u8>>,
    cur: Option<AtomEntry>,
    entries: Vec<AtomEntry>,
}

/// The meaning of an [`AtomReader`]: the open elements, the entry that is being
/// read, and those that are complete.
pub struct AtomState {
    pub path: Seq<Seq<u8>>,
    pub cur: Option<EntryItem>,
    pub entries: Seq<EntryItem>,
}

impl View for AtomReader {
    type V = AtomState;

    closed spec fn view(&self) -> AtomState {
        AtomState {
            path: path_view(self.path@),
            cur: entry_view(self.cur),
            entries: entries_view(self.entries@),
        }
    }
}

pub open spec fn atom_start() -> AtomState {
    AtomState { path: Seq::empty(), cur: None, entries: Seq::empty() }
}

/// The state after one event. An entry without an accession number is dropped.
pub open spec fn atom_step(s: AtomState, e: XmlItem) -> AtomState {
    match e {
        XmlItem::Open(t) => {
            let entered = if !t.empty && is_tag(t.name, "entry"@) {
                Some(empty_entry())
            } else {
                s.cur
            };
            AtomState {
                path: if t.empty {
                    s.path
                } else {
                    s.path.push(t.name)
                },
                cur: if is_tag(t.name, "category"@) {
                    with_category(entered, t)
                } else {
                    entered
                },
                ..s
            }
        },
        XmlItem::Close(name) => {
            let path = parent_path(s.path);
            match s.cur {
                Some(c) if is_tag(name, "entry"@) => AtomState {
                    path,
                    cur: None,
                    entries: if c.accession.len() == 0 {
                        s.entries
                    } else {
                        s.entries.push(c)
                    },
                },
                _ => AtomState { path, ..s },
            }
        },
        XmlItem::Text(Some(raw)) => {
            let txt = trimmed(raw);
            match s.cur {
                Some(c) if s.path.len() > 0 && txt.len() > 0 => AtomState {
                    cur: Some(with_entry_field(c, s.path.last(), txt)),
                    ..s
                },
                _ => s,
            }
        },
        _ => s,
    }
}

/// The entries of a stream of events; `None` where it fails.
pub open spec fn atom_walk(s: AtomState, events: Seq<XmlItem>) -> Option<Seq<EntryItem>>
    decreases events.len(),
{
    if events.len() == 0 {
        None
    } else {
        match events[0] {
            XmlItem::Eof => Some(s.entries),
            XmlItem::Failed => None,
            e => atom_walk(atom_step(s, e), events.drop_first()),
        }
    }
}

impl AtomEntry {
    /// An entry of which nothing is known.
    pub fn new() -> (r: AtomEntry)
        ensures
            r@ == empty_entry(),
    {
        AtomEntry {
            form: String::new(),
            accession: String::new(),
            filed: String::new(),
            href: String::new(),
        }
    }

    /// Takes in the text of one field.
    pub fn capture(self, tag: &Vec<u8>, txt: &str) -> (r: AtomEntry)
        ensures
            r@ == with_entry_field(self@, tag@, txt@),
    {
        let mut c = self;
        if tag_is(tag, "accession-number") && c.accession.as_str().is_empty() {
            c.accession = txt.to_owned();
        } else if tag_is(tag, "filing-date") && c.filed.as_str().is_empty() {
            c.filed = txt.to_owned();
        } else if tag_is(tag, "filing-href") && c.href.as_str().is_empty() {
            c.href = txt.to_owned();
        } else if tag_is(tag, "filing-type") && c.form.as_str().is_empty() {
            c.form = txt.to_owned();
        }
        c
    }
}

impl AtomReader {
    /// A reader at the start of a feed.
    pub fn new() -> (r: AtomReader)
        ensures
            r@ == atom_start(),
    {
        let r = AtomReader { path: Vec::new(), cur: None, entries: Vec::new() };
        assert(path_view(r.path@) =~= Seq::<Seq<u8>>::empty());
        assert(entries_view(r.entries@) =~= Seq::<EntryItem>::empty());
        r
    }

    /// Takes in one event.
    pub fn step(&mut self, event: XmlEvent)
        ensures
            final(self)@ == atom_step(old(self)@, event@),
    {
        let ghost before = self@;
        match event {
            XmlEvent::Open(t) => {
                if !t.empty && tag_is(&t.name, "entry") {
                    self.cur = Some(AtomEntry::new());
                }
                if tag_is(&t.name, "category") {
                    set_form_from_category(&t, &mut self.cur);
                }
                if !t.empty {
                    self.path.push(t.name);
                    assert(path_view(self.path@) =~= before.path.push(t.name@));
                }
            },
            XmlEvent::Close(name) => {
                if tag_is(&name, "entry") {
                    match self.cur.take() {
                        Some(c) => {
                            if !c.accession.as_str().is_empty() {
                                self.entries.push(c);
                                assert(entries_view(self.entries@) =~= before.entries.push(
                                    before.cur->0,
                                ));
                            }
                        },
                        None => {},
                    }
                }
                let _ = self.path.pop();
                assert(path_view(self.path@) =~= parent_path(before.path));
            },
            XmlEvent::Text(Some(raw)) => {
                let txt = trim(raw.as_str());
                let depth: usize = self.path.len();
                if depth > 0 && !txt.as_str().is_empty() {
                    match self.cur.take() {
                        Some(c) => {
                            self.cur = Some(c.capture(&self.path[depth - 1], txt.as_str()));
                        },
                        None => {},
                    }
                }
            },
            _ => {},
        }
    }

    /// The entries read so far.
    pub fn finish(self) -> (r: Vec<AtomEntry>)
        ensures
            entries_view(r@) == self@.entries,
    {
        self.entries
    }
}

/// Parses a feed into its filing entries, in document order (the newest first).
pub fn parse_edgar_atom(xml: &[u8]) -> (r: Result<Vec<AtomEntry>, quick_xml::Error>)
    ensures
        (match r {
            Ok(entries) => Some(entries_view(entries@)),
            Err(_) => None,
        }) == atom_walk(atom_start(), document_events(xml@)),
        whole_stream(document_events(xml@)),
{
    let mut reader = open_document(xml);
    let mut walk = AtomReader::new();
    loop
        invariant
            whole_stream(document_events(xml@)),
            whole_stream(pending_events(reader)),
            atom_walk(walk@, pending_events(reader)) == atom_walk(
                atom_start(),
                document_events(xml@),
            ),
        decreases pending_events(reader).len(),
    {
        let ghost pending = pending_events(reader);
        match next_event(&mut reader) {
            Err(e) => {
                return Err(e);
            },
            Ok(XmlEvent::Eof) => {
                return Ok(walk.finish());
            },
            Ok(event) => {
                walk.step(event);
                proof {
                    lemma_rest_of_stream(pending);
                }
            },
        }
    }
}

proof fn lemma_entries_have_accessions(s: AtomState, events: Seq<XmlItem>, i: int)
    requires
        atom_walk(s, events) matches Some(out) && 0 <= i < out.len(),
        forall|j: int| 0 <= j < s.entries.len() ==> (#[trigger] s.entries[j]).accession.len() > 0,
    ensures
        (atom_walk(s, events)->0)[i].accession.len() > 0,
    decreases events.len(),
{
    if !(events[0] is Eof) {
        lemma_entries_have_accessions(atom_step(s, events[0]), events.drop_first(), i);
    }
}

/// Every entry that is read has an accession number.
pub proof fn law_entries_have_accessions(events: Seq<XmlItem>, i: int)
    requires
        atom_walk(atom_start(), events) matches Some(out) && 0 <= i < out.len(),
    ensures
        (atom_walk(atom_start(), events)->0)[i].accession.len() > 0,
{
    lemma_entries_have_accessions(atom_start(), events, i);
}

} // verus!
