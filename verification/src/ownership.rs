//! Company leadership from ownership filings (Forms 3, 4 and 5).
//!
//! Every director and Section-16 officer files on becoming an insider and on
//! each trade; each document names its reporting people and their roles.
use vstd::prelude::*;

use crate::facts::text_view;
use crate::nport::{parent_path, path_view};
use crate::text::{same, strip_suffixes, trim, trimmed, without_suffixes};
use crate::xml::{
    document_events, is_tag, next_event, open_document, pending_events, tag_is, whole_stream,
    XmlEvent, XmlItem,
};

verus! {

/// Form 3, 4 or 5, or an amendment of one.
pub open spec fn ownership_form(form: Seq<char>) -> bool {
    let base = without_suffixes(form, "/A"@);
    base == "3"@ || base == "4"@ || base == "5"@
}

/// Whether `form` is an ownership form: Form 3, 4 or 5, or an amendment.
pub fn is_ownership_form(form: &str) -> (r: bool)
    ensures
        r == ownership_form(form@),
{
    let base = strip_suffixes(form, "/A");
    same(base.as_str(), "3") || same(base.as_str(), "4") || same(base.as_str(), "5")
}

/// The texts that ownership documents write for "yes".
pub open spec fn flag_set(txt: Seq<char>) -> bool {
    let t = trimmed(txt);
    t == "1"@ || t == "true"@ || t == "TRUE"@ || t == "Y"@
}

/// Reads an ownership-XML boolean: `1`/`0`, very occasionally `true`.
pub fn ownership_flag(txt: &str) -> (r: bool)
    ensures
        r == flag_set(txt@),
{
    let t = trim(txt);
    same(t.as_str(), "1") || same(t.as_str(), "true") || same(t.as_str(), "TRUE") || same(
        t.as_str(),
        "Y",
    )
}

/// One reporting person as it is assembled inside a `<reportingOwner>` block.
pub struct OwnerAcc {
    pub name: String,
    pub is_director: bool,
    pub is_officer: bool,
    pub officer_title: String,
}

/// The meaning of an [`OwnerAcc`].
pub struct OwnerView {
    pub name: Seq<char>,
    pub is_director: bool,
    pub is_officer: bool,
    pub officer_title: Seq<char>,
}

/// One reporting person of an ownership filing.
pub struct OwnershipPerson {
    pub name: String,
    pub is_director: bool,
    pub is_officer: bool,
    pub officer_title: Option<String>,
}

/// The meaning of an [`OwnershipPerson`].
pub struct PersonView {
    pub name: Seq<char>,
    pub is_director: bool,
    pub is_officer: bool,
    pub officer_title: Option<Seq<char>>,
}

impl View for OwnerAcc {
    type V = OwnerView;

    open spec fn view(&self) -> OwnerView {
        OwnerView {
            name: self.name@,
            is_director: self.is_director,
            is_officer: self.is_officer,
            officer_title: self.officer_title@,
        }
    }
}

impl View for OwnershipPerson {
    type V = PersonView;

    open spec fn view(&self) -> PersonView {
        PersonView {
            name: self.name@,
            is_director: self.is_director,
            is_officer: self.is_officer,
            officer_title: text_view(self.officer_title),
        }
    }
}

pub open spec fn people_view(v: Seq<OwnershipPerson>) -> Seq<PersonView> {
    v.map_values(|p: OwnershipPerson| p@)
}

/// A document being walked.
pub struct OwnershipReader {
    path: Vec<Vec<u8>>,
    cur: Option<OwnerAcc>,
    people: Vec<OwnershipPerson>,
}

/// The meaning of an [`OwnershipReader`].
pub struct OwnershipState {
    pub path: Seq<Seq<u8>>,
    pub cur: Option<OwnerView>,
    pub people: Seq<PersonView>,
}

impl View for OwnershipReader {
    type V = OwnershipState;

    closed spec fn view(&self) -> OwnershipState {
        OwnershipState {
            path: path_view(self.path@),
            cur: match self.cur {
                Some(o) => Some(o@),
                None => None,
            },
            people: people_view(self.people@),
        }
    }
}

pub open spec fn empty_owner() -> OwnerView {
    OwnerView {
        name: Seq::empty(),
        is_director: false,
        is_officer: false,
        officer_title: Seq::empty(),
    }
}

/// A person after the text `txt` of an element `tag`. The first name and title
/// stay; a role once set stays set.
pub open spec fn with_owner_field(o: OwnerView, tag: Seq<u8>, txt: Seq<char>) -> OwnerView {
    if is_tag(tag, "rptOwnerName"@) && o.name.len() == 0 {
        OwnerView { name: txt, ..o }
    } else if is_tag(tag, "isDirector"@) {
        OwnerView { is_director: o.is_director || flag_set(txt), ..o }
    } else if is_tag(tag, "isOfficer"@) {
        OwnerView { is_officer: o.is_officer || flag_set(txt), ..o }
    } else if is_tag(tag, "officerTitle"@) && o.officer_title.len() == 0 {
        OwnerView { officer_title: txt, ..o }
    } else {
        o
    }
}

/// A finished person.
pub open spec fn person_of(o: OwnerView) -> PersonView {
    PersonView {
        name: o.name,
        is_director: o.is_director,
        is_officer: o.is_officer,
        officer_title: if o.officer_title.len() == 0 {
            None
        } else {
            Some(o.officer_title)
        },
    }
}

pub open spec fn ownership_start() -> OwnershipState {
    OwnershipState { path: Seq::empty(), cur: None, people: Seq::empty() }
}

/// The state after one event. A person without a name is dropped.
pub open spec fn ownership_step(s: OwnershipState, e: XmlItem) -> OwnershipState {
    match e {
        XmlItem::Open(t) => if t.empty {
            s
        } else {
            OwnershipState {
                path: s.path.push(t.name),
                cur: if is_tag(t.name, "reportingOwner"@) {
                    Some(empty_owner())
                } else {
                    s.cur
                },
                ..s
            }
        },
        XmlItem::Close(name) => {
            let path = parent_path(s.path);
            match s.cur {
                Some(o) if is_tag(name, "reportingOwner"@) => OwnershipState {
                    path,
                    cur: None,
                    people: if o.name.len() == 0 {
                        s.people
                    } else {
                        s.people.push(person_of(o))
                    },
                },
                _ => OwnershipState { path, ..s },
            }
        },
        XmlItem::Text(Some(raw)) => {
            let txt = trimmed(raw);
            match s.cur {
                Some(o) if s.path.len() > 0 && txt.len() > 0 => OwnershipState {
                    cur: Some(with_owner_field(o, s.path.last(), txt)),
                    ..s
                },
                _ => s,
            }
        },
        _ => s,
    }
}

/// The people of a stream of events, up to its end or its first failure.
pub open spec fn ownership_walk(s: OwnershipState, events: Seq<XmlItem>) -> Seq<PersonView>
    decreases events.len(),
{
    if events.len() == 0 {
        s.people
    } else {
        match events[0] {
            XmlItem::Eof | XmlItem::Failed => s.people,
            e => ownership_walk(ownership_step(s, e), events.drop_first()),
        }
    }
}

impl OwnerAcc {
    /// A person of whom nothing is known.
    pub fn new() -> (r: OwnerAcc)
        ensures
            r@ == empty_owner(),
    {
        OwnerAcc {
            name: String::new(),
            is_director: false,
            is_officer: false,
            officer_title: String::new(),
        }
    }

    /// Takes in the text of one field.
    pub fn capture(self, tag: &Vec<u8>, txt: &str) -> (r: OwnerAcc)
        ensures
            r@ == with_owner_field(self@, tag@, txt@),
    {
        let mut o = self;
        if tag_is(tag, "rptOwnerName") && o.name.as_str().is_empty() {
            o.name = txt.to_owned();
        } else if tag_is(tag, "isDirector") {
            o.is_director = o.is_director || ownership_flag(txt);
        } else if tag_is(tag, "isOfficer") {
            o.is_officer = o.is_officer || ownership_flag(txt);
        } else if tag_is(tag, "officerTitle") && o.officer_title.as_str().is_empty() {
            o.officer_title = txt.to_owned();
        }
        o
    }

    /// The finished person.
    pub fn into_person(self) -> (r: OwnershipPerson)
        ensures
            r@ == person_of(self@),
    {
        OwnershipPerson {
            name: self.name,
            is_director: self.is_director,
            is_officer: self.is_officer,
            officer_title: if self.officer_title.as_str().is_empty() {
                None
            } else {
                Some(self.officer_title)
            },
        }
    }
}

impl OwnershipReader {
    /// A reader at the start of a document.
    pub fn new() -> (r: OwnershipReader)
        ensures
            r@ == ownership_start(),
    {
        let r = OwnershipReader { path: Vec::new(), cur: None, people: Vec::new() };
        assert(path_view(r.path@) =~= Seq::<Seq<u8>>::empty());
        assert(people_view(r.people@) =~= Seq::<PersonView>::empty());
        r
    }

    /// Takes in one event.
    pub fn step(&mut self, event: XmlEvent)
        ensures
            final(self)@ == ownership_step(old(self)@, event@),
    {
        let ghost before = self@;
        match event {
            XmlEvent::Open(t) => {
                if !t.empty {
                    if tag_is(&t.name, "reportingOwner") {
                        self.cur = Some(OwnerAcc::new());
                    }
                    self.path.push(t.name);
                    assert(path_view(self.path@) =~= before.path.push(t.name@));
                }
            },
            XmlEvent::Close(name) => {
                if tag_is(&name, "reportingOwner") {
                    match self.cur.take() {
                        Some(o) => {
                            if !o.name.as_str().is_empty() {
                                self.people.push(o.into_person());
                                assert(people_view(self.people@) =~= before.people.push(
                                    person_of(before.cur->0),
                                ));
                            }
                        },
                        None => {},
                    }
                }
                let _ = self.path.pop();
                assert(path_view(self.path@) =~= parent_path(before.path));
            },
            XmlEvent::Text(Some(raw)) => {
                let txt = trim(raw.as_str());
                let depth: usize = self.path.len();
                if depth > 0 && !txt.as_str().is_empty() {
                    match self.cur.take() {
                        Some(o) => {
                            self.cur = Some(o.capture(&self.path[depth - 1], txt.as_str()));
                        },
                        None => {},
                    }
                }
            },
            _ => {},
        }
    }

    /// The people read so far.
    pub fn finish(self) -> (r: Vec<OwnershipPerson>)
        ensures
            people_view(r@) == self@.people,
    {
        self.people
    }
}

/// Parses an ownership document into its reporting people. A malformed document
/// yields what was read before the error.
pub fn parse_ownership(xml: &[u8]) -> (r: Vec<OwnershipPerson>)
    ensures
        people_view(r@) == ownership_walk(ownership_start(), document_events(xml@)),
        whole_stream(document_events(xml@)),
{
    let mut reader = open_document(xml);
    let mut walk = OwnershipReader::new();
    loop
        invariant
            whole_stream(document_events(xml@)),
            whole_stream(pending_events(reader)),
            ownership_walk(walk@, pending_events(reader)) == ownership_walk(
                ownership_start(),
                document_events(xml@),
            ),
        decreases pending_events(reader).len(),
    {
        let ghost pending = pending_events(reader);
        match next_event(&mut reader) {
            Err(_) | Ok(XmlEvent::Eof) => {
                return walk.finish();
            },
            Ok(event) => {
                walk.step(event);
                proof {
                    crate::xml::lemma_rest_of_stream(pending);
                }
            },
        }
    }
}

proof fn lemma_people_have_names(s: OwnershipState, events: Seq<XmlItem>, i: int)
    requires
        0 <= i < ownership_walk(s, events).len(),
        forall|j: int|
            0 <= j < s.people.len() ==> (#[trigger] s.people[j]).name.len() > 0 && (
            s.people[j].officer_title matches Some(t) ==> t.len() > 0),
    ensures
        ownership_walk(s, events)[i].name.len() > 0,
        ownership_walk(s, events)[i].officer_title matches Some(t) ==> t.len() > 0,
    decreases events.len(),
{
    if events.len() > 0 && !(events[0] is Eof) && !(events[0] is Failed) {
        lemma_people_have_names(ownership_step(s, events[0]), events.drop_first(), i);
    }
}

/// Every person that is read has a name, and a title only where it says
/// something.
pub proof fn law_people_have_names(events: Seq<XmlItem>, i: int)
    requires
        0 <= i < ownership_walk(ownership_start(), events).len(),
    ensures
        ownership_walk(ownership_start(), events)[i].name.len() > 0,
        ownership_walk(ownership_start(), events)[i].officer_title matches Some(t) ==> t.len() > 0,
{
    lemma_people_have_names(ownership_start(), events, i);
}

/// What was read stays: an error later in a document takes nothing back.
pub proof fn law_people_are_kept(s: OwnershipState, events: Seq<XmlItem>)
    ensures
        s.people.len() <= ownership_walk(s, events).len(),
        ownership_walk(s, events).take(s.people.len() as int) == s.people,
    decreases events.len(),
{
    if events.len() > 0 && !(events[0] is Eof) && !(events[0] is Failed) {
        let next = ownership_step(s, events[0]);
        law_people_are_kept(next, events.drop_first());
        let out = ownership_walk(s, events);
        assert(next.people.take(s.people.len() as int) =~= s.people);
        assert(out.take(s.people.len() as int) =~= out.take(next.people.len() as int).take(
            s.people.len() as int,
        ));
    } else {
        assert(s.people.take(s.people.len() as int) =~= s.people);
    }
}

} // verus!
