//! What is read of an ownership document, said of the document's events.
use vstd::prelude::*;

use crate::ownership::{
    empty_owner, flag_set, ownership_form, ownership_start, ownership_step, ownership_walk, OwnerView,
    OwnershipState, PersonView,
};
use crate::streams::{
    closes, current_block, is_first, lemma_blocks_start, lemma_blocks_step, lemma_first_or_none,
    lemma_first_step, lemma_names_differ, lists_blocks, next_block, next_blocks, nonempty,
    open_elements, opens, texts_in,
};
use crate::text::{trimmed, without_suffixes};
use crate::text_laws::{law_begins_and_ends, law_strip_suffixes, law_trim_twice, repeated};
use crate::xml::{whole_stream, XmlItem};
use vstd::utf8::encode_utf8;

verus! {

/// A text that says yes.
pub open spec fn says_yes(t: Seq<char>) -> bool {
    t == "1"@ || t == "true"@ || t == "TRUE"@ || t == "Y"@
}

/// Some text directly inside an element of this name, from `lo` up to `hi`, says
/// yes.
pub open spec fn some_yes(events: Seq<XmlItem>, tag: Seq<char>, lo: int, hi: int) -> bool {
    exists|k: int|
        lo <= k < hi && ((#[trigger] texts_in(events, tag)(k)) matches Some(t) && says_yes(t))
}

/// The person that the events between `a` and `b` describe: their name and title
/// are the first texts of the elements that hold them, and they are a director or
/// an officer exactly where a text of that element says so.
pub open spec fn describes_person(events: Seq<XmlItem>, a: int, b: int, p: PersonView) -> bool {
    &&& is_first(texts_in(events, "rptOwnerName"@), a + 1, b, Some(p.name))
    &&& is_first(texts_in(events, "officerTitle"@), a + 1, b, p.officer_title)
    &&& p.is_director <==> some_yes(events, "isDirector"@, a + 1, b)
    &&& p.is_officer <==> some_yes(events, "isOfficer"@, a + 1, b)
}

/// The blocks in which somebody is named.
pub open spec fn named_blocks(events: Seq<XmlItem>) -> spec_fn((int, int)) -> bool {
    |at: (int, int)| !is_first(texts_in(events, "rptOwnerName"@), at.0 + 1, at.1, None)
}

/// `people` are those that the blocks describe, one each.
pub open spec fn people_of_blocks(
    events: Seq<XmlItem>,
    blocks: Seq<(int, int)>,
    people: Seq<PersonView>,
) -> bool {
    &&& blocks.len() == people.len()
    &&& forall|k: int|
        0 <= k < people.len() ==> describes_person(
            events,
            blocks[k].0,
            blocks[k].1,
            #[trigger] people[k],
        )
}

/// What is known of an open block's person.
spec fn owner_so_far(events: Seq<XmlItem>, a: int, n: int, o: OwnerView) -> bool {
    &&& is_first(texts_in(events, "rptOwnerName"@), a + 1, n, nonempty(o.name))
    &&& is_first(texts_in(events, "officerTitle"@), a + 1, n, nonempty(o.officer_title))
    &&& o.is_director <==> some_yes(events, "isDirector"@, a + 1, n)
    &&& o.is_officer <==> some_yes(events, "isOfficer"@, a + 1, n)
}

/// The state after the first `n` events.
spec fn state_after(events: Seq<XmlItem>, n: int) -> OwnershipState
    decreases n,
{
    if n <= 0 {
        ownership_start()
    } else {
        ownership_step(state_after(events, n - 1), events[n - 1])
    }
}

proof fn lemma_walk(events: Seq<XmlItem>, n: int)
    requires
        whole_stream(events),
        0 <= n < events.len(),
    ensures
        ownership_walk(ownership_start(), events) == ownership_walk(
            state_after(events, n),
            events.skip(n),
        ),
    decreases n,
{
    if n > 0 {
        lemma_walk(events, n - 1);
        assert(events.skip(n - 1).drop_first() =~= events.skip(n));
        assert(events.skip(n - 1)[0] == events[n - 1]);
    } else {
        assert(events.skip(0) =~= events);
    }
}

proof fn lemma_yes_step(events: Seq<XmlItem>, tag: Seq<char>, lo: int, n: int)
    requires
        lo <= n,
    ensures
        some_yes(events, tag, lo, n + 1) <==> some_yes(events, tag, lo, n) || (texts_in(
            events,
            tag,
        )(n) matches Some(t) && says_yes(t)),
{
    if some_yes(events, tag, lo, n) {
        let k = choose|k: int|
            lo <= k < n && ((#[trigger] texts_in(events, tag)(k)) matches Some(t) && says_yes(t));
        assert(texts_in(events, tag)(k) is Some);
    }
}

proof fn lemma_tags()
    ensures
        encode_utf8("rptOwnerName"@) != encode_utf8("officerTitle"@),
        encode_utf8("rptOwnerName"@) != encode_utf8("isDirector"@),
        encode_utf8("rptOwnerName"@) != encode_utf8("isOfficer"@),
        encode_utf8("officerTitle"@) != encode_utf8("isDirector"@),
        encode_utf8("officerTitle"@) != encode_utf8("isOfficer"@),
        encode_utf8("isDirector"@) != encode_utf8("isOfficer"@),
{
    reveal_strlit("rptOwnerName");
    reveal_strlit("officerTitle");
    reveal_strlit("isDirector");
    reveal_strlit("isOfficer");
    assert("rptOwnerName"@[0] == 'r' && "officerTitle"@[0] == 'o');
    assert("isDirector"@.len() == 10 && "isOfficer"@.len() == 9);
    assert("isDirector"@[0] == 'i' && "isOfficer"@[0] == 'i');
    lemma_names_differ("rptOwnerName"@, "officerTitle"@);
    lemma_names_differ("rptOwnerName"@, "isDirector"@);
    lemma_names_differ("rptOwnerName"@, "isOfficer"@);
    lemma_names_differ("officerTitle"@, "isDirector"@);
    lemma_names_differ("officerTitle"@, "isOfficer"@);
    lemma_names_differ("isDirector"@, "isOfficer"@);
}

/// One more event inside an open block.
proof fn lemma_owner_step(events: Seq<XmlItem>, a: int, n: int, s: OwnershipState)
    requires
        a < n,
        s.path == open_elements(events, n),
        s.cur matches Some(o) && owner_so_far(events, a, n, o),
        !(events[n] is Open),
        !(events[n] is Close),
    ensures
        ownership_step(s, events[n]).cur matches Some(o) && owner_so_far(events, a, n + 1, o),
        ownership_step(s, events[n]).people == s.people,
{
    let o = s.cur->0;
    let name = texts_in(events, "rptOwnerName"@);
    let title = texts_in(events, "officerTitle"@);
    lemma_tags();
    lemma_first_step(name, a + 1, n, nonempty(o.name));
    lemma_first_step(title, a + 1, n, nonempty(o.officer_title));
    lemma_yes_step(events, "isDirector"@, a + 1, n);
    lemma_yes_step(events, "isOfficer"@, a + 1, n);
    if let XmlItem::Text(Some(raw)) = events[n] {
        law_trim_twice(raw);
    }
}

proof fn lemma_owner_start(events: Seq<XmlItem>, a: int)
    ensures
        owner_so_far(events, a, a + 1, empty_owner()),
{
}

/// An event that opens or closes an element holds no text.
proof fn lemma_owner_tag(events: Seq<XmlItem>, a: int, n: int, o: OwnerView)
    requires
        a < n,
        owner_so_far(events, a, n, o),
        events[n] is Open || events[n] is Close,
    ensures
        owner_so_far(events, a, n + 1, o),
{
    lemma_first_step(texts_in(events, "rptOwnerName"@), a + 1, n, nonempty(o.name));
    lemma_first_step(texts_in(events, "officerTitle"@), a + 1, n, nonempty(o.officer_title));
    lemma_yes_step(events, "isDirector"@, a + 1, n);
    lemma_yes_step(events, "isOfficer"@, a + 1, n);
}

spec fn so_far(
    events: Seq<XmlItem>,
    n: int,
    blocks: Seq<(int, int)>,
    cur: Option<int>,
) -> bool {
    let s = state_after(events, n);
    &&& lists_blocks(events, "reportingOwner"@, named_blocks(events), blocks, n)
    &&& current_block(events, "reportingOwner"@, n, cur)
    &&& s.path == open_elements(events, n)
    &&& people_of_blocks(events, blocks, s.people)
    &&& match cur {
        Some(a) => s.cur matches Some(o) && owner_so_far(events, a, n, o),
        None => s.cur is None,
    }
}

proof fn lemma_so_far(events: Seq<XmlItem>, n: int) -> (w: (Seq<(int, int)>, Option<int>))
    requires
        0 <= n <= events.len(),
    ensures
        so_far(events, n, w.0, w.1),
    decreases n,
{
    let tag = "reportingOwner"@;
    let keep = named_blocks(events);
    if n == 0 {
        lemma_blocks_start(events, tag, keep);
        (Seq::empty(), None)
    } else {
        let m = n - 1;
        let (blocks, cur) = lemma_so_far(events, m);
        let s = state_after(events, m);
        let e = events[m];
        lemma_blocks_step(events, tag, keep, blocks, m, cur);
        let out = next_blocks(events, tag, keep, blocks, m, cur);
        let next = next_block(events, tag, m, cur);
        if opens(e, tag) {
            lemma_owner_start(events, m);
        } else if closes(e, tag) {
            if let Some(a) = cur {
                let o = s.cur->0;
                let name = texts_in(events, "rptOwnerName"@);
                assert(is_first(name, a + 1, m, nonempty(o.name)));
                lemma_first_or_none(name, a + 1, m, nonempty(o.name));
                assert(keep((a, m)) <==> o.name.len() > 0);
                let people = state_after(events, n).people;
                if o.name.len() > 0 {
                    assert forall|k: int| 0 <= k < people.len() implies describes_person(
                        events,
                        out[k].0,
                        out[k].1,
                        #[trigger] people[k],
                    ) by {
                        if k < s.people.len() {
                            assert(people[k] == s.people[k]);
                        }
                    }
                }
            }
        } else if e is Open || e is Close {
            if let Some(a) = cur {
                lemma_owner_tag(events, a, m, s.cur->0);
            }
        } else if let Some(a) = cur {
            lemma_owner_step(events, a, m, s);
        }
        (out, next)
    }
}

/// The people of an ownership document are those of its `reportingOwner` blocks
/// that name somebody, in order. A person's name and title are the first texts of
/// `rptOwnerName` and `officerTitle` in their block; they are a director exactly
/// where a text of `isDirector` in it says yes, and an officer exactly where one of
/// `isOfficer` does. No other text makes a difference.
pub proof fn law_people_of_a_document(events: Seq<XmlItem>)
    requires
        whole_stream(events),
    ensures
        exists|blocks: Seq<(int, int)>|
            lists_blocks(
                events,
                "reportingOwner"@,
                named_blocks(events),
                blocks,
                events.len() - 1,
            ) && #[trigger] people_of_blocks(
                events,
                blocks,
                ownership_walk(ownership_start(), events),
            ),
{
    let n = events.len() - 1;
    let (blocks, cur) = lemma_so_far(events, n);
    lemma_walk(events, n);
    assert(events.skip(n)[0] == events[n]);
    assert(people_of_blocks(events, blocks, ownership_walk(ownership_start(), events)));
}

/// Form 3, 4 or 5, and any number of amendment marks behind it; nothing else.
pub proof fn law_ownership_form(form: Seq<char>, marks: nat)
    ensures
        ownership_form(form) ==> exists|n: nat|
            form == "3"@ + #[trigger] repeated("/A"@, n) || form == "4"@
                + repeated("/A"@, n) || form == "5"@ + repeated(
                "/A"@,
                n,
            ),
        ownership_form("3"@ + repeated("/A"@, marks)),
        ownership_form("4"@ + repeated("/A"@, marks)),
        ownership_form("5"@ + repeated("/A"@, marks)),
{
    reveal_strlit("3");
    reveal_strlit("4");
    reveal_strlit("5");
    reveal_strlit("/A");
    let n = law_strip_suffixes(form, "/A"@);
    assert(form == without_suffixes(form, "/A"@) + repeated("/A"@, n));
    lemma_marks_go("3"@, marks);
    lemma_marks_go("4"@, marks);
    lemma_marks_go("5"@, marks);
}

proof fn lemma_marks_go(base: Seq<char>, marks: nat)
    requires
        base.len() == 1,
    ensures
        without_suffixes(base + repeated("/A"@, marks), "/A"@)
            == base,
    decreases marks,
{
    reveal_strlit("/A");
    let s = base + repeated("/A"@, marks);
    if marks > 0 {
        let rest = base + repeated("/A"@, (marks - 1) as nat);
        assert(s =~= rest + "/A"@);
        law_begins_and_ends(rest, "/A"@, s, "/A"@);
        assert(s.take(s.len() - 2) =~= rest);
        lemma_marks_go(base, (marks - 1) as nat);
    } else {
        assert(s =~= base);
    }
}

/// A flag is set exactly where its text says yes, whatever white space is around it.
pub proof fn law_flags(txt: Seq<char>)
    ensures
        flag_set(txt) <==> says_yes(trimmed(txt)),
{
}

} // verus!
