//! A company's officer and board roster, built from its recent ownership filings.
use vstd::prelude::*;

use crate::filings::{ownership_filings_view, OwnershipFiling, OwnershipFilingView};
use crate::ownership::{people_view, OwnershipPerson, PersonView};
use crate::text::{
    lemma_lex_irreflexive, lemma_lex_total, lemma_lex_transitive, less, lex_less, same,
};

verus! {

/// How many of a company's most recent ownership filings are read.
pub const LEADERSHIP_MAX_FILINGS: usize = 10;

/// One place on a roster: a person, and when the filing that names them was
/// filed.
pub struct RosterEntry {
    pub person: OwnershipPerson,
    pub filed_at: String,
}

/// The meaning of a [`RosterEntry`].
pub struct RosterView {
    pub person: PersonView,
    pub filed_at: Seq<char>,
}

impl View for RosterEntry {
    type V = RosterView;

    open spec fn view(&self) -> RosterView {
        RosterView { person: self.person@, filed_at: self.filed_at@ }
    }
}

pub open spec fn roster_view(v: Seq<RosterEntry>) -> Seq<RosterView> {
    v.map_values(|e: RosterEntry| e@)
}

/// How the request for one filing went.
pub enum FilingEvent {
    /// The guard refused it.
    Denied,
    /// It failed.
    Failed,
    /// The people that the filing names.
    People(Vec<OwnershipPerson>),
}

/// The meaning of a [`FilingEvent`].
pub enum FilingItem {
    Denied,
    Failed,
    People(Seq<PersonView>),
}

impl View for FilingEvent {
    type V = FilingItem;

    open spec fn view(&self) -> FilingItem {
        match self {
            FilingEvent::Denied => FilingItem::Denied,
            FilingEvent::Failed => FilingItem::Failed,
            FilingEvent::People(people) => FilingItem::People(people_view(people@)),
        }
    }
}

/// A roster being built.
pub struct LeadershipRun {
    filings: Vec<OwnershipFiling>,
    next: usize,
    roster: Vec<RosterEntry>,
    complete: bool,
}

/// The meaning of a [`LeadershipRun`].
pub struct LeadershipState {
    pub filings: Seq<OwnershipFilingView>,
    /// The first filing that is not done.
    pub next: int,
    pub roster: Seq<RosterView>,
    /// No request was refused.
    pub complete: bool,
}

impl View for LeadershipRun {
    type V = LeadershipState;

    closed spec fn view(&self) -> LeadershipState {
        LeadershipState {
            filings: ownership_filings_view(self.filings@),
            next: self.next as int,
            roster: roster_view(self.roster@),
            complete: self.complete,
        }
    }
}

/// The leaders among the people of a filing: its directors and officers.
pub open spec fn leaders(people: Seq<PersonView>, filed_at: Seq<char>) -> Seq<RosterView>
    decreases people.len(),
{
    if people.len() == 0 {
        Seq::empty()
    } else {
        let before = leaders(people.drop_last(), filed_at);
        let p = people.last();
        if p.is_director || p.is_officer {
            before.push(RosterView { person: p, filed_at })
        } else {
            before
        }
    }
}

/// The most recent filings of an index, which lists them newest first.
pub open spec fn recent(index: Seq<OwnershipFilingView>) -> Seq<OwnershipFilingView> {
    if index.len() <= LEADERSHIP_MAX_FILINGS {
        index
    } else {
        index.take(LEADERSHIP_MAX_FILINGS as int)
    }
}

pub open spec fn leadership_start(index: Seq<OwnershipFilingView>) -> LeadershipState {
    LeadershipState { filings: recent(index), next: 0, roster: Seq::empty(), complete: true }
}

/// The state after the request for the current filing. A filing that cannot be
/// read is skipped; a refusal leaves the roster incomplete.
pub open spec fn leadership_step(s: LeadershipState, e: FilingItem) -> LeadershipState {
    match e {
        FilingItem::Denied => LeadershipState { next: s.next + 1, complete: false, ..s },
        FilingItem::Failed => LeadershipState { next: s.next + 1, ..s },
        FilingItem::People(people) => LeadershipState {
            next: s.next + 1,
            roster: s.roster + leaders(people, s.filings[s.next].filed_at),
            ..s
        },
    }
}

impl LeadershipRun {
    /// Starts on the most recent filings of an index.
    pub fn begin(index: Vec<OwnershipFiling>) -> (r: LeadershipRun)
        ensures
            r@ == leadership_start(ownership_filings_view(index@)),
    {
        let mut filings = index;
        if filings.len() > LEADERSHIP_MAX_FILINGS {
            filings.truncate(LEADERSHIP_MAX_FILINGS);
        }
        let r = LeadershipRun { filings, next: 0, roster: Vec::new(), complete: true };
        assert(r@.filings =~= recent(ownership_filings_view(index@)));
        assert(r@.roster =~= Seq::<RosterView>::empty());
        r
    }

    /// The filing to ask for next.
    pub fn current(&self) -> (r: Option<&OwnershipFiling>)
        ensures
            match r {
                Some(f) => self@.next < self@.filings.len() && f@ == self@.filings[self@.next],
                None => self@.next >= self@.filings.len(),
            },
    {
        if self.next < self.filings.len() {
            Some(&self.filings[self.next])
        } else {
            None
        }
    }

    /// Takes in how the request for the current filing went.
    pub fn step(&mut self, event: FilingEvent)
        requires
            old(self)@.next < old(self)@.filings.len(),
        ensures
            final(self)@ == leadership_step(old(self)@, event@),
    {
        let ghost before = self@;
        let count: usize = self.filings.len();
        assert(self@.filings.len() == count);
        match event {
            FilingEvent::Denied => {
                self.complete = false;
            },
            FilingEvent::Failed => {},
            FilingEvent::People(people) => {
                let ghost all = people_view(people@);
                let mut i: usize = 0;
                assert(roster_view(self.roster@) =~= before.roster + leaders(
                    all.take(0),
                    before.filings[before.next].filed_at,
                ));
                while i < people.len()
                    invariant
                        i <= people@.len(),
                        all == people_view(people@),
                        before.next < before.filings.len(),
                        self.next == before.next,
                        self.next < self.filings@.len(),
                        ownership_filings_view(self.filings@) == before.filings,
                        self.complete == before.complete,
                        roster_view(self.roster@) == before.roster + leaders(
                            all.take(i as int),
                            before.filings[before.next].filed_at,
                        ),
                    decreases people.len() - i,
                {
                    let filed_at = self.filings[self.next].filed_at.clone();
                    let ghost so_far = roster_view(self.roster@);
                    assert(all.take(i + 1).drop_last() =~= all.take(i as int));
                    if people[i].is_director || people[i].is_officer {
                        let person = copy_person(&people[i]);
                        let entry = RosterEntry { person, filed_at };
                        self.roster.push(entry);
                        assert(roster_view(self.roster@) =~= so_far.push(entry@));
                    }
                    assert(roster_view(self.roster@) =~= before.roster + leaders(
                        all.take(i + 1),
                        before.filings[before.next].filed_at,
                    ));
                    i += 1;
                }
                assert(all.take(all.len() as int) =~= all);
            },
        }
        self.next += 1;
    }

    /// The roster, and whether every filing was asked for.
    pub fn finish(self) -> (r: (Vec<RosterEntry>, bool))
        ensures
            roster_view(r.0@) == self@.roster,
            r.1 == self@.complete,
    {
        (self.roster, self.complete)
    }
}

fn copy_person(p: &OwnershipPerson) -> (r: OwnershipPerson)
    ensures
        r@ == p@,
{
    OwnershipPerson {
        name: p.name.clone(),
        is_director: p.is_director,
        is_officer: p.is_officer,
        officer_title: match &p.officer_title {
            Some(t) => Some(t.clone()),
            None => None,
        },
    }
}

/// The state after a sequence of events.
pub open spec fn leadership_all(s: LeadershipState, events: Seq<FilingItem>) -> LeadershipState
    decreases events.len(),
{
    if events.len() == 0 {
        s
    } else {
        leadership_step(leadership_all(s, events.drop_last()), events.last())
    }
}

/// A roster counts as complete exactly where no request was refused; a filing
/// that cannot be read does not make it incomplete.
pub proof fn law_complete_roster(index: Seq<OwnershipFilingView>, events: Seq<FilingItem>)
    ensures
        leadership_all(leadership_start(index), events).complete <==> forall|k: int|
            0 <= k < events.len() ==> !((#[trigger] events[k]) is Denied),
        leadership_all(leadership_start(index), events).next == events.len(),
        leadership_all(leadership_start(index), events).filings == recent(index),
    decreases events.len(),
{
    if events.len() > 0 {
        let before = events.drop_last();
        law_complete_roster(index, before);
        assert(events[events.len() - 1] == events.last());
        assert forall|k: int| 0 <= k < before.len() implies before[k] == #[trigger] events[k] by {}
        if forall|k: int| 0 <= k < events.len() ==> !((#[trigger] events[k]) is Denied) {
            assert forall|k: int| 0 <= k < before.len() implies !((#[trigger] before[k]) is Denied) by {
                assert(before[k] == events[k]);
            }
        }
    }
}

/// The first ten filings of an index are read, or all of a shorter one.
pub proof fn law_recent_filings(index: Seq<OwnershipFilingView>, i: int)
    ensures
        recent(index).len() == (if index.len() < 10 {
            index.len()
        } else {
            10
        }),
        0 <= i < recent(index).len() ==> recent(index)[i] == index[i],
{
}

// ── one entry per person ───────────────────────────────────────────────────

/// Somebody of this name is on the roster.
pub open spec fn names(roster: Seq<RosterView>, name: Seq<char>) -> bool {
    exists|i: int| 0 <= i < roster.len() && (#[trigger] roster[i]).person.name == name
}

/// A roster with only the first entry of each person. The newest filing comes
/// first, so that is their current role.
pub open spec fn first_entries(roster: Seq<RosterView>) -> Seq<RosterView>
    decreases roster.len(),
{
    if roster.len() == 0 {
        Seq::empty()
    } else {
        let before = first_entries(roster.drop_last());
        if names(before, roster.last().person.name) {
            before
        } else {
            before.push(roster.last())
        }
    }
}

fn named_in_roster(roster: &Vec<RosterEntry>, name: &str) -> (r: bool)
    ensures
        r == names(roster_view(roster@), name@),
{
    let mut i: usize = 0;
    while i < roster.len()
        invariant
            i <= roster@.len(),
            forall|j: int|
                0 <= j < i ==> (#[trigger] roster_view(roster@)[j]).person.name != name@,
        decreases roster.len() - i,
    {
        if same(roster[i].person.name.as_str(), name) {
            assert(roster_view(roster@)[i as int].person.name == name@);
            return true;
        }
        i += 1;
    }
    false
}

/// The entries of a roster to store: the first of each person.
pub fn current_roles(roster: &Vec<RosterEntry>) -> (r: Vec<RosterEntry>)
    ensures
        roster_view(r@) == first_entries(roster_view(roster@)),
{
    let ghost all = roster_view(roster@);
    let mut out: Vec<RosterEntry> = Vec::new();
    let mut i: usize = 0;
    assert(all.take(0) =~= Seq::<RosterView>::empty());
    assert(roster_view(out@) =~= Seq::<RosterView>::empty());
    while i < roster.len()
        invariant
            i <= roster@.len(),
            all == roster_view(roster@),
            roster_view(out@) == first_entries(all.take(i as int)),
        decreases roster.len() - i,
    {
        let ghost before = roster_view(out@);
        assert(all.take(i + 1).drop_last() =~= all.take(i as int));
        if !named_in_roster(&out, roster[i].person.name.as_str()) {
            let entry = RosterEntry {
                person: copy_person(&roster[i].person),
                filed_at: roster[i].filed_at.clone(),
            };
            out.push(entry);
            assert(roster_view(out@) =~= before.push(all[i as int]));
        }
        i += 1;
    }
    assert(all.take(all.len() as int) =~= all);
    out
}

/// Nobody is stored twice, and nobody is lost.
pub proof fn law_one_entry_per_person(roster: Seq<RosterView>, name: Seq<char>, i: int, j: int)
    ensures
        names(first_entries(roster), name) <==> names(roster, name),
        0 <= i < j < first_entries(roster).len() ==> first_entries(roster)[i].person.name
            != first_entries(roster)[j].person.name,
    decreases roster.len(),
{
    if roster.len() > 0 {
        let rest = roster.drop_last();
        let last = roster.last();
        let before = first_entries(rest);
        let all = first_entries(roster);
        law_one_entry_per_person(rest, name, i, j);
        assert(names(roster, name) <==> names(rest, name) || last.person.name == name) by {
            if names(rest, name) {
                let k = choose|k: int|
                    0 <= k < rest.len() && (#[trigger] rest[k]).person.name == name;
                assert(roster[k].person.name == name);
            }
            if names(roster, name) {
                let k = choose|k: int|
                    0 <= k < roster.len() && (#[trigger] roster[k]).person.name == name;
                if k < rest.len() {
                    assert(rest[k].person.name == name);
                }
            }
            assert(roster[roster.len() - 1] == last);
        }
        if !names(before, last.person.name) {
            assert(names(all, name) <==> names(before, name) || last.person.name == name) by {
                if names(before, name) {
                    let k = choose|k: int|
                        0 <= k < before.len() && (#[trigger] before[k]).person.name == name;
                    assert(all[k].person.name == name);
                }
                if names(all, name) {
                    let k = choose|k: int|
                        0 <= k < all.len() && (#[trigger] all[k]).person.name == name;
                    if k < before.len() {
                        assert(before[k].person.name == name);
                    }
                }
                assert(all[before.len() as int] == last);
            }
            if 0 <= i < j < all.len() && j == before.len() {
                assert(before[i] == all[i]);
            }
        }
    }
}

/// A person's stored role is that of the first entry that names them.
pub proof fn law_newest_role_stands(roster: Seq<RosterView>, i: int)
    requires
        0 <= i < roster.len(),
        forall|j: int|
            0 <= j < i ==> (#[trigger] roster[j]).person.name != roster[i].person.name,
    ensures
        first_entries(roster).contains(roster[i]),
    decreases roster.len(),
{
    let rest = roster.drop_last();
    let before = first_entries(rest);
    let all = first_entries(roster);
    if i < rest.len() {
        assert(rest[i] == roster[i]);
        assert forall|j: int| 0 <= j < i implies (#[trigger] rest[j]).person.name
            != rest[i].person.name by {
            assert(rest[j] == roster[j]);
        }
        law_newest_role_stands(rest, i);
        let k = choose|k: int| 0 <= k < before.len() && before[k] == rest[i];
        assert(all[k] == roster[i]);
    } else {
        let name = roster[i].person.name;
        if names(before, name) {
            law_one_entry_per_person(rest, name, 0, 0);
            let k = choose|k: int| 0 <= k < rest.len() && (#[trigger] rest[k]).person.name == name;
            assert(roster[k].person.name == name);
        }
        assert(all[before.len() as int] == roster[i]);
    }
}

/// When a person was last seen, after a filing of this date: an older filing does
/// not take a newer one back.
pub open spec fn seen_after(stored: Option<Seq<char>>, filed_at: Seq<char>) -> Seq<char> {
    match stored {
        Some(seen) if lex_less(filed_at, seen) => seen,
        _ => filed_at,
    }
}

/// Whether a role from a filing of this date replaces the stored one, which was
/// last seen at `stored`.
pub fn replaces_stored(stored: Option<&str>, filed_at: &str) -> (r: bool)
    ensures
        r == !(stored matches Some(seen) && lex_less(filed_at@, seen@)),
{
    match stored {
        Some(seen) => !less(filed_at, seen),
        None => true,
    }
}

/// When a person was last seen, after a sequence of filings.
pub open spec fn seen_after_all(stored: Option<Seq<char>>, filed: Seq<Seq<char>>) -> Option<
    Seq<char>,
>
    decreases filed.len(),
{
    if filed.len() == 0 {
        stored
    } else {
        Some(seen_after(seen_after_all(stored, filed.drop_last()), filed.last()))
    }
}

/// The stored role is never that of an older filing than one that was read, in
/// whatever order the filings come.
pub proof fn law_roles_never_age(stored: Option<Seq<char>>, filed: Seq<Seq<char>>, i: int)
    requires
        0 <= i < filed.len(),
    ensures
        seen_after_all(stored, filed) matches Some(seen) && !lex_less(seen, filed[i]),
    decreases filed.len(),
{
    let before = seen_after_all(stored, filed.drop_last());
    let last = filed.last();
    let seen = seen_after(before, last);
    lemma_lex_irreflexive(last);
    if i < filed.len() - 1 {
        law_roles_never_age(stored, filed.drop_last(), i);
        let b = before->0;
        let f = filed[i];
        assert(!lex_less(b, f));
        if seen == last && lex_less(last, f) {
            // `b` does not come before `f`, nor `last` before `b`.
            lemma_lex_total(b, f);
            if b != f {
                lemma_lex_transitive(last, f, b);
            }
            assert(lex_less(last, b));
        }
    } else if seen != last && lex_less(seen, last) {
        lemma_lex_transitive(last, seen, last);
    }
}

/// Only directors and officers come onto a roster.
pub proof fn law_leaders(people: Seq<PersonView>, filed_at: Seq<char>, i: int)
    requires
        0 <= i < leaders(people, filed_at).len(),
    ensures
        leaders(people, filed_at)[i].person.is_director || leaders(
            people,
            filed_at,
        )[i].person.is_officer,
        leaders(people, filed_at)[i].filed_at == filed_at,
        people.contains(leaders(people, filed_at)[i].person),
    decreases people.len(),
{
    let rest = people.drop_last();
    let before = leaders(rest, filed_at);
    if i < before.len() {
        law_leaders(rest, filed_at, i);
        let k = choose|k: int| 0 <= k < rest.len() && rest[k] == before[i].person;
        assert(people[k] == before[i].person);
    } else {
        assert(people[people.len() - 1] == people.last());
    }
}

/// Every director and every officer of a filing comes onto the roster, in the order
/// of the filing, and nobody else does.
pub proof fn law_leaders_of_a_filing(people: Seq<PersonView>, p: PersonView, filed_at: Seq<char>)
    ensures
        leaders(Seq::empty(), filed_at) == Seq::<RosterView>::empty(),
        leaders(people.push(p), filed_at) == (if p.is_director || p.is_officer {
            leaders(people, filed_at).push(RosterView { person: p, filed_at })
        } else {
            leaders(people, filed_at)
        }),
{
    assert(people.push(p).drop_last() =~= people);
}

/// A filing adds its own leaders behind those already found, under its own date; a
/// filing that was refused or could not be read adds nobody.
pub proof fn law_roster_grows(
    index: Seq<OwnershipFilingView>,
    events: Seq<FilingItem>,
    e: FilingItem,
)
    ensures
        ({
            let before = leadership_all(leadership_start(index), events).roster;
            let after = leadership_all(leadership_start(index), events.push(e)).roster;
            match e {
                FilingItem::People(people) => after == before + leaders(
                    people,
                    recent(index)[events.len() as int].filed_at,
                ),
                _ => after == before,
            }
        }),
        leadership_all(leadership_start(index), Seq::empty()).roster == Seq::<RosterView>::empty(),
{
    law_complete_roster(index, events);
    assert(events.push(e).drop_last() =~= events);
}

/// An entry is stored behind the others exactly where nobody of its name came
/// before.
pub proof fn law_stored_in_order(roster: Seq<RosterView>, e: RosterView)
    ensures
        first_entries(Seq::empty()) == Seq::<RosterView>::empty(),
        first_entries(roster.push(e)) == (if names(roster, e.person.name) {
            first_entries(roster)
        } else {
            first_entries(roster).push(e)
        }),
{
    assert(roster.push(e).drop_last() =~= roster);
    law_one_entry_per_person(roster, e.person.name, 0, 0);
}

} // verus!
