//! What is read of a filing feed, said of the feed's events.
use vstd::prelude::*;
use vstd::utf8::encode_utf8;

use crate::atom::{atom_start, atom_step, atom_walk, empty_entry, AtomState, EntryItem};
use crate::streams::{
    attributes_of, closes, current_block, is_first, is_last_place, lemma_blocks_start,
    lemma_blocks_step, lemma_first_or_none, lemma_first_step, lemma_names_differ, lists_blocks,
    next_block, next_blocks, nonempty, open_elements, opens, texts_in,
};
use crate::xml::{whole_stream, XmlItem};

verus! {

pub open spec fn category_terms(events: Seq<XmlItem>) -> spec_fn(int) -> Option<Seq<char>> {
    attributes_of(events, "category"@, "term"@)
}

/// The form that the events from `lo` up to `hi` give: the term of the last
/// `category` (at `c`) that has one, or else the first text of `filing-type`.
pub open spec fn form_by(
    events: Seq<XmlItem>,
    lo: int,
    hi: int,
    form: Seq<char>,
    c: Option<int>,
) -> bool {
    match c {
        Some(i) => is_last_place(category_terms(events), lo, hi, i) && {
            let term = category_terms(events)(i)->0;
            if term.len() > 0 {
                form == term
            } else {
                is_first(texts_in(events, "filing-type"@), i + 1, hi, nonempty(form))
            }
        },
        None => (forall|i: int| lo <= i < hi ==> (#[trigger] category_terms(events)(i)) is None)
            && is_first(texts_in(events, "filing-type"@), lo, hi, nonempty(form)),
    }
}

/// The entry that the events between `a` and `b` describe: each field is the first
/// text of its element.
pub open spec fn describes_entry(events: Seq<XmlItem>, a: int, b: int, e: EntryItem) -> bool {
    &&& is_first(texts_in(events, "accession-number"@), a + 1, b, Some(e.accession))
    &&& is_first(texts_in(events, "filing-date"@), a + 1, b, nonempty(e.filed))
    &&& is_first(texts_in(events, "filing-href"@), a + 1, b, nonempty(e.href))
    &&& exists|c: Option<int>| #[trigger] form_by(events, a + 1, b, e.form, c)
}

/// The blocks that hold an accession number.
pub open spec fn numbered_blocks(events: Seq<XmlItem>) -> spec_fn((int, int)) -> bool {
    |at: (int, int)| !is_first(texts_in(events, "accession-number"@), at.0 + 1, at.1, None)
}

/// `entries` are those that the blocks describe, one each.
pub open spec fn entries_of_blocks(
    events: Seq<XmlItem>,
    blocks: Seq<(int, int)>,
    entries: Seq<EntryItem>,
) -> bool {
    &&& blocks.len() == entries.len()
    &&& forall|k: int|
        0 <= k < entries.len() ==> describes_entry(
            events,
            blocks[k].0,
            blocks[k].1,
            #[trigger] entries[k],
        )
}

spec fn entry_so_far(
    events: Seq<XmlItem>,
    a: int,
    n: int,
    e: EntryItem,
    c: Option<int>,
) -> bool {
    &&& is_first(texts_in(events, "accession-number"@), a + 1, n, nonempty(e.accession))
    &&& is_first(texts_in(events, "filing-date"@), a + 1, n, nonempty(e.filed))
    &&& is_first(texts_in(events, "filing-href"@), a + 1, n, nonempty(e.href))
    &&& form_by(events, a + 1, n, e.form, c)
}

spec fn state_after(events: Seq<XmlItem>, n: int) -> AtomState
    decreases n,
{
    if n <= 0 {
        atom_start()
    } else {
        atom_step(state_after(events, n - 1), events[n - 1])
    }
}

proof fn lemma_walk(events: Seq<XmlItem>, n: int)
    requires
        whole_stream(events),
        0 <= n < events.len(),
    ensures
        atom_walk(atom_start(), events) == atom_walk(state_after(events, n), events.skip(n)),
    decreases n,
{
    if n > 0 {
        lemma_walk(events, n - 1);
        assert(events.skip(n - 1).drop_first() =~= events.skip(n));
        assert(events.skip(n - 1)[0] == events[n - 1]);
    } else {
        assert(events.skip(0) =~= events);
    }
}

proof fn lemma_tags()
    ensures
        encode_utf8("accession-number"@) != encode_utf8("filing-date"@),
        encode_utf8("accession-number"@) != encode_utf8("filing-href"@),
        encode_utf8("accession-number"@) != encode_utf8("filing-type"@),
        encode_utf8("filing-date"@) != encode_utf8("filing-href"@),
        encode_utf8("filing-date"@) != encode_utf8("filing-type"@),
        encode_utf8("filing-href"@) != encode_utf8("filing-type"@),
        encode_utf8("entry"@) != encode_utf8("category"@),
{
    reveal_strlit("accession-number");
    reveal_strlit("filing-date");
    reveal_strlit("filing-href");
    reveal_strlit("filing-type");
    reveal_strlit("entry");
    reveal_strlit("category");
    assert("accession-number"@[0] == 'a' && "filing-date"@[0] == 'f' && "filing-href"@[0] == 'f'
        && "filing-type"@[0] == 'f');
    assert("filing-date"@[7] == 'd' && "filing-href"@[7] == 'h' && "filing-type"@[7] == 't');
    assert("entry"@[0] == 'e' && "category"@[0] == 'c');
    lemma_names_differ("accession-number"@, "filing-date"@);
    lemma_names_differ("accession-number"@, "filing-href"@);
    lemma_names_differ("accession-number"@, "filing-type"@);
    lemma_names_differ("filing-date"@, "filing-href"@);
    lemma_names_differ("filing-date"@, "filing-type"@);
    lemma_names_differ("filing-href"@, "filing-type"@);
    lemma_names_differ("entry"@, "category"@);
}

/// One more event inside an open block.
proof fn lemma_entry_step(
    events: Seq<XmlItem>,
    a: int,
    n: int,
    s: AtomState,
    c: Option<int>,
) -> (d: Option<int>)
    requires
        a < n,
        s.path == open_elements(events, n),
        s.cur matches Some(e) && entry_so_far(events, a, n, e, c),
        !opens(events[n], "entry"@),
        !closes(events[n], "entry"@),
    ensures
        atom_step(s, events[n]).cur matches Some(e) && entry_so_far(events, a, n + 1, e, d),
{
    lemma_tags();
    let e = s.cur->0;
    let types = texts_in(events, "filing-type"@);
    let terms = category_terms(events);
    let next = atom_step(s, events[n]).cur->0;
    lemma_first_step(texts_in(events, "accession-number"@), a + 1, n, nonempty(e.accession));
    lemma_first_step(texts_in(events, "filing-date"@), a + 1, n, nonempty(e.filed));
    lemma_first_step(texts_in(events, "filing-href"@), a + 1, n, nonempty(e.href));
    if terms(n) is Some {
        assert(is_last_place(terms, a + 1, n + 1, n));
        assert(next.form == terms(n)->0);
        Some(n)
    } else {
        match c {
            Some(i) => {
                assert(is_last_place(terms, a + 1, n + 1, i));
                if terms(i)->0.len() == 0 {
                    lemma_first_step(types, i + 1, n, nonempty(e.form));
                }
            },
            None => {
                lemma_first_step(types, a + 1, n, nonempty(e.form));
            },
        }
        c
    }
}

spec fn so_far(
    events: Seq<XmlItem>,
    n: int,
    blocks: Seq<(int, int)>,
    cur: Option<int>,
    c: Option<int>,
) -> bool {
    let s = state_after(events, n);
    &&& lists_blocks(events, "entry"@, numbered_blocks(events), blocks, n)
    &&& current_block(events, "entry"@, n, cur)
    &&& s.path == open_elements(events, n)
    &&& entries_of_blocks(events, blocks, s.entries)
    &&& match cur {
        Some(a) => s.cur matches Some(e) && entry_so_far(events, a, n, e, c),
        None => s.cur is None,
    }
}

proof fn lemma_so_far(events: Seq<XmlItem>, n: int) -> (w: (
    Seq<(int, int)>,
    Option<int>,
    Option<int>,
))
    requires
        0 <= n <= events.len(),
    ensures
        so_far(events, n, w.0, w.1, w.2),
    decreases n,
{
    let tag = "entry"@;
    let keep = numbered_blocks(events);
    if n == 0 {
        lemma_blocks_start(events, tag, keep);
        (Seq::empty(), None, None)
    } else {
        let m = n - 1;
        let (blocks, cur, c) = lemma_so_far(events, m);
        let s = state_after(events, m);
        let e = events[m];
        lemma_tags();
        lemma_blocks_step(events, tag, keep, blocks, m, cur);
        let out = next_blocks(events, tag, keep, blocks, m, cur);
        let next = next_block(events, tag, m, cur);
        let entries = state_after(events, n).entries;
        if opens(e, tag) {
            assert(entry_so_far(events, m, n, empty_entry(), None));
            (out, next, None)
        } else if closes(e, tag) {
            if let Some(a) = cur {
                let x = s.cur->0;
                lemma_first_or_none(
                    texts_in(events, "accession-number"@),
                    a + 1,
                    m,
                    nonempty(x.accession),
                );
                assert(keep((a, m)) <==> x.accession.len() > 0);
                if x.accession.len() > 0 {
                    assert(form_by(events, a + 1, m, x.form, c));
                    assert(describes_entry(events, a, m, x));
                    assert forall|k: int| 0 <= k < entries.len() implies describes_entry(
                        events,
                        out[k].0,
                        out[k].1,
                        #[trigger] entries[k],
                    ) by {
                        if k < s.entries.len() {
                            assert(entries[k] == s.entries[k]);
                        }
                    }
                }
            }
            (out, next, None)
        } else {
            let d = match cur {
                Some(a) => lemma_entry_step(events, a, m, s, c),
                None => None,
            };
            (out, next, d)
        }
    }
}

/// The entries of a feed are those of its `entry` blocks that hold an accession
/// number, in order. An entry's number, date and page are the first texts of their
/// own elements inside the block; its form is the term of the block's last
/// `category`, or the first text of `filing-type` where that says nothing.
pub proof fn law_entries_of_a_feed(events: Seq<XmlItem>)
    requires
        whole_stream(events),
    ensures
        atom_walk(atom_start(), events) is Some <==> events.last() is Eof,
        atom_walk(atom_start(), events) matches Some(entries) ==> exists|
            blocks: Seq<(int, int)>,
        |
            lists_blocks(events, "entry"@, numbered_blocks(events), blocks, events.len() - 1)
                && #[trigger] entries_of_blocks(events, blocks, entries),
{
    let n = events.len() - 1;
    let (blocks, cur, c) = lemma_so_far(events, n);
    lemma_walk(events, n);
    assert(events.skip(n)[0] == events[n]);
    if let Some(entries) = atom_walk(atom_start(), events) {
        assert(entries_of_blocks(events, blocks, entries));
    }
}

} // verus!
