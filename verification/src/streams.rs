//! What stands where in a stream of XML events: the elements that are open, the
//! texts directly inside them, and the blocks that an element makes.
//!
//! Everything here is said of a stream as a whole, by the places of its events.
use vstd::prelude::*;
use vstd::utf8::{decode_utf8, encode_utf8, encode_utf8_decode_utf8, valid_utf8};

use crate::numbers::is_amount;
use crate::text::trimmed;
use crate::xml::{attribute_text, XmlItem};

verus! {

// ── places ─────────────────────────────────────────────────────────────────

/// The names of the elements that are open before the `n`-th event, the innermost
/// last.
pub open spec fn open_elements(events: Seq<XmlItem>, n: int) -> Seq<Seq<u8>>
    decreases n,
{
    if n <= 0 {
        Seq::empty()
    } else {
        let outer = open_elements(events, n - 1);
        match events[n - 1] {
            XmlItem::Open(t) => if t.empty {
                outer
            } else {
                outer.push(t.name)
            },
            XmlItem::Close(_) => if outer.len() > 0 {
                outer.drop_last()
            } else {
                outer
            },
            _ => outer,
        }
    }
}

/// The character data at a place, without the white space around it; `None` where
/// nothing is left, or the event is another one.
pub open spec fn text_at(events: Seq<XmlItem>, i: int) -> Option<Seq<char>> {
    match events[i] {
        XmlItem::Text(Some(raw)) => if trimmed(raw).len() > 0 {
            Some(trimmed(raw))
        } else {
            None
        },
        _ => None,
    }
}

/// The text at each place that is directly inside an element of this name.
pub open spec fn texts_in(events: Seq<XmlItem>, tag: Seq<char>) -> spec_fn(int) -> Option<
    Seq<char>,
> {
    |i: int|
        {
            let path = open_elements(events, i);
            if path.len() > 0 && path.last() == encode_utf8(tag) {
                text_at(events, i)
            } else {
                None
            }
        }
}

/// The number text at each place that is directly inside an element of this name.
pub open spec fn amounts_in(events: Seq<XmlItem>, tag: Seq<char>) -> spec_fn(int) -> Option<
    Seq<char>,
> {
    |i: int|
        {
            let path = open_elements(events, i);
            match text_at(events, i) {
                Some(x) if path.len() > 0 && path.last() == encode_utf8(tag) && is_amount(x) => Some(
                    x,
                ),
                _ => None,
            }
        }
}

/// The text at each place that is directly inside an element `tag` whose own
/// parent is an element `parent`.
pub open spec fn texts_below(
    events: Seq<XmlItem>,
    parent: Seq<char>,
    tag: Seq<char>,
) -> spec_fn(int) -> Option<Seq<char>> {
    |i: int|
        {
            let path = open_elements(events, i);
            if path.len() >= 2 && path[path.len() - 1] == encode_utf8(tag) && path[path.len() - 2]
                == encode_utf8(parent) {
                text_at(events, i)
            } else {
                None
            }
        }
}

/// The number text at each place that is directly inside an element `tag` whose
/// own parent is an element `parent`.
pub open spec fn amounts_below(
    events: Seq<XmlItem>,
    parent: Seq<char>,
    tag: Seq<char>,
) -> spec_fn(int) -> Option<Seq<char>> {
    |i: int|
        {
            let path = open_elements(events, i);
            match text_at(events, i) {
                Some(x) if path.len() >= 2 && path[path.len() - 1] == encode_utf8(tag)
                    && path[path.len() - 2] == encode_utf8(parent) && is_amount(x) => Some(x),
                _ => None,
            }
        }
}

/// The value of this attribute at each place where an element of this name opens.
pub open spec fn attributes_of(
    events: Seq<XmlItem>,
    tag: Seq<char>,
    key: Seq<char>,
) -> spec_fn(int) -> Option<Seq<char>> {
    |i: int|
        match events[i] {
            XmlItem::Open(t) if t.name == encode_utf8(tag) => attribute_text(
                t.attributes,
                encode_utf8(key),
            ),
            _ => None,
        }
}

// ── first and last ─────────────────────────────────────────────────────────

/// `r` is the first value that is found at the places from `lo` up to `hi`.
pub open spec fn is_first(
    found: spec_fn(int) -> Option<Seq<char>>,
    lo: int,
    hi: int,
    r: Option<Seq<char>>,
) -> bool {
    match r {
        Some(x) => exists|i: int| #[trigger] is_first_at(found, lo, hi, x, i),
        None => forall|i: int| lo <= i < hi ==> (#[trigger] found(i)) is None,
    }
}

/// `x` is found at `i`, and nothing is found before.
pub open spec fn is_first_at(
    found: spec_fn(int) -> Option<Seq<char>>,
    lo: int,
    hi: int,
    x: Seq<char>,
    i: int,
) -> bool {
    lo <= i < hi && found(i) == Some(x) && forall|j: int|
        lo <= j < i ==> (#[trigger] found(j)) is None
}

/// `i` is the last place from `lo` up to `hi` at which something is found.
pub open spec fn is_last_place(
    found: spec_fn(int) -> Option<Seq<char>>,
    lo: int,
    hi: int,
    i: int,
) -> bool {
    lo <= i < hi && found(i) is Some && forall|j: int|
        i < j < hi ==> (#[trigger] found(j)) is None
}

pub proof fn lemma_first_step(
    found: spec_fn(int) -> Option<Seq<char>>,
    lo: int,
    hi: int,
    r: Option<Seq<char>>,
)
    requires
        lo <= hi,
        is_first(found, lo, hi, r),
    ensures
        is_first(
            found,
            lo,
            hi + 1,
            if r is Some {
                r
            } else {
                found(hi)
            },
        ),
{
    match r {
        Some(x) => {
            let i = choose|i: int| #[trigger] is_first_at(found, lo, hi, x, i);
            assert(is_first_at(found, lo, hi + 1, x, i));
        },
        None => {
            if found(hi) is Some {
                assert(is_first_at(found, lo, hi + 1, found(hi)->0, hi));
            }
        },
    }
}

/// A found value and finding nothing exclude each other.
pub proof fn lemma_first_or_none(
    found: spec_fn(int) -> Option<Seq<char>>,
    lo: int,
    hi: int,
    r: Option<Seq<char>>,
)
    requires
        is_first(found, lo, hi, r),
    ensures
        is_first(found, lo, hi, None) <==> r is None,
{
    if let Some(x) = r {
        let i = choose|i: int| #[trigger] is_first_at(found, lo, hi, x, i);
        assert(found(i) is Some);
    }
}

/// A text, or none where it is empty.
pub open spec fn nonempty(s: Seq<char>) -> Option<Seq<char>> {
    if s.len() == 0 {
        None
    } else {
        Some(s)
    }
}

// ── blocks ─────────────────────────────────────────────────────────────────

/// The event opens an element of this name.
pub open spec fn opens(e: XmlItem, tag: Seq<char>) -> bool {
    e matches XmlItem::Open(t) && !t.empty && t.name == encode_utf8(tag)
}

/// The event closes an element of this name.
pub open spec fn closes(e: XmlItem, tag: Seq<char>) -> bool {
    e matches XmlItem::Close(name) && name == encode_utf8(tag)
}

/// An element of this name opens at `a`, and none opens or closes from there up to
/// `n`.
pub open spec fn open_since(events: Seq<XmlItem>, tag: Seq<char>, a: int, n: int) -> bool {
    &&& 0 <= a < n <= events.len()
    &&& opens(events[a], tag)
    &&& forall|k: int|
        a < k < n ==> !opens(#[trigger] events[k], tag) && !closes(events[k], tag)
}

/// The events from `a` to `b` are a block: an element of this name opens at `a`
/// and closes at `b`, with no other of its name between.
pub open spec fn is_block(events: Seq<XmlItem>, tag: Seq<char>, a: int, b: int) -> bool {
    open_since(events, tag, a, b) && b < events.len() && closes(events[b], tag)
}

/// `blocks` are the blocks that close before `n` and are to be kept, in order:
/// all of them, and no others.
pub open spec fn lists_blocks(
    events: Seq<XmlItem>,
    tag: Seq<char>,
    keep: spec_fn((int, int)) -> bool,
    blocks: Seq<(int, int)>,
    n: int,
) -> bool {
    &&& forall|k: int|
        0 <= k < blocks.len() ==> is_block(events, tag, (#[trigger] blocks[k]).0, blocks[k].1)
            && blocks[k].1 < n && keep(blocks[k])
    &&& forall|i: int, j: int|
        0 <= i < j < blocks.len() ==> (#[trigger] blocks[i]).1 < (#[trigger] blocks[j]).1
    &&& forall|a: int, b: int| #[trigger]
        is_block(events, tag, a, b) && b < n && keep((a, b)) ==> blocks.contains((a, b))
}

/// Where the block that is open before the `n`-th event began, if one is.
pub open spec fn current_block(
    events: Seq<XmlItem>,
    tag: Seq<char>,
    n: int,
    cur: Option<int>,
) -> bool {
    match cur {
        Some(a) => open_since(events, tag, a, n),
        None => forall|a: int| !#[trigger] open_since(events, tag, a, n),
    }
}

/// The open block after the `n`-th event.
pub open spec fn next_block(
    events: Seq<XmlItem>,
    tag: Seq<char>,
    n: int,
    cur: Option<int>,
) -> Option<int> {
    if opens(events[n], tag) {
        Some(n)
    } else if closes(events[n], tag) {
        None
    } else {
        cur
    }
}

/// The blocks after the `n`-th event.
pub open spec fn next_blocks(
    events: Seq<XmlItem>,
    tag: Seq<char>,
    keep: spec_fn((int, int)) -> bool,
    blocks: Seq<(int, int)>,
    n: int,
    cur: Option<int>,
) -> Seq<(int, int)> {
    match cur {
        Some(a) if closes(events[n], tag) && keep((a, n)) => blocks.push((a, n)),
        _ => blocks,
    }
}

pub proof fn lemma_blocks_start(
    events: Seq<XmlItem>,
    tag: Seq<char>,
    keep: spec_fn((int, int)) -> bool,
)
    ensures
        lists_blocks(events, tag, keep, Seq::empty(), 0),
        current_block(events, tag, 0, None),
{
}

pub proof fn lemma_blocks_step(
    events: Seq<XmlItem>,
    tag: Seq<char>,
    keep: spec_fn((int, int)) -> bool,
    blocks: Seq<(int, int)>,
    n: int,
    cur: Option<int>,
)
    requires
        0 <= n < events.len(),
        lists_blocks(events, tag, keep, blocks, n),
        current_block(events, tag, n, cur),
    ensures
        lists_blocks(
            events,
            tag,
            keep,
            next_blocks(events, tag, keep, blocks, n, cur),
            n + 1,
        ),
        current_block(events, tag, n + 1, next_block(events, tag, n, cur)),
{
    let out = next_blocks(events, tag, keep, blocks, n, cur);
    assert forall|a: int, b: int| #[trigger]
        is_block(events, tag, a, b) && b < n + 1 && keep((a, b)) implies out.contains((a, b)) by {
        if b < n {
            assert(blocks.contains((a, b)));
            let k = choose|k: int| 0 <= k < blocks.len() && blocks[k] == (a, b);
            assert(out[k] == (a, b));
        } else {
            assert(open_since(events, tag, a, n));
            let c = cur->0;
            assert(open_since(events, tag, c, n));
            if a < c {
                assert(!opens(events[c], tag));
            } else if c < a {
                assert(!opens(events[a], tag));
            }
            assert(out[blocks.len() as int] == (a, n));
        }
    }
    let next = next_block(events, tag, n, cur);
    if next is None {
        assert forall|a: int| !#[trigger] open_since(events, tag, a, n + 1) by {
            if open_since(events, tag, a, n + 1) {
                if a == n {
                    assert(opens(events[n], tag));
                } else {
                    assert(!closes(events[n], tag));
                    assert(open_since(events, tag, a, n));
                }
            }
        }
    }
}

// ── names ──────────────────────────────────────────────────────────────────

/// Different names are different bytes.
pub proof fn lemma_names_differ(a: Seq<char>, b: Seq<char>)
    requires
        a != b,
    ensures
        encode_utf8(a) != encode_utf8(b),
{
    encode_utf8_decode_utf8(a);
    encode_utf8_decode_utf8(b);
}

/// The value of an attribute is that of the first well-formed one with its key,
/// where it is UTF-8; a later one of the same key does not count.
pub proof fn law_attribute(
    attributes: Seq<Option<(Seq<u8>, Seq<u8>)>>,
    key: Seq<u8>,
    i: int,
)
    requires
        0 <= i < attributes.len(),
        attributes[i] matches Some((k, _)) && k == key,
        forall|j: int|
            0 <= j < i ==> !((#[trigger] attributes[j]) matches Some((k, _)) && k == key),
    ensures
        attribute_text(attributes, key) == (if valid_utf8((attributes[i]->0).1) {
            Some(decode_utf8((attributes[i]->0).1))
        } else {
            None
        }),
    decreases i,
{
    if i > 0 {
        let rest = attributes.drop_first();
        assert(!(attributes[0] matches Some((k, _)) && k == key));
        assert forall|j: int| 0 <= j < i - 1 implies !((#[trigger] rest[j]) matches Some((k, _)) && k
            == key) by {
            assert(rest[j] == attributes[j + 1]);
        }
        law_attribute(rest, key, i - 1);
    }
}

/// Without an attribute of its key there is no value.
pub proof fn law_no_attribute(attributes: Seq<Option<(Seq<u8>, Seq<u8>)>>, key: Seq<u8>)
    requires
        forall|j: int|
            0 <= j < attributes.len() ==> !((#[trigger] attributes[j]) matches Some((k, _)) && k
                == key),
    ensures
        attribute_text(attributes, key) is None,
    decreases attributes.len(),
{
    if attributes.len() > 0 {
        let rest = attributes.drop_first();
        assert(!(attributes[0] matches Some((k, _)) && k == key));
        assert forall|j: int| 0 <= j < rest.len() implies !((#[trigger] rest[j]) matches Some(
            (k, _),
        ) && k == key) by {
            assert(rest[j] == attributes[j + 1]);
        }
        law_no_attribute(rest, key);
    }
}

} // verus!
