//! Reading the answer to the discovery command: which ranges of slots a
//! node announces, and who serves them.
//!
//! The answer is an array with one array per range:
//! `[start, end, master, replica, ...]`, where each node is itself an array
//! that begins with an address and a port.

use crate::endpoint::{endpoint_name, node_endpoint};
use crate::reply::Reply;
use crate::slots::{names_view, slot_views, Slot, SlotView};
use vstd::prelude::*;

verus! {

/// What `String::from_utf8_lossy` makes of a byte string: the text it
/// encodes, with each invalid sequence replaced by U+FFFD.
pub uninterp spec fn utf8_lossy(bytes: Seq<u8>) -> Seq<char>;

/// Turns bytes into text with std's `String::from_utf8_lossy`, which reads
/// nothing but its argument. The contract names the result `utf8_lossy` and
/// claims nothing else of it.
#[verifier::external_body]
fn lossy_text(bytes: &[u8]) -> (text: String)
    ensures
        text@ == utf8_lossy(bytes@),
{
    String::from_utf8_lossy(bytes).into_owned()
}

/// The endpoint that a node entry names: the entry has to be an array of
/// at least two elements, a bulk string (the address) and an integer (the
/// port).
pub open spec fn node_of(entry: Reply) -> Option<Seq<char>> {
    match entry {
        Reply::Bulk(fields) => if fields@.len() >= 2 {
            match (fields@[0], fields@[1]) {
                (Reply::Data(address), Reply::Int(port)) => Some(
                    endpoint_name(false, utf8_lossy(address@), port as int),
                ),
                _ => None,
            }
        } else {
            None
        },
        _ => None,
    }
}

/// The endpoints that a list of node entries names, in order; entries that
/// name none are passed over.
pub open spec fn nodes_of(entries: Seq<Reply>) -> Seq<Seq<char>>
    decreases entries.len(),
{
    if entries.len() == 0 {
        Seq::empty()
    } else {
        let init = nodes_of(entries.drop_last());
        match node_of(entries.last()) {
            Some(name) => init.push(name),
            None => init,
        }
    }
}

/// The range that one item of the answer announces: the item needs at
/// least three elements, two integers (the bounds, of which the low 16
/// bits count) and then node entries of which at least one names an
/// endpoint. The first endpoint is the master, the others are replicas.
pub open spec fn range_of(item: Seq<Reply>) -> Option<SlotView> {
    if item.len() < 3 {
        None
    } else {
        match (item[0], item[1]) {
            (Reply::Int(start), Reply::Int(end)) => {
                let nodes = nodes_of(item.skip(2));
                if nodes.len() < 1 {
                    None
                } else {
                    Some(
                        SlotView {
                            start: start as u16,
                            end: end as u16,
                            master: nodes[0],
                            replicas: nodes.skip(1),
                        },
                    )
                }
            },
            _ => None,
        }
    }
}

/// The ranges that a list of items announces, in order. Reading stops at
/// the first item that is not an array; an array that announces no range
/// is passed over.
pub open spec fn ranges_of(items: Seq<Reply>) -> Seq<SlotView>
    decreases items.len(),
{
    if items.len() == 0 {
        Seq::empty()
    } else {
        match items.first() {
            Reply::Bulk(item) => {
                let rest = ranges_of(items.drop_first());
                match range_of(item@) {
                    Some(range) => seq![range] + rest,
                    None => rest,
                }
            },
            _ => Seq::empty(),
        }
    }
}

/// The ranges that an answer to the discovery command announces. An
/// answer that is not an array announces none.
pub open spec fn announced_slots(reply: Reply) -> Seq<SlotView> {
    match reply {
        Reply::Bulk(items) => ranges_of(items@),
        _ => Seq::empty(),
    }
}

/// Reads the endpoint that a node entry names.
fn read_node(entry: &Reply) -> (name: Option<String>)
    ensures
        match name {
            Some(text) => node_of(*entry) == Some(text@),
            None => node_of(*entry) is None,
        },
{
    match entry {
        Reply::Bulk(fields) => {
            if fields.len() < 2 {
                return None;
            }
            match &fields[0] {
                Reply::Data(address) => match &fields[1] {
                    Reply::Int(port) => {
                        let host = lossy_text(address.as_slice());
                        Some(node_endpoint(false, host.as_str(), *port))
                    },
                    _ => None,
                },
                _ => None,
            }
        },
        _ => None,
    }
}

/// Reads the endpoints that the entries of `item` from index 2 on name.
fn read_nodes(item: &Vec<Reply>) -> (nodes: Vec<String>)
    requires
        item@.len() >= 2,
    ensures
        names_view(nodes@) == nodes_of(item@.skip(2)),
{
    let mut nodes: Vec<String> = Vec::new();
    let mut i: usize = 2;
    let ghost entries = item@.skip(2);
    while i < item.len()
        invariant
            2 <= i <= item@.len(),
            entries == item@.skip(2),
            names_view(nodes@) == nodes_of(entries.take(i - 2)),
        decreases item@.len() - i,
    {
        proof {
            assert(entries.take(i - 1).drop_last() =~= entries.take(i - 2));
        }
        match read_node(&item[i]) {
            Some(name) => {
                nodes.push(name);
            },
            None => {},
        }
        i = i + 1;
    }
    proof {
        assert(entries.take(item@.len() - 2) =~= entries);
    }
    nodes
}

/// Reads the range that one item of the answer announces.
fn read_range(item: &Vec<Reply>) -> (range: Option<Slot>)
    ensures
        match range {
            Some(slot) => range_of(item@) == Some(slot@),
            None => range_of(item@) is None,
        },
{
    if item.len() < 3 {
        return None;
    }
    let start: u16 = match &item[0] {
        Reply::Int(start) => #[verifier::truncate]
        (*start as u16),
        _ => {
            return None;
        },
    };
    let end: u16 = match &item[1] {
        Reply::Int(end) => #[verifier::truncate]
        (*end as u16),
        _ => {
            return None;
        },
    };
    let mut nodes = read_nodes(item);
    if nodes.len() < 1 {
        return None;
    }
    let ghost names = names_view(nodes@);
    let replicas = nodes.split_off(1);
    let master = nodes.swap_remove(0);
    proof {
        assert(names_view(replicas@) =~= names.skip(1));
    }
    Some(Slot::new(start, end, master, replicas))
}

/// Reads the ranges that an answer to the discovery command announces.
pub fn slots_of_reply(reply: &Reply) -> (slots: Vec<Slot>)
    ensures
        slot_views(slots@) == announced_slots(*reply),
{
    let mut slots: Vec<Slot> = Vec::new();
    match reply {
        Reply::Bulk(items) => {
            let mut i: usize = 0;
            proof {
                assert(items@.skip(0) =~= items@);
            }
            while i < items.len()
                invariant
                    i <= items@.len(),
                    ranges_of(items@) == slot_views(slots@) + ranges_of(items@.skip(i as int)),
                ensures
                    ranges_of(items@) == slot_views(slots@),
                decreases items@.len() - i,
            {
                let ghost before = slot_views(slots@);
                let ghost tail = items@.skip(i as int);
                proof {
                    assert(tail.drop_first() =~= items@.skip(i + 1));
                }
                match &items[i] {
                    Reply::Bulk(item) => {
                        match read_range(item) {
                            Some(slot) => {
                                slots.push(slot);
                                proof {
                                    assert(before.push(slot@) + ranges_of(items@.skip(i + 1))
                                        =~= before + (seq![slot@] + ranges_of(
                                        items@.skip(i + 1),
                                    )));
                                }
                            },
                            None => {},
                        }
                    },
                    _ => {
                        break ;
                    },
                }
                i = i + 1;
            }
        },
        _ => {},
    }
    slots
}

} // verus!
