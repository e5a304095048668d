//! What the GPDMA makes of a circular descriptor chain.
//!
//! The GPDMA processes one linked-list item at a time. It takes an item's
//! source address when it loads the item, and when the item is done it follows
//! the item's link: the upper half of the next address is that of the table,
//! the lower half comes from the link. An item in mode
//! [`TransferCompleteMode::EachLinkedListItem`] raises a transfer-complete
//! event when it is done; an item in mode
//! [`TransferCompleteMode::LastLinkedListItem`] would only on the end of the
//! list, and a circular list has none.
//!
//! This is the model that the laws of the linked-list backends speak of.

use vstd::prelude::*;

use crate::bcm::lemma_count_up;
use crate::gpdma::{in_one_region, item_offset_of, TransferCompleteMode};

verus! {

/// What decides the walk through a chain: where an item reads from, what
/// follows it, and whether it raises an event.
pub struct ChainNode {
    /// Source address.
    pub sar: u32,
    /// Lower 16 address bits of the next item.
    pub link: Option<u16>,
    /// When the item raises a transfer-complete event.
    pub transfer_complete_mode: TransferCompleteMode,
}

/// The item that the GPDMA is processing, and the source address it took when
/// it loaded that item.
pub struct Walk {
    /// Index of the item in flight.
    pub at: int,
    /// Source address in use.
    pub src: u32,
}

/// The nodes form a ring in a table at `table_addr` whose items take
/// `item_bytes` each: every node links to the one behind it, the terminal
/// node to the first one, and the terminal node alone raises an event.
pub open spec fn circular(nodes: Seq<ChainNode>, table_addr: usize, item_bytes: int) -> bool {
    &&& nodes.len() > 0
    &&& item_bytes > 0
    &&& in_one_region(table_addr, item_bytes * nodes.len())
    &&& forall|i: int|
        0 <= i < nodes.len() ==> {
            let terminal = i + 1 == nodes.len();
            &&& (#[trigger] nodes[i]).link == Some(
                item_offset_of(
                    table_addr,
                    item_bytes,
                    if terminal {
                        0
                    } else {
                        i + 1
                    },
                ),
            )
            &&& nodes[i].transfer_complete_mode == (if terminal {
                TransferCompleteMode::EachLinkedListItem
            } else {
                TransferCompleteMode::LastLinkedListItem
            })
        }
}

/// The address that a link leads to from a table at `table_addr`.
pub open spec fn linked_addr(table_addr: usize, link: u16) -> int {
    table_addr as int / 0x1_0000 * 0x1_0000 + link
}

/// Index of the item that node `at` links to.
pub open spec fn linked_index(
    nodes: Seq<ChainNode>,
    table_addr: usize,
    item_bytes: int,
    at: int,
) -> int {
    (linked_addr(table_addr, nodes[at].link->0) - table_addr) / item_bytes
}

/// The walk after the item in flight is done and the next one is loaded.
pub open spec fn walk_step(
    nodes: Seq<ChainNode>,
    table_addr: usize,
    item_bytes: int,
    walk: Walk,
) -> Walk {
    let next = linked_index(nodes, table_addr, item_bytes, walk.at);
    Walk { at: next, src: nodes[next].sar }
}

/// The walk after `n` items are done.
pub open spec fn walk_after(
    nodes: Seq<ChainNode>,
    table_addr: usize,
    item_bytes: int,
    walk: Walk,
    n: nat,
) -> Walk
    decreases n,
{
    if n == 0 {
        walk
    } else {
        walk_step(
            nodes,
            table_addr,
            item_bytes,
            walk_after(nodes, table_addr, item_bytes, walk, (n - 1) as nat),
        )
    }
}

/// Number of transfer-complete events raised while `n` items are done.
pub open spec fn events(
    nodes: Seq<ChainNode>,
    table_addr: usize,
    item_bytes: int,
    walk: Walk,
    n: nat,
) -> nat
    decreases n,
{
    if n == 0 {
        0
    } else {
        let before = (n - 1) as nat;
        let done = walk_after(nodes, table_addr, item_bytes, walk, before).at;
        events(nodes, table_addr, item_bytes, walk, before) + (if nodes[done].transfer_complete_mode
            == TransferCompleteMode::EachLinkedListItem {
            1nat
        } else {
            0nat
        })
    }
}

/// Each link leads to the node behind, and the terminal node's to the first.
pub proof fn lemma_links_lead_on(
    nodes: Seq<ChainNode>,
    table_addr: usize,
    item_bytes: int,
    at: int,
)
    requires
        circular(nodes, table_addr, item_bytes),
        0 <= at < nodes.len(),
    ensures
        linked_index(nodes, table_addr, item_bytes, at) == (if at + 1 == nodes.len() {
            0
        } else {
            at + 1
        }),
{
    let next = if at + 1 == nodes.len() {
        0
    } else {
        at + 1
    };
    let target = table_addr + item_bytes * next;
    let end = table_addr + item_bytes * nodes.len() - 1;
    assert(0 <= item_bytes * next && item_bytes * next + item_bytes <= item_bytes * nodes.len())
        by (nonlinear_arith)
        requires
            0 <= next < nodes.len(),
            item_bytes > 0,
    ;
    assert(target / 0x1_0000 == table_addr as int / 0x1_0000);
    assert(nodes[at].link == Some(item_offset_of(table_addr, item_bytes, next)));
    assert(linked_addr(table_addr, nodes[at].link->0) == target);
    vstd::arithmetic::div_mod::lemma_div_multiples_vanish(next, item_bytes);
    assert(item_bytes * next == next * item_bytes) by (nonlinear_arith);
}

/// The walk goes round and round: after `n` items it stands `n` nodes on,
/// modulo the length of the ring; every item is read from the source address
/// that its descriptor held when it was loaded; and an event has been raised
/// each time the walk passed the terminal node — exactly one per round.
pub proof fn law_walk_goes_round(
    nodes: Seq<ChainNode>,
    table_addr: usize,
    item_bytes: int,
    walk: Walk,
    n: nat,
)
    requires
        circular(nodes, table_addr, item_bytes),
        0 <= walk.at < nodes.len(),
    ensures
        ({
            let len = nodes.len() as int;
            let now = walk_after(nodes, table_addr, item_bytes, walk, n);
            &&& now.at == (walk.at + n) % len
            &&& 0 <= now.at < len
            &&& n > 0 ==> now.src == nodes[now.at].sar
            &&& events(nodes, table_addr, item_bytes, walk, n) == (walk.at + n) / len
        }),
    decreases n,
{
    let len = nodes.len() as int;
    if n == 0 {
        vstd::arithmetic::div_mod::lemma_small_mod(walk.at as nat, len as nat);
        vstd::arithmetic::div_mod::lemma_basic_div(walk.at, len);
    } else {
        let before = (n - 1) as nat;
        law_walk_goes_round(nodes, table_addr, item_bytes, walk, before);
        let prev = walk_after(nodes, table_addr, item_bytes, walk, before);
        lemma_links_lead_on(nodes, table_addr, item_bytes, prev.at);
        lemma_count_up(walk.at + before, len);
        assert(nodes[prev.at].link is Some);
    }
}

/// The chain raises exactly one event per frame, wherever the frame is
/// started.
pub proof fn law_one_event_per_frame(
    nodes: Seq<ChainNode>,
    table_addr: usize,
    item_bytes: int,
    walk: Walk,
)
    requires
        circular(nodes, table_addr, item_bytes),
        0 <= walk.at < nodes.len(),
    ensures
        events(nodes, table_addr, item_bytes, walk, nodes.len()) == 1,
{
    law_walk_goes_round(nodes, table_addr, item_bytes, walk, nodes.len());
    vstd::arithmetic::div_mod::lemma_fundamental_div_mod_converse(
        walk.at + nodes.len(),
        nodes.len() as int,
        1,
        walk.at,
    );
}

/// Waiting for two transfer-complete interrupts drains the old framebuffer.
///
/// The descriptors are rewritten while the GPDMA is somewhere in the ring,
/// with an item in flight that still reads from an old source address. Of the
/// interrupts counted from then on, one may have been raised before the
/// rewrite and served after it; the second cannot. Once two have been
/// counted, the GPDMA reads from the rewritten addresses, and it does so ever
/// after.
pub proof fn law_two_interrupts_drain_old_sources(
    nodes: Seq<ChainNode>,
    table_addr: usize,
    item_bytes: int,
    walk: Walk,
    raised_before: nat,
    n: nat,
    m: nat,
)
    requires
        circular(nodes, table_addr, item_bytes),
        0 <= walk.at < nodes.len(),
        raised_before <= 1,
        raised_before + events(nodes, table_addr, item_bytes, walk, n) >= 2,
        m >= n,
    ensures
        ({
            let now = walk_after(nodes, table_addr, item_bytes, walk, m);
            0 <= now.at < nodes.len() && now.src == nodes[now.at].sar
        }),
{
    law_walk_goes_round(nodes, table_addr, item_bytes, walk, m);
    assert(n > 0);
}

} // verus!
