//! The discovery run: the candidate hosts of the subnet, the hosts that
//! answered a probe, and the peers that answered the handshake.
//!
//! Probes and handshakes are the caller's work, done concurrently and in any
//! order; each yields one flag per address, and the library keeps the
//! addresses whose flag is set.
use vstd::prelude::*;

use crate::address::{Address, Subnet};
use crate::listing::{resolve_own_network, own_address, ListingFormat, ResolutionError};

verus! {

/// The items whose flag is set, in their order; `flags[k]` belongs to `items[k]`.
pub open spec fn kept(items: Seq<Address>, flags: Seq<bool>) -> Seq<Address>
    decreases items.len(),
{
    if items.len() == 0 {
        Seq::empty()
    } else {
        let n = items.len() - 1;
        let front = kept(items.take(n as int), flags);
        if flags[n as int] {
            front.push(items[n as int])
        } else {
            front
        }
    }
}

/// A host `.1` to `.254` of the subnet, other than this host's own address.
pub open spec fn is_candidate(subnet: Subnet, own: Address, x: Address) -> bool {
    subnet.contains(x) && 1 <= x.d <= 254 && x != own
}

/// Every kept item is one of the items, with its flag set.
pub proof fn lemma_kept_within(items: Seq<Address>, flags: Seq<bool>)
    ensures
        forall|k: int|
            0 <= k < kept(items, flags).len() ==> exists|j: int|
                0 <= j < items.len() && items[j] == #[trigger] kept(items, flags)[k] && flags[j],
    decreases items.len(),
{
    if items.len() > 0 {
        let n = items.len() - 1;
        let front = items.take(n as int);
        lemma_kept_within(front, flags);
        assert forall|k: int| 0 <= k < kept(items, flags).len() implies exists|j: int|
            0 <= j < items.len() && items[j] == #[trigger] kept(items, flags)[k] && flags[j] by {
            if k < kept(front, flags).len() {
                let j = choose|j: int|
                    0 <= j < front.len() && front[j] == kept(front, flags)[k] && flags[j];
                assert(items[j] == front[j]);
            } else {
                assert(items[n as int] == kept(items, flags)[k]);
            }
        }
    }
}

/// Every item whose flag is set is kept.
pub proof fn lemma_kept_complete(items: Seq<Address>, flags: Seq<bool>)
    ensures
        forall|j: int| 0 <= j < items.len() && flags[j] ==> kept(items, flags).contains(items[j]),
    decreases items.len(),
{
    if items.len() > 0 {
        let n = items.len() - 1;
        let front = items.take(n as int);
        lemma_kept_complete(front, flags);
        assert forall|j: int| 0 <= j < items.len() && flags[j] implies kept(
            items,
            flags,
        ).contains(items[j]) by {
            if j < n {
                assert(front[j] == items[j]);
                let k = choose|k: int|
                    0 <= k < kept(front, flags).len() && kept(front, flags)[k] == front[j];
                assert(kept(items, flags)[k] == items[j]);
            } else {
                let last = kept(items, flags).len() - 1;
                assert(kept(items, flags)[last] == items[j]);
            }
        }
    }
}

/// A probe keeps only candidates: an address that was not a candidate never
/// comes out as reachable, whatever the probes answered.
pub proof fn lemma_reachable_are_candidates(candidates: Seq<Address>, up: Seq<bool>, x: Address)
    requires
        kept(candidates, up).contains(x),
    ensures
        candidates.contains(x),
{
    lemma_kept_within(candidates, up);
    let k = choose|k: int| 0 <= k < kept(candidates, up).len() && kept(candidates, up)[k] == x;
    let j = choose|j: int|
        0 <= j < candidates.len() && candidates[j] == kept(candidates, up)[k] && up[j];
    assert(candidates[j] == x);
}

/// Discovery against a network that does not change is repeatable. When the
/// probes of two runs both answer by the same set of live hosts, and their
/// handshakes by the same set of hosts that run the application, the two
/// runs confirm the same peers: exactly the candidates in both sets.
pub proof fn lemma_discovery_repeatable(
    candidates: Seq<Address>,
    live: Set<Address>,
    running: Set<Address>,
    up1: Seq<bool>,
    here1: Seq<bool>,
    up2: Seq<bool>,
    here2: Seq<bool>,
)
    requires
        up1.len() == candidates.len(),
        up2.len() == candidates.len(),
        forall|k: int| 0 <= k < candidates.len() ==> up1[k] == live.contains(candidates[k]),
        forall|k: int| 0 <= k < candidates.len() ==> up2[k] == live.contains(candidates[k]),
        here1.len() == kept(candidates, up1).len(),
        here2.len() == kept(candidates, up2).len(),
        forall|k: int|
            0 <= k < here1.len() ==> here1[k] == running.contains(kept(candidates, up1)[k]),
        forall|k: int|
            0 <= k < here2.len() ==> here2[k] == running.contains(kept(candidates, up2)[k]),
    ensures
        kept(kept(candidates, up1), here1) == kept(kept(candidates, up2), here2),
        forall|x: Address|
            kept(kept(candidates, up1), here1).contains(x) <==> candidates.contains(x)
                && live.contains(x) && running.contains(x),
{
    assert(up1 =~= up2);
    assert(here1 =~= here2);
    let reachable = kept(candidates, up1);
    let peers = kept(reachable, here1);
    lemma_kept_within(candidates, up1);
    lemma_kept_within(reachable, here1);
    lemma_kept_complete(candidates, up1);
    lemma_kept_complete(reachable, here1);
    assert forall|x: Address| peers.contains(x) <==> candidates.contains(x) && live.contains(x)
        && running.contains(x) by {
        if peers.contains(x) {
            let k = choose|k: int| 0 <= k < peers.len() && peers[k] == x;
            let j = choose|j: int| 0 <= j < reachable.len() && reachable[j] == peers[k] && here1[j];
            let i = choose|i: int|
                0 <= i < candidates.len() && candidates[i] == reachable[j] && up1[i];
            assert(candidates[i] == x);
        }
        if candidates.contains(x) && live.contains(x) && running.contains(x) {
            let i = choose|i: int| 0 <= i < candidates.len() && candidates[i] == x;
            assert(up1[i]);
            let j = choose|j: int| 0 <= j < reachable.len() && reachable[j] == candidates[i];
            assert(here1[j]);
        }
    }
}

/// The addresses whose flag is set, in order: the hosts that answered a
/// probe, or the reachable hosts that answered the handshake.
pub fn select_flagged(items: &Vec<Address>, flags: &Vec<bool>) -> (r: Vec<Address>)
    requires
        flags@.len() == items@.len(),
    ensures
        r@ == kept(items@, flags@),
        forall|x: Address| r@.contains(x) ==> items@.contains(x),
{
    let mut r: Vec<Address> = Vec::new();
    let mut i: usize = 0;
    while i < items.len()
        invariant
            flags@.len() == items@.len(),
            i <= items@.len(),
            r@ == kept(items@.take(i as int), flags@),
        decreases items@.len() - i,
    {
        assert(items@.take(i + 1).take(i as int) =~= items@.take(i as int));
        if flags[i] {
            r.push(items[i]);
        }
        i = i + 1;
    }
    assert(items@.take(items@.len() as int) =~= items@);
    proof {
        assert forall|x: Address| r@.contains(x) implies items@.contains(x) by {
            lemma_reachable_are_candidates(items@, flags@, x);
        }
    }
    r
}

/// The hosts `.1` to `.254` of the subnet, in ascending order, without this
/// host's own address.
pub fn candidate_hosts(subnet: Subnet, own: Address) -> (r: Vec<Address>)
    ensures
        forall|k: int| 0 <= k < r@.len() ==> is_candidate(subnet, own, #[trigger] r@[k]),
        forall|k: int, l: int| 0 <= k < l < r@.len() ==> r@[k].d < r@[l].d,
        forall|x: Address| is_candidate(subnet, own, x) ==> r@.contains(x),
        r@.len() == if subnet.contains(own) && 1 <= own.d <= 254 {
            253int
        } else {
            254int
        },
{
    let mut r: Vec<Address> = Vec::new();
    let mut h: u8 = 1;
    let ghost skipped: bool = subnet.contains(own) && 1 <= own.d <= 254;
    while h <= 254
        invariant
            1 <= h <= 255,
            skipped == (subnet.contains(own) && 1 <= own.d <= 254),
            forall|k: int| 0 <= k < r@.len() ==> is_candidate(subnet, own, #[trigger] r@[k]),
            forall|k: int| 0 <= k < r@.len() ==> #[trigger] r@[k].d < h,
            forall|k: int, l: int| 0 <= k < l < r@.len() ==> r@[k].d < r@[l].d,
            forall|x: Address| is_candidate(subnet, own, x) && x.d < h ==> r@.contains(x),
            r@.len() == if skipped && own.d < h {
                h - 2
            } else {
                h - 1
            },
        decreases 255 - h,
    {
        let x = Address { a: subnet.a, b: subnet.b, c: subnet.c, d: h };
        if x != own {
            let ghost before = r@;
            r.push(x);
            proof {
                assert forall|y: Address| is_candidate(subnet, own, y) && y.d < h + 1 implies r@.contains(y) by {
                    if y.d == h {
                        assert(y == x);
                        assert(r@[r@.len() - 1] == x);
                    } else {
                        assert(before.contains(y));
                        let k = choose|k: int| 0 <= k < before.len() && before[k] == y;
                        assert(r@[k] == y);
                    }
                }
            }
        } else {
            proof {
                assert forall|y: Address| is_candidate(subnet, own, y) && y.d < h + 1 implies r@.contains(y) by {
                    assert(y.d != h);
                }
            }
        }
        h = h + 1;
    }
    r
}

/// The candidates of a discovery run: resolve this host's own network from
/// the interface listing (`None` when the operating system could not be
/// asked), then list the hosts of its /24 other than this host.
pub fn scan_candidates(listing: Option<&[u8]>, format: ListingFormat) -> (r: Result<
    Vec<Address>,
    ResolutionError,
>)
    ensures
        listing is None ==> (r matches Err(e) && e == ResolutionError::PlatformQueryFailed),
        listing matches Some(s) ==> match own_address(s@, format) {
            None => (r matches Err(e) && e == ResolutionError::NoPrivateAddressFound),
            Some(own) => (r matches Ok(v) && forall|x: Address|
                v@.contains(x) <==> is_candidate(own.subnet_of(), own, x)),
        },
{
    match resolve_own_network(listing, format) {
        Err(e) => Err(e),
        Ok((own, subnet)) => {
            let v = candidate_hosts(subnet, own);
            proof {
                assert forall|x: Address| v@.contains(x) implies is_candidate(subnet, own, x) by {
                    let k = choose|k: int| 0 <= k < v@.len() && v@[k] == x;
                    assert(is_candidate(subnet, own, v@[k]));
                }
            }
            Ok(v)
        },
    }
}

} // verus!
