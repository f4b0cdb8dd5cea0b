//! One update cycle: after every logical address has been refreshed, which
//! targets to update with which addresses, and whether the persistent state
//! must be rewritten.

use vstd::prelude::*;
use vstd::utf8::encode_utf8;
use crate::addr::IpAddress;
use crate::dynamic_ip::DynamicIp;
use crate::persistence::{PersistentState, STATE_VERSION};
use crate::services::opt_seq;

verus! {

/// An update to make in this cycle: the target (by index) and the known
/// addresses of what it follows.
#[derive(Clone, Debug, PartialEq, Eq)]
pub struct ServiceCall {
    pub target: usize,
    pub addresses: Vec<IpAddress>,
}

/// The decisions of one cycle.
#[derive(Clone, Debug, PartialEq, Eq)]
pub struct CyclePlan {
    /// The updates to make, in target order.
    pub calls: Vec<ServiceCall>,
    /// Whether the persistent state must be rewritten.
    pub persist: bool,
}

/// Every dependency names an existing logical address.
pub open spec fn deps_valid(n: nat, deps: Seq<Vec<usize>>) -> bool {
    forall|t: int, k: int| 0 <= t < deps.len() && 0 <= k < deps[t]@.len() ==> #[trigger] deps[t]@[k] < n
}

/// Some address that `d` follows changed.
pub open spec fn target_dirty(ips: Seq<DynamicIp>, d: Seq<usize>) -> bool {
    exists|k: int| 0 <= k < d.len() && #[trigger] ips[d[k] as int].dirty
}

/// The known addresses of what `d` follows, in order; unresolved ones are
/// left out.
pub open spec fn known_addresses(ips: Seq<DynamicIp>, d: Seq<usize>) -> Seq<IpAddress>
    decreases d.len(),
{
    if d.len() == 0 {
        Seq::empty()
    } else {
        known_addresses(ips, d.drop_last()) + opt_seq(ips[d.last() as int].address)
    }
}

/// The updates of a cycle: each target, in order, that follows a changed
/// address, with the known addresses of what it follows (possibly none).
pub open spec fn planned_calls(ips: Seq<DynamicIp>, deps: Seq<Seq<usize>>) -> Seq<(usize, Seq<IpAddress>)>
    decreases deps.len(),
{
    if deps.len() == 0 {
        Seq::empty()
    } else {
        let t = (deps.len() - 1) as usize;
        let before = planned_calls(ips, deps.drop_last());
        if target_dirty(ips, deps.last()) {
            before.push((t, known_addresses(ips, deps.last())))
        } else {
            before
        }
    }
}

/// Some logical address changed in this cycle.
pub open spec fn any_dirty(ips: Seq<DynamicIp>) -> bool {
    exists|i: int| 0 <= i < ips.len() && #[trigger] ips[i].dirty
}

pub open spec fn deps_view(deps: Seq<Vec<usize>>) -> Seq<Seq<usize>> {
    deps.map_values(|d: Vec<usize>| d@)
}

pub open spec fn calls_view(calls: Seq<ServiceCall>) -> Seq<(usize, Seq<IpAddress>)> {
    calls.map_values(|c: ServiceCall| (c.target, c.addresses@))
}

fn is_target_dirty(ips: &Vec<DynamicIp>, d: &Vec<usize>) -> (r: bool)
    requires
        forall|k: int| 0 <= k < d@.len() ==> #[trigger] d@[k] < ips@.len(),
    ensures
        r == target_dirty(ips@, d@),
{
    let mut k: usize = 0;
    while k < d.len()
        invariant
            k <= d@.len(),
            forall|k: int| 0 <= k < d@.len() ==> #[trigger] d@[k] < ips@.len(),
            forall|j: int| 0 <= j < k ==> !(#[trigger] ips@[d@[j] as int].dirty),
        decreases d@.len() - k,
    {
        if ips[d[k]].dirty {
            return true;
        }
        k = k + 1;
    }
    false
}

fn gather(ips: &Vec<DynamicIp>, d: &Vec<usize>) -> (r: Vec<IpAddress>)
    requires
        forall|k: int| 0 <= k < d@.len() ==> #[trigger] d@[k] < ips@.len(),
    ensures
        r@ == known_addresses(ips@, d@),
{
    let mut out: Vec<IpAddress> = Vec::new();
    let mut k: usize = 0;
    while k < d.len()
        invariant
            k <= d@.len(),
            forall|k: int| 0 <= k < d@.len() ==> #[trigger] d@[k] < ips@.len(),
            out@ == known_addresses(ips@, d@.subrange(0, k as int)),
        decreases d@.len() - k,
    {
        let ghost pre = d@.subrange(0, k as int);
        assert(d@.subrange(0, k as int + 1).drop_last() =~= pre);
        match ips[d[k]].address {
            Some(a) => {
                out.push(a);
                assert(out@ =~= known_addresses(ips@, pre) + opt_seq(ips@[d@[k as int] as int].address));
            },
            None => {
                assert(out@ =~= known_addresses(ips@, pre) + opt_seq(ips@[d@[k as int] as int].address));
            },
        }
        k = k + 1;
    }
    assert(d@.subrange(0, d@.len() as int) =~= d@);
    out
}

/// Decides one cycle from the refreshed logical addresses `ips` and, for
/// each target, the indices of the addresses it follows.
pub fn plan_cycle(ips: &Vec<DynamicIp>, deps: &Vec<Vec<usize>>) -> (r: CyclePlan)
    requires
        deps_valid(ips@.len(), deps@),
    ensures
        calls_view(r.calls@) == planned_calls(ips@, deps_view(deps@)),
        r.persist == any_dirty(ips@),
{
    let mut calls: Vec<ServiceCall> = Vec::new();
    let mut t: usize = 0;
    while t < deps.len()
        invariant
            t <= deps@.len(),
            deps_valid(ips@.len(), deps@),
            calls_view(calls@) == planned_calls(ips@, deps_view(deps@.subrange(0, t as int))),
        decreases deps@.len() - t,
    {
        let d = &deps[t];
        assert(forall|k: int| 0 <= k < d@.len() ==> #[trigger] d@[k] < ips@.len()) by {
            assert forall|k: int| 0 <= k < d@.len() implies #[trigger] d@[k] < ips@.len() by {
                assert(deps@[t as int]@[k] < ips@.len());
            }
        }
        let ghost pre = deps_view(deps@.subrange(0, t as int));
        let ghost post = deps_view(deps@.subrange(0, t as int + 1));
        assert(post.drop_last() =~= pre);
        assert(post.last() == d@);
        assert(post.len() - 1 == t);
        if is_target_dirty(ips, d) {
            let addresses = gather(ips, d);
            let ghost before = calls@;
            calls.push(ServiceCall { target: t, addresses });
            assert(calls_view(calls@) =~= calls_view(before).push((t, known_addresses(ips@, d@))));
        }
        t = t + 1;
    }
    assert(deps@.subrange(0, deps@.len() as int) =~= deps@);
    let mut persist = false;
    let mut i: usize = 0;
    while i < ips.len()
        invariant
            i <= ips@.len(),
            persist == exists|j: int| 0 <= j < i && #[trigger] ips@[j].dirty,
        decreases ips@.len() - i,
    {
        if ips[i].dirty {
            persist = true;
        }
        i = i + 1;
    }
    CyclePlan { calls, persist }
}

/// A cycle in which no logical address changed makes no update (and,
/// by `plan_cycle`, does not rewrite the state, which it rewrites exactly
/// when some address changed, before any update is made).
pub proof fn lemma_quiet_cycle(ips: Seq<DynamicIp>, deps: Seq<Seq<usize>>)
    requires
        forall|t: int, k: int|
            0 <= t < deps.len() && 0 <= k < deps[t].len() ==> #[trigger] deps[t][k] < ips.len(),
        !any_dirty(ips),
    ensures
        planned_calls(ips, deps).len() == 0,
    decreases deps.len(),
{
    if deps.len() > 0 {
        let init = deps.drop_last();
        assert forall|t: int, k: int|
            0 <= t < init.len() && 0 <= k < init[t].len() implies #[trigger] init[t][k] < ips.len() by {
            assert(init[t] == deps[t]);
        }
        lemma_quiet_cycle(ips, init);
        let d = deps.last();
        if target_dirty(ips, d) {
            let k = choose|k: int| 0 <= k < d.len() && #[trigger] ips[d[k] as int].dirty;
            assert(deps[deps.len() - 1][k] < ips.len());
            assert(ips[d[k] as int].dirty);
        }
    }
}

/// Every target that follows a changed address gets exactly the call that
/// carries the known addresses of what it follows; no other target gets one.
pub proof fn lemma_dirty_targets_called(ips: Seq<DynamicIp>, deps: Seq<Seq<usize>>)
    requires
        deps.len() <= usize::MAX,
    ensures
        forall|t: int| 0 <= t < deps.len() && target_dirty(ips, #[trigger] deps[t]) ==> exists|k: int|
            0 <= k < planned_calls(ips, deps).len() && planned_calls(ips, deps)[k] == (
                t as usize,
                known_addresses(ips, deps[t]),
            ),
        forall|k: int| 0 <= k < planned_calls(ips, deps).len() ==> {
            let t = (#[trigger] planned_calls(ips, deps)[k]).0 as int;
            0 <= t < deps.len() && target_dirty(ips, deps[t]) && planned_calls(ips, deps)[k].1
                == known_addresses(ips, deps[t])
        },
    decreases deps.len(),
{
    if deps.len() > 0 {
        let init = deps.drop_last();
        lemma_dirty_targets_called(ips, init);
        let before = planned_calls(ips, init);
        let all = planned_calls(ips, deps);
        assert forall|t: int| 0 <= t < deps.len() && target_dirty(ips, #[trigger] deps[t]) implies exists|k: int|
            0 <= k < all.len() && all[k] == (t as usize, known_addresses(ips, deps[t])) by {
            if t < deps.len() - 1 {
                assert(init[t] == deps[t]);
                let k = choose|k: int| 0 <= k < before.len() && before[k] == (t as usize, known_addresses(ips, init[t]));
                assert(all[k] == before[k]);
            } else {
                assert(all[all.len() - 1] == (t as usize, known_addresses(ips, deps[t])));
            }
        }
        assert forall|k: int| 0 <= k < all.len() implies {
            let t = (#[trigger] all[k]).0 as int;
            0 <= t < deps.len() && target_dirty(ips, deps[t]) && all[k].1 == known_addresses(ips, deps[t])
        } by {
            if k < before.len() {
                assert(all[k] == before[k]);
                assert(init[before[k].0 as int] == deps[before[k].0 as int]);
            } else {
                assert(target_dirty(ips, deps.last()));
                assert(all[k] == ((deps.len() - 1) as usize, known_addresses(ips, deps.last())));
                assert(deps.last() == deps[deps.len() - 1]);
            }
        }
    }
}

/// The address map of a new state from the logical addresses `ips` named
/// `names`: each known address under its name.
pub open spec fn snapshot_map(names: Seq<String>, ips: Seq<DynamicIp>) -> Map<Seq<char>, IpAddress>
    decreases ips.len(),
{
    if ips.len() == 0 {
        Map::empty()
    } else {
        let m = snapshot_map(names.drop_last(), ips.drop_last());
        match ips.last().address {
            Some(a) => m.insert(names.last()@, a),
            None => m,
        }
    }
}

/// A fresh state holding the known addresses of `ips`, named by `names`,
/// for the configuration of fingerprint `config_hash`, stamped `now`.
pub fn snapshot_state(names: &Vec<String>, ips: &Vec<DynamicIp>, config_hash: u64, now: u64) -> (r: PersistentState)
    requires
        names@.len() == ips@.len(),
        forall|i: int| 0 <= i < names@.len() ==> encode_utf8(#[trigger] names@[i]@).len() <= u32::MAX,
    ensures
        r.wf(),
        r.version == STATE_VERSION,
        r.update_timestamp == now,
        r.config_hash == config_hash,
        r.ip_map() == snapshot_map(names@, ips@),
{
    let mut st = PersistentState::new_with_config_hash(config_hash, now);
    let mut i: usize = 0;
    while i < ips.len()
        invariant
            i <= ips@.len(),
            names@.len() == ips@.len(),
            forall|i: int| 0 <= i < names@.len() ==> encode_utf8(#[trigger] names@[i]@).len() <= u32::MAX,
            st.wf(),
            st.version == STATE_VERSION,
            st.update_timestamp == now,
            st.config_hash == config_hash,
            st.ip_map() == snapshot_map(names@.subrange(0, i as int), ips@.subrange(0, i as int)),
        decreases ips@.len() - i,
    {
        assert(names@.subrange(0, i as int + 1).drop_last() =~= names@.subrange(0, i as int));
        assert(ips@.subrange(0, i as int + 1).drop_last() =~= ips@.subrange(0, i as int));
        match ips[i].address {
            Some(a) => {
                assert(encode_utf8(names@[i as int]@).len() <= u32::MAX);
                st.insert(names[i].clone(), a);
            },
            None => {},
        }
        i = i + 1;
    }
    assert(names@.subrange(0, names@.len() as int) =~= names@);
    assert(ips@.subrange(0, ips@.len() as int) =~= ips@);
    st
}

/// The index of the first name equal to `n`, or -1.
pub open spec fn index_of(names: Seq<String>, n: Seq<char>) -> int
    decreases names.len(),
{
    if names.len() == 0 {
        -1
    } else if index_of(names.drop_last(), n) >= 0 {
        index_of(names.drop_last(), n)
    } else if names.last()@ == n {
        names.len() - 1
    } else {
        -1
    }
}

fn find_name(names: &Vec<String>, n: &String) -> (r: Option<usize>)
    ensures
        r matches Some(i) ==> index_of(names@, n@) == i as int && i < names@.len(),
        r is None ==> index_of(names@, n@) == -1,
{
    let mut i: usize = 0;
    while i < names.len()
        invariant
            i <= names@.len(),
            index_of(names@.subrange(0, i as int), n@) == -1,
        decreases names@.len() - i,
    {
        assert(names@.subrange(0, i as int + 1).drop_last() =~= names@.subrange(0, i as int));
        if names[i] == *n {
            proof {
                lemma_index_of_prefix(names@, i as int + 1, n@);
            }
            return Some(i);
        }
        i = i + 1;
    }
    assert(names@.subrange(0, names@.len() as int) =~= names@);
    None
}

proof fn lemma_index_of_prefix(names: Seq<String>, j: int, n: Seq<char>)
    requires
        0 <= j <= names.len(),
        index_of(names.subrange(0, j), n) >= 0,
    ensures
        index_of(names, n) == index_of(names.subrange(0, j), n),
    decreases names.len() - j,
{
    if j < names.len() {
        assert(names.subrange(0, j + 1).drop_last() =~= names.subrange(0, j));
        lemma_index_of_prefix(names, j + 1, n);
    } else {
        assert(names.subrange(0, j) =~= names);
    }
}

/// The indices among `ip_names` of the addresses a target follows, or the
/// position in `wanted` of the first name that is no logical address.
pub fn dependency_indices(ip_names: &Vec<String>, wanted: &Vec<String>) -> (r: Result<Vec<usize>, usize>)
    ensures
        r matches Ok(v) ==> v@.len() == wanted@.len() && forall|k: int|
            0 <= k < v@.len() ==> #[trigger] v@[k] as int == index_of(ip_names@, wanted@[k]@) && v@[k]
                < ip_names@.len(),
        r matches Err(k) ==> k < wanted@.len() && index_of(ip_names@, wanted@[k as int]@) == -1
            && forall|j: int| 0 <= j < k ==> index_of(ip_names@, #[trigger] wanted@[j]@) >= 0,
{
    let mut out: Vec<usize> = Vec::new();
    let mut k: usize = 0;
    while k < wanted.len()
        invariant
            k <= wanted@.len(),
            out@.len() == k,
            forall|j: int|
                0 <= j < k ==> #[trigger] out@[j] as int == index_of(ip_names@, wanted@[j]@) && out@[j]
                    < ip_names@.len(),
        decreases wanted@.len() - k,
    {
        match find_name(ip_names, &wanted[k]) {
            Some(i) => out.push(i),
            None => {
                assert forall|j: int| 0 <= j < k implies index_of(ip_names@, #[trigger] wanted@[j]@) >= 0 by {
                    assert(out@[j] as int == index_of(ip_names@, wanted@[j]@));
                }
                return Err(k);
            },
        }
        k = k + 1;
    }
    Ok(out)
}

} // verus!
