use vstd::prelude::*;
use crate::clock::DAY_SECS;
use crate::license::{activated_expiry, expiry_fits, issued};
use crate::model::{LicenseRecord, LicenseType, UNLINKED};
use crate::sessions::{
    device_index, distinct_devices, heartbeat_step, is_live, lemma_device_index_range, live, swept,
    Heartbeat, SessionView,
};
use crate::store::{tx_sum, Db};

verus! {

/// The live sessions are exactly the sessions that are live.
pub proof fn lemma_live_members(g: Seq<SessionView>, now: i64, timeout: i64, s: SessionView)
    ensures
        live(g, now, timeout).contains(s) <==> g.contains(s) && is_live(s, now, timeout),
    decreases g.len(),
{
    if g.len() > 0 {
        let d = g.drop_last();
        let x = g.last();
        lemma_live_members(d, now, timeout, s);
        let rest = live(d, now, timeout);
        if g.contains(s) && is_live(s, now, timeout) {
            let k = choose|k: int| 0 <= k < g.len() && g[k] == s;
            if k < d.len() {
                assert(d[k] == s);
                assert(rest.contains(s));
                let j = choose|j: int| 0 <= j < rest.len() && rest[j] == s;
                if is_live(x, now, timeout) {
                    assert(rest.push(x)[j] == s);
                }
            } else {
                assert(x == s);
                assert(rest.push(x)[rest.len() as int] == s);
            }
        }
        if live(g, now, timeout).contains(s) {
            if is_live(x, now, timeout) {
                let k = choose|k: int| 0 <= k < rest.len() + 1 && #[trigger] rest.push(x)[k] == s;
                if k < rest.len() {
                    assert(rest[k] == s);
                    assert(d.contains(s));
                    let j = choose|j: int| 0 <= j < d.len() && d[j] == s;
                    assert(g[j] == s);
                } else {
                    assert(g[g.len() - 1] == s);
                }
            } else {
                assert(d.contains(s));
                let j = choose|j: int| 0 <= j < d.len() && d[j] == s;
                assert(g[j] == s);
            }
        }
    }
}

/// Dropping stale sessions keeps an ordered subset: never longer, never a
/// device twice where there was none.
pub proof fn lemma_live_shrinks(g: Seq<SessionView>, now: i64, timeout: i64)
    requires
        distinct_devices(g),
    ensures
        live(g, now, timeout).len() <= g.len(),
        distinct_devices(live(g, now, timeout)),
        forall|k: int| 0 <= k < live(g, now, timeout).len() ==> g.contains(#[trigger] live(g, now, timeout)[k]),
    decreases g.len(),
{
    if g.len() > 0 {
        let d = g.drop_last();
        assert(distinct_devices(d)) by {
            assert forall|i: int, j: int| 0 <= i < j < d.len() implies (#[trigger] d[i]).0 != (#[trigger] d[j]).0 by {
                assert(d[i] == g[i] && d[j] == g[j]);
            }
        }
        lemma_live_shrinks(d, now, timeout);
        let rest = live(d, now, timeout);
        assert forall|k: int| 0 <= k < rest.len() implies g.contains(#[trigger] rest[k]) by {
            let j = choose|j: int| 0 <= j < d.len() && d[j] == rest[k];
            assert(g[j] == rest[k]);
        }
        if is_live(g.last(), now, timeout) {
            let p = rest.push(g.last());
            assert forall|k: int| 0 <= k < p.len() implies g.contains(#[trigger] p[k]) by {
                if k == rest.len() {
                    assert(g[g.len() - 1] == p[k]);
                } else {
                    assert(p[k] == rest[k]);
                }
            }
            assert forall|i: int, j: int| 0 <= i < j < p.len() implies (#[trigger] p[i]).0 != (#[trigger] p[j]).0 by {
                if j == rest.len() {
                    assert(p[i] == rest[i]);
                    let a = choose|a: int| 0 <= a < d.len() && d[a] == rest[i];
                    assert(g[a] == d[a]);
                } else {
                    assert(p[i] == rest[i] && p[j] == rest[j]);
                }
            }
        }
    }
}

proof fn lemma_all_live(g: Seq<SessionView>, now: i64, timeout: i64)
    requires
        forall|k: int| 0 <= k < g.len() ==> is_live(#[trigger] g[k], now, timeout),
    ensures
        live(g, now, timeout) == g,
    decreases g.len(),
{
    if g.len() > 0 {
        let d = g.drop_last();
        assert forall|k: int| 0 <= k < d.len() implies is_live(#[trigger] d[k], now, timeout) by {
            assert(d[k] == g[k]);
        }
        lemma_all_live(d, now, timeout);
        assert(g.last() == g[g.len() - 1]);
        assert(d.push(g.last()) =~= g);
    }
}

proof fn lemma_device_found(g: Seq<SessionView>, id: Seq<char>, i: int)
    requires
        0 <= i < g.len(),
        g[i].0 == id,
    ensures
        device_index(g, id) >= i,
    decreases g.len(),
{
    if g.last().0 != id {
        let d = g.drop_last();
        assert(d[i] == g[i]);
        lemma_device_found(d, id, i);
    }
}

/// Quota: a heartbeat never lets the sessions of a license outnumber its
/// `max_sessions`, and never registers a device twice, whatever the group held
/// within those bounds before.
pub proof fn lemma_quota_kept(
    g: Option<Seq<SessionView>>,
    device: Seq<char>,
    now: i64,
    timeout: i64,
    lic: LicenseRecord,
)
    requires
        lic.max_sessions >= 0,
        g matches Some(x) ==> distinct_devices(x) && x.len() <= lic.max_sessions,
    ensures
        heartbeat_step(g, device, now, timeout, Some(lic)).0 matches Some(y) ==> distinct_devices(y)
            && y.len() <= lic.max_sessions,
{
    let grp = match g {
        Some(x) => x,
        None => Seq::<SessionView>::empty(),
    };
    let i = device_index(grp, device);
    lemma_device_index_range(grp, device);
    if i >= 0 {
        let y = grp.update(i, (device, now));
        assert forall|a: int, b: int| 0 <= a < b < y.len() implies (#[trigger] y[a]).0 != (#[trigger] y[b]).0 by {
            if a != i && b != i {
                assert(y[a] == grp[a] && y[b] == grp[b]);
            } else if a == i {
                assert(y[b] == grp[b]);
                assert(grp[i].0 == device);
            } else {
                assert(y[a] == grp[a]);
                assert(grp[i].0 == device);
            }
        }
    } else if lic.is_valid_at(now as int) {
        lemma_live_shrinks(grp, now, timeout);
        let p = live(grp, now, timeout);
        if p.len() < lic.max_sessions {
            let y = p.push((device, now));
            assert forall|a: int, b: int| 0 <= a < b < y.len() implies (#[trigger] y[a]).0 != (#[trigger] y[b]).0 by {
                if b == p.len() {
                    assert(y[a] == p[a]);
                    assert(grp.contains(p[a]));
                    let k = choose|k: int| 0 <= k < grp.len() && grp[k] == p[a];
                } else {
                    assert(y[a] == p[a] && y[b] == p[b]);
                }
            }
        }
    }
}

/// A heartbeat never registers a device twice in a group that held each
/// device once.
pub proof fn lemma_step_distinct(
    g: Option<Seq<SessionView>>,
    device: Seq<char>,
    now: i64,
    timeout: i64,
    lic: Option<LicenseRecord>,
)
    requires
        g matches Some(x) ==> distinct_devices(x),
    ensures
        heartbeat_step(g, device, now, timeout, lic).0 matches Some(y) ==> distinct_devices(y),
{
    let grp = match g {
        Some(x) => x,
        None => Seq::<SessionView>::empty(),
    };
    let i = device_index(grp, device);
    lemma_device_index_range(grp, device);
    if i >= 0 {
        let y = grp.update(i, (device, now));
        assert forall|a: int, b: int| 0 <= a < b < y.len() implies (#[trigger] y[a]).0 != (#[trigger] y[b]).0 by {
            if a != i && b != i {
                assert(y[a] == grp[a] && y[b] == grp[b]);
            } else if a == i {
                assert(y[b] == grp[b]);
                assert(grp[i].0 == device);
            } else {
                assert(y[a] == grp[a]);
                assert(grp[i].0 == device);
            }
        }
    } else if lic matches Some(l) && l.is_valid_at(now as int) {
        lemma_live_shrinks(grp, now, timeout);
        let p = live(grp, now, timeout);
        let y = p.push((device, now));
        assert forall|a: int, b: int| 0 <= a < b < y.len() implies (#[trigger] y[a]).0 != (#[trigger] y[b]).0 by {
            if b == p.len() {
                assert(y[a] == p[a]);
                assert(grp.contains(p[a]));
                let k = choose|k: int| 0 <= k < grp.len() && grp[k] == p[a];
            } else {
                assert(y[a] == p[a] && y[b] == p[b]);
            }
        }
    }
}

/// Quota: while a license already has `max_sessions` devices that are all
/// still live, a heartbeat from one more device is rejected for the limit.
pub proof fn lemma_extra_device_rejected(
    g: Seq<SessionView>,
    device: Seq<char>,
    now: i64,
    timeout: i64,
    lic: LicenseRecord,
)
    requires
        lic.is_valid_at(now as int),
        g.len() >= lic.max_sessions,
        forall|k: int| 0 <= k < g.len() ==> is_live(#[trigger] g[k], now, timeout),
        forall|k: int| 0 <= k < g.len() ==> (#[trigger] g[k]).0 != device,
    ensures
        heartbeat_step(Some(g), device, now, timeout, Some(lic)) == (
            Some(g),
            Heartbeat::LimitReached,
        ),
{
    lemma_device_index_range(g, device);
    if device_index(g, device) >= 0 {
        assert(g[device_index(g, device)].0 == device);
    }
    lemma_all_live(g, now, timeout);
}

/// Idempotent refresh: once a device is accepted, its next heartbeat only
/// refreshes it, without taking another place of the quota and without
/// consulting the license.
pub proof fn lemma_refresh_idempotent(
    g: Option<Seq<SessionView>>,
    device: Seq<char>,
    now1: i64,
    now2: i64,
    timeout: i64,
    lic1: Option<LicenseRecord>,
    lic2: Option<LicenseRecord>,
)
    requires
        heartbeat_step(g, device, now1, timeout, lic1).1.accepted(),
    ensures
        ({
            let g1 = heartbeat_step(g, device, now1, timeout, lic1).0;
            let second = heartbeat_step(g1, device, now2, timeout, lic2);
            &&& g1 is Some
            &&& second.1 == Heartbeat::Refreshed
            &&& second.0 matches Some(y) && y.len() == g1->0.len()
        }),
{
    let grp = match g {
        Some(x) => x,
        None => Seq::<SessionView>::empty(),
    };
    let g1 = heartbeat_step(g, device, now1, timeout, lic1).0->0;
    lemma_device_index_range(grp, device);
    let i = device_index(grp, device);
    if i >= 0 {
        assert(g1 == grp.update(i, (device, now1)));
        assert(g1[i].0 == device);
        lemma_device_found(g1, device, i);
    } else {
        let p = live(grp, now1, timeout);
        assert(g1 == p.push((device, now1)));
        assert(g1[g1.len() - 1].0 == device);
        lemma_device_found(g1, device, g1.len() - 1);
    }
    let j = device_index(g1, device);
    lemma_device_index_range(g1, device);
    assert(heartbeat_step(Some(g1), device, now2, timeout, lic2) == (
        Some(g1.update(j, (device, now2))),
        Heartbeat::Refreshed,
    ));
}

/// Sweep: after a sweep at `now` a group holds exactly the sessions it held
/// that were seen less than `timeout` seconds before `now`: stale ones are
/// gone, and refreshed ones are never dropped.
pub proof fn lemma_sweep_members(
    m: Map<Seq<char>, Seq<SessionView>>,
    now: i64,
    timeout: i64,
    key: Seq<char>,
    s: SessionView,
)
    ensures
        (swept(m, now, timeout).contains_key(key) && swept(m, now, timeout)[key].contains(s)) <==> (
        m.contains_key(key) && m[key].contains(s) && is_live(s, now, timeout)),
{
    if m.contains_key(key) {
        lemma_live_members(m[key], now, timeout, s);
    }
}

/// Ledger: in every well-formed store, each account's balance is the sum of
/// the amounts of its ledger rows, and never negative. Every operation of the
/// library keeps the store well-formed.
pub proof fn lemma_balance_is_ledger_sum(db: Db, uid: i64)
    requires
        db.wf(),
        db.has_user(uid),
    ensures
        db.balance_of(uid) == tx_sum(db.txs(), uid),
        db.balance_of(uid) >= 0,
{
}

/// Gift licenses: a gift granted for `days` days at `t0` and first linked at
/// `t1` runs `days` days from `t1`, not from `t0`.
pub proof fn lemma_gift_clock_starts_at_link(
    key: String,
    ty: LicenseType,
    days: u64,
    t0: i64,
    t1: i64,
    max_sessions: i32,
)
    requires
        expiry_fits(days, t0),
    ensures
        activated_expiry(issued(key, UNLINKED, ty, days, t0, max_sessions), t1) == t1 + days
            * DAY_SECS,
{
}

} // verus!
