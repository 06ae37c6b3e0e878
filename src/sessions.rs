use dashmap::DashMap;
use vstd::prelude::*;
use crate::error::Error;
use crate::license::{with_blocked, License};
use crate::model::LicenseRecord;
use crate::store::Db;

verus! {

#[verifier::external_type_specification]
#[verifier::external_body]
#[verifier::reject_recursive_types(K)]
#[verifier::reject_recursive_types(V)]
#[verifier::reject_recursive_types(S)]
pub struct ExDashMap<K, V, S>(DashMap<K, V, S>);

/// One device seen under a license.
#[derive(Debug, Clone)]
pub struct Session {
    pub machine_id: String,
    pub last_seen: i64,
}

/// Session groups keyed by license key.
pub type SessionMap = DashMap<String, Vec<Session>>;

/// A session as plain values: the device id and the second it was last seen.
pub type SessionView = (Seq<char>, i64);

pub open spec fn session_view(s: Session) -> SessionView {
    (s.machine_id@, s.last_seen)
}

pub open spec fn group_view(g: Seq<Session>) -> Seq<SessionView> {
    g.map_values(|s: Session| session_view(s))
}

/// The session groups that a map holds, keyed by license key.
pub uninterp spec fn groups_of(m: SessionMap) -> Map<Seq<char>, Seq<SessionView>>;

/// Relies on `DashMap::new`: an empty map.
#[verifier::external_body]
fn groups_new() -> (r: SessionMap)
    ensures
        groups_of(r).dom().is_empty(),
{
    DashMap::new()
}

/// Relies on `DashMap::get`: a copy of the group under `key`, if any.
#[verifier::external_body]
fn groups_get(m: &SessionMap, key: &String) -> (r: Option<Vec<Session>>)
    ensures
        r is Some == groups_of(*m).contains_key(key@),
        r matches Some(g) ==> group_view(g@) == groups_of(*m)[key@],
{
    m.get(key).map(|g| g.value().clone())
}

/// Relies on `DashMap::insert`: the group under `key` becomes `g`.
#[verifier::external_body]
fn groups_put(m: &mut SessionMap, key: String, g: Vec<Session>)
    ensures
        groups_of(*final(m)) == groups_of(*old(m)).insert(key@, group_view(g@)),
{
    m.insert(key, g);
}

/// Relies on `DashMap::remove`: no group stays under `key`.
#[verifier::external_body]
fn groups_remove(m: &mut SessionMap, key: &String)
    ensures
        groups_of(*final(m)) == groups_of(*old(m)).remove(key@),
{
    m.remove(key);
}

/// Relies on `DashMap::iter`: each key of the map once.
#[verifier::external_body]
fn groups_keys(m: &SessionMap) -> (r: Vec<String>)
    ensures
        keys_view(r@).no_duplicates(),
        forall|k: Seq<char>| #[trigger] groups_of(*m).contains_key(k) <==> keys_view(r@).contains(k),
{
    m.iter().map(|e| e.key().clone()).collect()
}

pub open spec fn keys_view(ks: Seq<String>) -> Seq<Seq<char>> {
    ks.map_values(|k: String| k@)
}

/// A session is live at `now` while it was seen less than `timeout` seconds ago.
pub open spec fn is_live(s: SessionView, now: i64, timeout: i64) -> bool {
    now - s.1 < timeout
}

/// The live sessions of a group, in order.
pub open spec fn live(g: Seq<SessionView>, now: i64, timeout: i64) -> Seq<SessionView>
    decreases g.len(),
{
    if g.len() == 0 {
        Seq::empty()
    } else {
        let rest = live(g.drop_last(), now, timeout);
        if is_live(g.last(), now, timeout) {
            rest.push(g.last())
        } else {
            rest
        }
    }
}

/// Position of the device `id` in a group (its last one), or -1.
pub open spec fn device_index(g: Seq<SessionView>, id: Seq<char>) -> int
    decreases g.len(),
{
    if g.len() == 0 {
        -1
    } else if g.last().0 == id {
        g.len() - 1
    } else {
        device_index(g.drop_last(), id)
    }
}

/// No device appears twice in a group.
pub open spec fn distinct_devices(g: Seq<SessionView>) -> bool {
    forall|i: int, j: int| 0 <= i < j < g.len() ==> (#[trigger] g[i]).0 != (#[trigger] g[j]).0
}

/// What a heartbeat answers.
#[derive(Debug, Clone, Copy, PartialEq, Eq, Structural)]
pub enum Heartbeat {
    /// A new device was admitted under the quota.
    Admitted,
    /// A known device was seen again.
    Refreshed,
    /// The license is missing, blocked or expired.
    Invalid,
    /// The license already has as many live devices as it allows.
    LimitReached,
}

/// The response that a heartbeat endpoint sends.
#[derive(Debug)]
pub struct Status {
    pub success: bool,
    pub msg: Option<String>,
}

impl Heartbeat {
    pub open spec fn accepted(self) -> bool {
        self is Admitted || self is Refreshed
    }

    /// The response for this answer: success, or the reason of the refusal.
    pub fn status(&self) -> (r: Status)
        ensures
            r.success == self.accepted(),
            self.accepted() <==> r.msg is None,
            self is Invalid ==> (r.msg matches Some(m) && m@ == "invalid"@),
            self is LimitReached ==> (r.msg matches Some(m) && m@ == "limit_reached"@),
    {
        match self {
            Heartbeat::Admitted => Status { success: true, msg: None },
            Heartbeat::Refreshed => Status { success: true, msg: None },
            Heartbeat::Invalid => Status { success: false, msg: Some("invalid".to_owned()) },
            Heartbeat::LimitReached => Status { success: false, msg: Some("limit_reached".to_owned()) },
        }
    }
}

/// One heartbeat of `device` under a license whose group is `g` (absent when
/// nobody is registered) and whose record is `lic`: the group afterwards
/// (absent when it stays absent) and the answer.
///
/// A known device is refreshed without consulting the license. A new device
/// needs a valid license; stale sessions are then dropped, and the device is
/// admitted only while fewer than `max_sessions` live ones remain.
pub open spec fn heartbeat_step(
    g: Option<Seq<SessionView>>,
    device: Seq<char>,
    now: i64,
    timeout: i64,
    lic: Option<LicenseRecord>,
) -> (Option<Seq<SessionView>>, Heartbeat) {
    let grp = match g {
        Some(x) => x,
        None => Seq::empty(),
    };
    let i = device_index(grp, device);
    if i >= 0 {
        (Some(grp.update(i, (device, now))), Heartbeat::Refreshed)
    } else {
        match lic {
            Some(l) => if l.is_valid_at(now as int) {
                let p = live(grp, now, timeout);
                if p.len() >= l.max_sessions {
                    (Some(p), Heartbeat::LimitReached)
                } else {
                    (Some(p.push((device, now))), Heartbeat::Admitted)
                }
            } else {
                (g, Heartbeat::Invalid)
            },
            None => (g, Heartbeat::Invalid),
        }
    }
}

/// The groups after a sweep at `now`: stale sessions dropped, and groups left
/// empty removed.
pub open spec fn swept(m: Map<Seq<char>, Seq<SessionView>>, now: i64, timeout: i64) -> Map<
    Seq<char>,
    Seq<SessionView>,
> {
    Map::new(
        |k: Seq<char>| m.contains_key(k) && live(m[k], now, timeout).len() > 0,
        |k: Seq<char>| live(m[k], now, timeout),
    )
}

proof fn lemma_device_index_suffix(g: Seq<SessionView>, id: Seq<char>, i: int)
    requires
        0 <= i <= g.len(),
        forall|k: int| i <= k < g.len() ==> (#[trigger] g[k]).0 != id,
    ensures
        device_index(g, id) == device_index(g.take(i), id),
    decreases g.len() - i,
{
    if i < g.len() {
        let d = g.drop_last();
        assert forall|k: int| i <= k < d.len() implies (#[trigger] d[k]).0 != id by {
            assert(d[k] == g[k]);
        }
        lemma_device_index_suffix(d, id, i);
        assert(d.take(i) =~= g.take(i));
    } else {
        assert(g.take(i) =~= g);
    }
}

pub proof fn lemma_device_index_range(g: Seq<SessionView>, id: Seq<char>)
    ensures
        -1 <= device_index(g, id) < g.len(),
        device_index(g, id) >= 0 ==> g[device_index(g, id)].0 == id,
        device_index(g, id) < 0 ==> forall|k: int| 0 <= k < g.len() ==> (#[trigger] g[k]).0 != id,
    decreases g.len(),
{
    if g.len() > 0 {
        let d = g.drop_last();
        lemma_device_index_range(d, id);
        assert forall|k: int| 0 <= k < d.len() implies d[k] == g[k] by {}
    }
}

/// Keeps the live sessions of `g`, in order.
fn prune(g: Vec<Session>, now: i64, timeout: i64) -> (r: Vec<Session>)
    ensures
        group_view(r@) == live(group_view(g@), now, timeout),
{
    let mut r: Vec<Session> = Vec::new();
    let mut i: usize = 0;
    let ghost gv = group_view(g@);
    while i < g.len()
        invariant
            i <= g@.len(),
            gv == group_view(g@),
            group_view(r@) == live(gv.take(i as int), now, timeout),
        decreases g@.len() - i,
    {
        let s = &g[i];
        proof {
            assert(gv.take(i + 1).drop_last() =~= gv.take(i as int));
            assert(gv.take(i + 1).last() == session_view(g@[i as int]));
        }
        if (now as i128) - (s.last_seen as i128) < timeout as i128 {
            let ghost before = r@;
            r.push(Session { machine_id: s.machine_id.clone(), last_seen: s.last_seen });
            proof {
                assert(group_view(r@) =~= group_view(before).push(session_view(g@[i as int])));
            }
        }
        i = i + 1;
    }
    proof {
        assert(gv.take(g@.len() as int) =~= gv);
    }
    r
}

/// Position of `id` in `g` (its last one).
fn find_device(g: &Vec<Session>, id: &str) -> (r: Option<usize>)
    ensures
        r matches Some(i) ==> i as int == device_index(group_view(g@), id@),
        r is None ==> device_index(group_view(g@), id@) == -1,
{
    let target = id.to_owned();
    let ghost gv = group_view(g@);
    let mut i: usize = g.len();
    while i > 0
        invariant
            i <= g@.len(),
            gv == group_view(g@),
            target@ == id@,
            forall|k: int| i <= k < gv.len() ==> (#[trigger] gv[k]).0 != id@,
        decreases i,
    {
        if g[i - 1].machine_id == target {
            proof {
                let t = gv.take(i as int);
                lemma_device_index_suffix(gv, id@, i as int);
                assert(t.last() == gv[i - 1]);
            }
            return Some(i - 1);
        }
        i = i - 1;
    }
    proof {
        lemma_device_index_suffix(gv, id@, 0);
    }
    None
}

/// Each group of `m` holds each device once.
pub open spec fn groups_distinct(m: Map<Seq<char>, Seq<SessionView>>) -> bool {
    forall|k: Seq<char>| #[trigger] m.contains_key(k) ==> distinct_devices(m[k])
}

/// No group of `m` holds more sessions than its license in `db` admits.
pub open spec fn groups_within(m: Map<Seq<char>, Seq<SessionView>>, db: Db) -> bool {
    forall|k: Seq<char>| #[trigger] m.contains_key(k) ==> (db.license(k) matches Some(l) ==> m[k].len()
        <= l.max_sessions)
}

/// The groups after one heartbeat.
pub open spec fn after_heartbeat(
    m: Map<Seq<char>, Seq<SessionView>>,
    key: Seq<char>,
    device: Seq<char>,
    now: i64,
    timeout: i64,
    db: Db,
) -> Map<Seq<char>, Seq<SessionView>> {
    let step = heartbeat_step(
        if m.contains_key(key) { Some(m[key]) } else { None },
        device,
        now,
        timeout,
        db.license(key),
    );
    match step.0 {
        Some(g) => m.insert(key, g),
        None => m,
    }
}

/// A heartbeat keeps each device once per group, and each group within the
/// quota of its license.
pub proof fn lemma_heartbeat_keeps(
    m: Map<Seq<char>, Seq<SessionView>>,
    key: Seq<char>,
    device: Seq<char>,
    now: i64,
    timeout: i64,
    db: Db,
)
    requires
        db.wf(),
    ensures
        groups_distinct(m) ==> groups_distinct(after_heartbeat(m, key, device, now, timeout, db)),
        groups_distinct(m) && groups_within(m, db) ==> groups_within(
            after_heartbeat(m, key, device, now, timeout, db),
            db,
        ),
{
    let g = if m.contains_key(key) { Some(m[key]) } else { None };
    let n = after_heartbeat(m, key, device, now, timeout, db);
    if groups_distinct(m) {
        crate::laws::lemma_step_distinct(g, device, now, timeout, db.license(key));
        assert forall|k: Seq<char>| #[trigger] n.contains_key(k) implies distinct_devices(n[k]) by {
            if k != key {
                assert(m.contains_key(k));
            }
        }
        if groups_within(m, db) {
            match db.license(key) {
                Some(l) => {
                    crate::license::lemma_found_quota(db, key);
                    crate::laws::lemma_quota_kept(g, device, now, timeout, l);
                },
                None => {},
            }
            assert forall|k: Seq<char>| #[trigger] n.contains_key(k) implies (db.license(k) matches Some(l)
                ==> n[k].len() <= l.max_sessions) by {
                if k != key {
                    assert(m.contains_key(k));
                }
            }
        }
    }
}

/// A sweep keeps each device once per group, and never makes a group larger.
pub proof fn lemma_sweep_keeps(m: Map<Seq<char>, Seq<SessionView>>, now: i64, timeout: i64)
    requires
        groups_distinct(m),
    ensures
        groups_distinct(swept(m, now, timeout)),
        forall|db: Db| groups_within(m, db) ==> #[trigger] groups_within(swept(m, now, timeout), db),
{
    let n = swept(m, now, timeout);
    assert forall|k: Seq<char>| #[trigger] n.contains_key(k) implies distinct_devices(n[k]) && n[k].len()
        <= m[k].len() by {
        crate::laws::lemma_live_shrinks(m[k], now, timeout);
    }
    assert forall|db: Db| groups_within(m, db) implies #[trigger] groups_within(n, db) by {
        assert forall|k: Seq<char>| #[trigger] n.contains_key(k) implies (db.license(k) matches Some(l)
            ==> n[k].len() <= l.max_sessions) by {
            assert(m.contains_key(k));
            crate::laws::lemma_live_shrinks(m[k], now, timeout);
        }
    }
}

/// Live device sessions per license key, under a staleness timeout.
pub struct Sessions {
    groups: SessionMap,
    timeout: i64,
}

impl Sessions {
    pub closed spec fn groups(&self) -> Map<Seq<char>, Seq<SessionView>> {
        groups_of(self.groups)
    }

    pub closed spec fn timeout(&self) -> i64 {
        self.timeout
    }

    /// Each group holds each device once.
    pub open spec fn wf(&self) -> bool {
        groups_distinct(self.groups())
    }

    /// No group holds more sessions than its license in `db` admits.
    pub open spec fn within_quota(&self, db: Db) -> bool {
        groups_within(self.groups(), db)
    }

    /// An empty registry whose sessions go stale `timeout` seconds after
    /// they were last seen.
    pub fn new(timeout: i64) -> (r: Sessions)
        ensures
            r.groups() == Map::<Seq<char>, Seq<SessionView>>::empty(),
            r.timeout() == timeout,
            r.wf(),
    {
        Sessions { groups: groups_new(), timeout }
    }

    pub fn timeout_secs(&self) -> (r: i64)
        ensures
            r == self.timeout(),
    {
        self.timeout
    }

    /// Handles a heartbeat of device `machine_id` under license `key` at `now`.
    pub fn heartbeat(&mut self, db: &Db, key: &str, machine_id: &str, now: i64) -> (r: Heartbeat)
        requires
            db.wf(),
        ensures
            final(self).timeout() == old(self).timeout(),
            old(self).wf() ==> final(self).wf(),
            old(self).wf() && old(self).within_quota(*db) ==> final(self).within_quota(*db),
            ({
                let step = heartbeat_step(
                    if old(self).groups().contains_key(key@) {
                        Some(old(self).groups()[key@])
                    } else {
                        None
                    },
                    machine_id@,
                    now,
                    old(self).timeout(),
                    db.license(key@),
                );
                &&& r == step.1
                &&& final(self).groups() == match step.0 {
                    Some(g) => old(self).groups().insert(key@, g),
                    None => old(self).groups(),
                }
            }),
    {
        proof {
            lemma_heartbeat_keeps(self.groups(), key@, machine_id@, now, self.timeout(), *db);
        }
        let k = key.to_owned();
        let mut group = match groups_get(&self.groups, &k) {
            Some(g) => g,
            None => Vec::new(),
        };
        proof {
            if !self.groups().contains_key(key@) {
                assert(group_view(group@) =~= Seq::<SessionView>::empty());
            }
        }
        let ghost gv = group_view(group@);
        match find_device(&group, machine_id) {
            Some(i) => {
                proof {
                    lemma_device_index_range(gv, machine_id@);
                }
                group.set(i, Session { machine_id: machine_id.to_owned(), last_seen: now });
                proof {
                    assert(group_view(group@) =~= gv.update(i as int, (machine_id@, now)));
                }
                groups_put(&mut self.groups, k, group);
                return Heartbeat::Refreshed;
            },
            None => {},
        }
        let lic = match License::new().validate(db, key, now) {
            Ok(l) => l,
            Err(_) => {
                return Heartbeat::Invalid;
            },
        };
        let mut pruned = prune(group, now, self.timeout);
        if pruned.len() as i128 >= lic.max_sessions as i128 {
            groups_put(&mut self.groups, k, pruned);
            return Heartbeat::LimitReached;
        }
        let ghost pv = group_view(pruned@);
        pruned.push(Session { machine_id: machine_id.to_owned(), last_seen: now });
        proof {
            assert(group_view(pruned@) =~= pv.push((machine_id@, now)));
        }
        groups_put(&mut self.groups, k, pruned);
        Heartbeat::Admitted
    }

    /// Drops every session of license `key`, as when the license is blocked.
    pub fn revoke_all(&mut self, key: &str)
        ensures
            final(self).groups() == old(self).groups().remove(key@),
            final(self).timeout() == old(self).timeout(),
            old(self).wf() ==> final(self).wf(),
            forall|d: Db| old(self).within_quota(d) ==> #[trigger] final(self).within_quota(d),
    {
        let k = key.to_owned();
        groups_remove(&mut self.groups, &k);
    }

    /// Blocks the license under `key` and drops all of its sessions, so that
    /// no device keeps using it.
    pub fn block_license(&mut self, db: &mut Db, key: &str) -> (r: Result<(), Error>)
        requires
            old(db).wf(),
        ensures
            final(db).wf(),
            final(self).timeout() == old(self).timeout(),
            old(self).wf() ==> final(self).wf(),
            match old(db).license(key@) {
                None => r == Err::<(), Error>(Error::LicenseNotFound) && *final(db) == *old(db)
                    && final(self).groups() == old(self).groups(),
                Some(l) => {
                    &&& r is Ok
                    &&& final(db).license(key@) == Some(with_blocked(l, true))
                    &&& forall|k: Seq<char>| k != key@ ==> final(db).license(k) == old(db).license(k)
                    &&& final(self).groups() == old(self).groups().remove(key@)
                },
            },
    {
        match License::new().set_blocked(db, key, true) {
            Ok(()) => {
                self.revoke_all(key);
                Ok(())
            },
            Err(e) => Err(e),
        }
    }

    /// Drops the sessions that are stale at `now`, and the groups that this
    /// leaves empty.
    pub fn sweep(&mut self, now: i64)
        ensures
            final(self).groups() == swept(old(self).groups(), now, old(self).timeout()),
            final(self).timeout() == old(self).timeout(),
            old(self).wf() ==> final(self).wf(),
            old(self).wf() ==> forall|d: Db| old(self).within_quota(d) ==> #[trigger] final(self).within_quota(d),
    {
        proof {
            if self.wf() {
                lemma_sweep_keeps(self.groups(), now, self.timeout());
            }
        }
        let keys = groups_keys(&self.groups);
        let ghost m0 = self.groups();
        let ghost kv = keys_view(keys@);
        let mut i: usize = 0;
        while i < keys.len()
            invariant
                i <= keys@.len(),
                kv == keys_view(keys@),
                kv.no_duplicates(),
                forall|k: Seq<char>| #[trigger] m0.contains_key(k) <==> kv.contains(k),
                self.timeout() == old(self).timeout(),
                m0 == old(self).groups(),
                forall|k: Seq<char>|
                    #![trigger self.groups().contains_key(k)]
                    kv.take(i as int).contains(k) ==> (self.groups().contains_key(k) <==> swept(
                        m0,
                        now,
                        self.timeout(),
                    ).contains_key(k)) && (self.groups().contains_key(k) ==> self.groups()[k]
                        == swept(m0, now, self.timeout())[k]),
                forall|k: Seq<char>|
                    #![trigger self.groups().contains_key(k)]
                    !kv.take(i as int).contains(k) ==> (self.groups().contains_key(k)
                        <==> m0.contains_key(k)) && (self.groups().contains_key(k)
                        ==> self.groups()[k] == m0[k]),
            decreases keys@.len() - i,
        {
            let k = &keys[i];
            proof {
                assert(kv[i as int] == k@);
                assert(m0.contains_key(k@));
                assert(!kv.take(i as int).contains(k@)) by {
                    if kv.take(i as int).contains(k@) {
                        let j = choose|j: int| 0 <= j < i && #[trigger] kv.take(i as int)[j] == k@;
                        assert(kv[j] == kv[i as int]);
                    }
                }
                assert forall|x: Seq<char>| #[trigger] kv.take(i + 1).contains(x) <==> kv.take(i as int).contains(x) || x == k@ by {
                    if kv.take(i + 1).contains(x) {
                        let j = choose|j: int| 0 <= j < i + 1 && #[trigger] kv.take(i + 1)[j] == x;
                        if j < i {
                            assert(kv.take(i as int)[j] == x);
                        }
                    }
                    if kv.take(i as int).contains(x) {
                        let j = choose|j: int| 0 <= j < i && #[trigger] kv.take(i as int)[j] == x;
                        assert(kv.take(i + 1)[j] == x);
                    }
                    if x == k@ {
                        assert(kv.take(i + 1)[i as int] == x);
                    }
                }
            }
            let ghost before = self.groups();
            proof {
                assert(before.contains_key(k@));
            }
            let g = groups_get(&self.groups, k).unwrap();
            let p = prune(g, now, self.timeout);
            if p.len() == 0 {
                groups_remove(&mut self.groups, k);
            } else {
                groups_put(&mut self.groups, k.clone(), p);
            }
            proof {
                let sw = swept(m0, now, self.timeout());
                assert(before[k@] == m0[k@]);
                assert(self.groups().contains_key(k@) <==> sw.contains_key(k@));
                assert forall|x: Seq<char>| #[trigger] self.groups().contains_key(x) || !self.groups().contains_key(x) implies
                    (kv.take(i + 1).contains(x) ==> (self.groups().contains_key(x) <==> sw.contains_key(x))
                        && (self.groups().contains_key(x) ==> self.groups()[x] == sw[x]))
                    && (!kv.take(i + 1).contains(x) ==> (self.groups().contains_key(x) <==> m0.contains_key(x))
                        && (self.groups().contains_key(x) ==> self.groups()[x] == m0[x])) by {
                    if x != k@ {
                        assert(before.contains_key(x) == self.groups().contains_key(x));
                        if before.contains_key(x) {
                            assert(before[x] == self.groups()[x]);
                        }
                    }
                }
            }
            i = i + 1;
        }
        proof {
            assert(kv.take(keys@.len() as int) =~= kv);
            assert(self.groups() =~= swept(m0, now, self.timeout()));
        }
    }

    /// The sessions registered under `key`.
    pub fn sessions(&self, key: &str) -> (r: Vec<Session>)
        ensures
            self.groups().contains_key(key@) ==> group_view(r@) == self.groups()[key@],
            !self.groups().contains_key(key@) ==> r@.len() == 0,
    {
        let k = key.to_owned();
        match groups_get(&self.groups, &k) {
            Some(g) => g,
            None => Vec::new(),
        }
    }
}

} // verus!
