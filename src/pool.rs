//! The backend pool: a fixed, ordered set of backends whose health changes,
//! and round-robin selection over it.

use vstd::prelude::*;

verus! {

#[derive(Clone, Copy, Debug, PartialEq, Eq, Structural)]
pub enum Health {
    Healthy,
    Unhealthy,
}

#[derive(Clone, Copy, Debug, PartialEq, Eq, Structural)]
pub enum PoolError {
    /// The pool has no members.
    NoBackendAvailable,
    /// Two backends were configured with the same address.
    DuplicateAddress,
}

/// One upstream target and its current health.
pub struct Backend {
    pub address: String,
    pub health: Health,
}

/// The backends in configuration order, and the rotating selection cursor.
///
/// The cursor is kept reduced modulo the pool's size, which is the index a
/// monotonically advancing counter would select.
///
/// When every member is unhealthy the pool is fail-open by default: selection
/// still returns the next member in rotation rather than failing every
/// request. This can be switched off, and selection then fails instead.
pub struct BackendPool {
    members: Vec<Backend>,
    cursor: usize,
    fail_open: bool,
}

/// The members' addresses are pairwise distinct.
pub open spec fn distinct(addrs: Seq<Seq<char>>) -> bool {
    forall|i: int, j: int| 0 <= i < addrs.len() && 0 <= j < addrs.len() && i != j ==> addrs[i] != addrs[j]
}

/// Some member is healthy.
pub open spec fn any_healthy(health: Seq<Health>) -> bool {
    exists|j: int| 0 <= j < health.len() && health[j] == Health::Healthy
}

/// The index of the first healthy member at offset `k` or later from `start`,
/// scanning forward with wrap-around; `start` itself when none is healthy.
pub open spec fn scan_from(health: Seq<Health>, start: int, k: nat) -> int
    decreases health.len() - k,
{
    if k >= health.len() {
        start
    } else if health[(start + k) % (health.len() as int)] == Health::Healthy {
        (start + k) % (health.len() as int)
    } else {
        scan_from(health, start, k + 1)
    }
}

/// The member that selection returns when the cursor stands at `start`:
/// the first healthy one from `start` on, or `start` itself when every member
/// is unhealthy (fail-open).
pub open spec fn pick(health: Seq<Health>, start: int) -> int {
    scan_from(health, start, 0)
}

impl BackendPool {
    pub closed spec fn addresses(&self) -> Seq<Seq<char>> {
        Seq::new(self.members@.len(), |i: int| self.members@[i].address@)
    }

    pub closed spec fn healths(&self) -> Seq<Health> {
        Seq::new(self.members@.len(), |i: int| self.members@[i].health)
    }

    pub closed spec fn cursor(&self) -> int {
        self.cursor as int
    }

    pub closed spec fn fail_open(&self) -> bool {
        self.fail_open
    }

    pub open spec fn len(&self) -> nat {
        self.addresses().len()
    }

    /// Every member has one address and one health.
    pub proof fn lemma_lengths(&self)
        ensures
            self.healths().len() == self.len(),
    {
    }

    pub closed spec fn wf(&self) -> bool {
        &&& distinct(self.addresses())
        &&& (self.members@.len() == 0 ==> self.cursor == 0)
        &&& (self.members@.len() > 0 ==> self.cursor < self.members@.len())
    }

    /// Builds a pool of the given addresses, every member assumed healthy
    /// until probed. Fails when two addresses are equal.
    pub fn new(addresses: Vec<String>) -> (r: Result<BackendPool, PoolError>)
        ensures
            r is Err <==> !distinct(addresses@.map_values(|a: String| a@)),
            r is Err ==> r == Err::<BackendPool, PoolError>(PoolError::DuplicateAddress),
            r matches Ok(p) ==> {
                &&& p.wf()
                &&& p.addresses() == addresses@.map_values(|a: String| a@)
                &&& p.healths() == Seq::new(addresses@.len(), |i: int| Health::Healthy)
                &&& p.cursor() == 0
                &&& p.fail_open()
            },
    {
        let ghost addrs = addresses@.map_values(|a: String| a@);
        let mut i: usize = 0;
        while i < addresses.len()
            invariant
                i <= addresses@.len(),
                addrs == addresses@.map_values(|a: String| a@),
                forall|a: int, b: int| 0 <= a < i && 0 <= b < addresses@.len() && a != b ==> addrs[a] != addrs[b],
            decreases addresses@.len() - i,
        {
            let mut j: usize = i + 1;
            while j < addresses.len()
                invariant
                    i < j <= addresses@.len(),
                    addrs == addresses@.map_values(|a: String| a@),
                    forall|a: int, b: int| 0 <= a < i && 0 <= b < addresses@.len() && a != b ==> addrs[a] != addrs[b],
                    forall|b: int| i < b < j ==> addrs[i as int] != addrs[b],
                decreases addresses@.len() - j,
            {
                if addresses[i] == addresses[j] {
                    assert(addrs[i as int] == addrs[j as int]);
                    return Err(PoolError::DuplicateAddress);
                }
                j = j + 1;
            }
            i = i + 1;
        }
        let mut members: Vec<Backend> = Vec::new();
        let mut k: usize = 0;
        while k < addresses.len()
            invariant
                k <= addresses@.len(),
                members@.len() == k,
                forall|m: int| 0 <= m < k ==> (#[trigger] members@[m]).address@ == addrs[m]
                    && members@[m].health == Health::Healthy,
                addrs == addresses@.map_values(|a: String| a@),
            decreases addresses@.len() - k,
        {
            members.push(Backend { address: addresses[k].clone(), health: Health::Healthy });
            k = k + 1;
        }
        let p = BackendPool { members, cursor: 0, fail_open: true };
        assert(p.addresses() =~= addrs);
        assert(p.healths() =~= Seq::new(addresses@.len(), |i: int| Health::Healthy));
        Ok(p)
    }

    /// Chooses what selection does when every member is unhealthy.
    pub fn set_fail_open(&mut self, fail_open: bool)
        requires
            old(self).wf(),
        ensures
            final(self).wf(),
            final(self).addresses() == old(self).addresses(),
            final(self).healths() == old(self).healths(),
            final(self).cursor() == old(self).cursor(),
            final(self).fail_open() == fail_open,
    {
        self.fail_open = fail_open;
    }

    /// The next member in round-robin order, skipping unhealthy ones; when all
    /// are unhealthy, the member at the cursor if the pool is fail-open. The
    /// cursor advances by one on every call on a non-empty pool.
    pub fn select(&mut self) -> (r: Result<String, PoolError>)
        requires
            old(self).wf(),
        ensures
            final(self).wf(),
            final(self).addresses() == old(self).addresses(),
            final(self).healths() == old(self).healths(),
            final(self).fail_open() == old(self).fail_open(),
            old(self).len() == 0 ==> r == Err::<String, PoolError>(PoolError::NoBackendAvailable)
                && final(self).cursor() == old(self).cursor(),
            old(self).len() > 0 ==> final(self).cursor() == (old(self).cursor() + 1) % (old(self).len() as int),
            old(self).len() > 0 && (old(self).fail_open() || any_healthy(old(self).healths())) ==> (r matches Ok(a)
                && a@ == old(self).addresses()[pick(old(self).healths(), old(self).cursor())]),
            old(self).len() > 0 && !old(self).fail_open() && !any_healthy(old(self).healths()) ==> r
                == Err::<String, PoolError>(PoolError::NoBackendAvailable),
    {
        let n = self.members.len();
        if n == 0 {
            return Err(PoolError::NoBackendAvailable);
        }
        let ghost h = self.healths();
        let start = self.cursor;
        let mut idx = start;
        let mut k: usize = 0;
        let mut chosen = start;
        proof { lemma_wrap(start as int, n as int); }
        while k < n
            invariant_except_break
                chosen == start,
            invariant
                n == self.members@.len(),
                h == self.healths(),
                start == self.cursor,
                start < n,
                k <= n,
                idx < n,
                idx as int == (start as int + k as int) % (n as int),
                pick(h, start as int) == scan_from(h, start as int, k as nat),
            ensures
                chosen < n,
                chosen as int == pick(h, start as int),
            decreases n - k,
        {
            if self.members[idx].health == Health::Healthy {
                chosen = idx;
                break;
            }
            proof { lemma_wrap(start as int + k as int + 1, n as int); lemma_wrap(start as int + k as int, n as int); }
            idx = if idx + 1 == n { 0 } else { idx + 1 };
            k = k + 1;
        }
        proof { lemma_wrap(start as int + 1, n as int); }
        self.cursor = if start + 1 == n { 0 } else { start + 1 };
        assert(self.addresses() =~= old(self).addresses());
        assert(self.healths() =~= old(self).healths());
        if self.members[chosen].health == Health::Unhealthy {
            proof {
                if any_healthy(h) {
                    lemma_pick_is_healthy(h, start as int);
                }
            }
            if !self.fail_open {
                return Err(PoolError::NoBackendAvailable);
            }
        } else {
            assert(h[chosen as int] == Health::Healthy);
            assert(any_healthy(h));
        }
        Ok(self.members[chosen].address.clone())
    }

    /// Sets the health of the member at `index`.
    pub fn set_health(&mut self, index: usize, health: Health)
        requires
            old(self).wf(),
            index < old(self).len(),
        ensures
            final(self).wf(),
            final(self).addresses() == old(self).addresses(),
            final(self).healths() == old(self).healths().update(index as int, health),
            final(self).cursor() == old(self).cursor(),
            final(self).fail_open() == old(self).fail_open(),
    {
        let ghost before = self.addresses();
        let mut b = self.members.remove(index);
        b.health = health;
        self.members.insert(index, b);
        assert(self.addresses() =~= before);
        assert(self.healths() =~= old(self).healths().update(index as int, health));
    }

    /// Sets the health of the member with the given address; returns whether
    /// the pool has such a member. Nothing changes when it has none.
    pub fn update_health(&mut self, address: &String, health: Health) -> (found: bool)
        requires
            old(self).wf(),
        ensures
            final(self).wf(),
            final(self).addresses() == old(self).addresses(),
            final(self).cursor() == old(self).cursor(),
            final(self).fail_open() == old(self).fail_open(),
            found == old(self).addresses().contains(address@),
            found ==> final(self).healths() == old(self).healths().update(
                old(self).addresses().index_of(address@),
                health,
            ),
            !found ==> final(self).healths() == old(self).healths(),
    {
        let ghost addrs = self.addresses();
        let mut i: usize = 0;
        while i < self.members.len()
            invariant
                self.wf(),
                addrs == self.addresses(),
                addrs == old(self).addresses(),
                self.healths() == old(self).healths(),
                self.cursor() == old(self).cursor(),
                self.fail_open() == old(self).fail_open(),
                i <= addrs.len(),
                forall|k: int| 0 <= k < i ==> addrs[k] != address@,
            decreases addrs.len() - i,
        {
            if self.members[i].address == *address {
                assert(addrs[i as int] == address@);
                proof {
                    assert(addrs.contains(address@));
                    assert(addrs.index_of(address@) == i as int) by {
                        let j = addrs.index_of(address@);
                        assert(addrs[j] == address@);
                        assert(j == i as int);
                    }
                }
                self.set_health(i, health);
                return true;
            }
            i = i + 1;
        }
        proof {
            if addrs.contains(address@) {
                let j = addrs.index_of(address@);
                assert(addrs[j] == address@);
            }
        }
        false
    }

    /// The members as they stand, for probing.
    pub fn members_snapshot(&self) -> (r: Vec<Backend>)
        ensures
            r@.len() == self.len(),
            forall|i: int| 0 <= i < r@.len() ==> (#[trigger] r@[i]).address@ == self.addresses()[i]
                && r@[i].health == self.healths()[i],
    {
        let mut r: Vec<Backend> = Vec::new();
        let mut i: usize = 0;
        while i < self.members.len()
            invariant
                i <= self.members@.len(),
                r@.len() == i,
                forall|k: int| 0 <= k < i ==> (#[trigger] r@[k]).address@ == self.addresses()[k]
                    && r@[k].health == self.healths()[k],
            decreases self.members@.len() - i,
        {
            let m = &self.members[i];
            r.push(Backend { address: m.address.clone(), health: m.health });
            i = i + 1;
        }
        r
    }
}

proof fn lemma_wrap(x: int, n: int)
    requires
        0 <= x < 2 * n,
    ensures
        x % n == if x < n { x } else { x - n },
{
    if x < n {
        vstd::arithmetic::div_mod::lemma_small_mod(x as nat, n as nat);
    } else {
        vstd::arithmetic::div_mod::lemma_small_mod((x - n) as nat, n as nat);
        vstd::arithmetic::div_mod::lemma_mod_sub_multiples_vanish(x, n);
    }
}

/// The position of member `i` counted forward from `s`, with wrap-around.
pub open spec fn offset(i: int, s: int, n: int) -> int {
    (i - s) % n
}

/// How often member `i` is chosen by `m` consecutive selections that start
/// with the cursor at `s`, the health of the members staying `health`.
pub open spec fn visits(health: Seq<Health>, s: int, m: nat, i: int) -> nat
    decreases m,
{
    if m == 0 {
        0
    } else {
        (if pick(health, s) == i { 1nat } else { 0nat })
            + visits(health, (s + 1) % (health.len() as int), (m - 1) as nat, i)
    }
}

proof fn lemma_offset(i: int, s: int, n: int)
    requires
        0 <= i < n,
        0 <= s < n,
    ensures
        offset(i, s, n) == if i >= s { i - s } else { i - s + n },
{
    vstd::arithmetic::div_mod::lemma_mod_add_multiples_vanish(i - s, n);
    lemma_wrap(i - s + n, n);
}

proof fn lemma_scan_in_range(health: Seq<Health>, s: int, k: nat)
    requires
        0 <= s < health.len(),
    ensures
        0 <= scan_from(health, s, k) < health.len(),
    decreases health.len() - k,
{
    if k < health.len() {
        if health[(s + k) % (health.len() as int)] != Health::Healthy {
            lemma_scan_in_range(health, s, k + 1);
        }
    }
}

proof fn lemma_scan_finds(health: Seq<Health>, s: int, k: nat, d: nat)
    requires
        0 <= s < health.len(),
        k <= d < health.len(),
        health[(s + d) % (health.len() as int)] == Health::Healthy,
    ensures
        health[scan_from(health, s, k)] == Health::Healthy,
    decreases d - k,
{
    if health[(s + k) % (health.len() as int)] != Health::Healthy {
        lemma_scan_finds(health, s, k + 1, d);
    }
}

/// Selection always returns a member of a non-empty pool, also when every
/// member is unhealthy (fail-open).
pub proof fn lemma_pick_is_member(health: Seq<Health>, s: int)
    requires
        0 <= s < health.len(),
    ensures
        0 <= pick(health, s) < health.len(),
{
    lemma_scan_in_range(health, s, 0);
}

/// While some member is healthy, selection returns a healthy member.
pub proof fn lemma_pick_is_healthy(health: Seq<Health>, s: int)
    requires
        0 <= s < health.len(),
        any_healthy(health),
    ensures
        health[pick(health, s)] == Health::Healthy,
{
    let n = health.len() as int;
    let j = choose|j: int| 0 <= j < health.len() && health[j] == Health::Healthy;
    lemma_offset(j, s, n);
    let d = offset(j, s, n);
    lemma_wrap(s + d, n);
    lemma_scan_finds(health, s, 0, d as nat);
}

/// An unhealthy member is skipped by selection, unless it is the only member,
/// which is then returned. (When every member of a larger pool is unhealthy,
/// selection is fail-open and may return it: that case is left out here.)
pub proof fn lemma_unhealthy_skipped(health: Seq<Health>, s: int, i: int)
    requires
        0 <= s < health.len(),
        0 <= i < health.len(),
        health[i] == Health::Unhealthy,
        health.len() == 1 || any_healthy(health),
    ensures
        (pick(health, s) == i) == (health.len() == 1),
{
    lemma_pick_is_member(health, s);
    if health.len() != 1 {
        lemma_pick_is_healthy(health, s);
    }
}

proof fn lemma_visits_all_healthy(health: Seq<Health>, s: int, m: nat, i: int)
    requires
        0 <= s < health.len(),
        0 <= i < health.len(),
        forall|j: int| 0 <= j < health.len() ==> health[j] == Health::Healthy,
    ensures
        visits(health, s, m, i) as int == (m + health.len() - 1 - offset(i, s, health.len() as int))
            / (health.len() as int),
    decreases m,
{
    let n = health.len() as int;
    lemma_offset(i, s, n);
    if m == 0 {
        vstd::arithmetic::div_mod::lemma_basic_div(n - 1 - offset(i, s, n), n);
    } else {
        lemma_wrap(s, n);
        assert(pick(health, s) == s);
        lemma_wrap(s + 1, n);
        let s1 = (s + 1) % n;
        lemma_visits_all_healthy(health, s1, (m - 1) as nat, i);
        lemma_offset(i, s1, n);
        let d = offset(i, s, n);
        let d1 = offset(i, s1, n);
        if s == i {
            assert(d == 0);
            assert(d1 == n - 1);
            vstd::arithmetic::div_mod::lemma_div_plus_one(m - 1, n);
            assert(visits(health, s, m, i) == 1 + visits(health, s1, (m - 1) as nat, i));
            assert((m - 1) + n - 1 - d1 == m - 1);
            assert(m + n - 1 - d == n + (m - 1));
        } else {
            assert(d1 == d - 1);
            assert(visits(health, s, m, i) == visits(health, s1, (m - 1) as nat, i));
            let x = (m - 1) + n - 1 - d1;
            assert(m + n - 1 - d == x);
        }
    }
}

/// Round-robin fairness: over `m` consecutive selections from a pool whose
/// members are all healthy, each member is chosen `m / n` or `ceil(m / n)` times.
pub proof fn lemma_round_robin_fair(health: Seq<Health>, s: int, m: nat, i: int)
    requires
        health.len() >= 1,
        0 <= s < health.len(),
        0 <= i < health.len(),
        forall|j: int| 0 <= j < health.len() ==> health[j] == Health::Healthy,
    ensures
        (m as int) / (health.len() as int) <= visits(health, s, m, i) as int
            <= (m + health.len() - 1) / (health.len() as int),
{
    let n = health.len() as int;
    lemma_visits_all_healthy(health, s, m, i);
    lemma_offset(i, s, n);
    vstd::arithmetic::div_mod::lemma_div_is_ordered(m as int, m + n - 1 - offset(i, s, n), n);
    vstd::arithmetic::div_mod::lemma_div_is_ordered(m + n - 1 - offset(i, s, n), m + n - 1, n);
}

} // verus!
