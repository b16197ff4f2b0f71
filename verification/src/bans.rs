//! Addresses on the network, and the hosts that are banned for a time.

use vstd::prelude::*;

verus! {

/// The address of a host, as a number.
#[derive(Clone, Copy, Debug, PartialEq, Eq, Hash, Structural)]
pub enum Ip {
    V4(u32),
    V6(u128),
}

/// The address of one end of a connection. The last two fields belong to
/// version 6 of the protocol and are zero for version 4.
#[derive(Clone, Copy, Debug, PartialEq, Eq, Hash, Structural)]
pub struct Address {
    pub ip: Ip,
    pub port: u16,
    pub flow_info: u32,
    pub scope_id: u32,
}

/// A host that is banned, and the time until which it is.
pub struct Ban {
    pub ip: Ip,
    pub deadline: u128,
}

/// The bans whose time has not come at `now`.
pub open spec fn still_banned(bans: Map<Ip, u128>, now: u64) -> Map<Ip, u128> {
    bans.filter_keys(|ip: Ip| bans[ip] > now)
}

/// The hosts that are banned, each until its own time.
pub struct BanList {
    bans: Vec<Ban>,
}

impl BanList {
    /// Whether the list holds a ban of `ip`.
    spec fn holds(bans: Seq<Ban>, ip: Ip) -> bool {
        exists|i: int| 0 <= i < bans.len() && (#[trigger] bans[i]).ip == ip
    }

    /// Where the list holds the ban of `ip`.
    spec fn slot(bans: Seq<Ban>, ip: Ip) -> int {
        choose|i: int| 0 <= i < bans.len() && (#[trigger] bans[i]).ip == ip
    }

    /// No host is in the list twice.
    spec fn unique(bans: Seq<Ban>) -> bool {
        forall|i: int, j: int| 0 <= i < j < bans.len() ==> (#[trigger] bans[i]).ip != (
        #[trigger] bans[j]).ip
    }

    /// The list as a map from hosts to times.
    spec fn as_map(bans: Seq<Ban>) -> Map<Ip, u128> {
        Map::new(|ip: Ip| Self::holds(bans, ip), |ip: Ip| bans[Self::slot(bans, ip)].deadline)
    }

    /// The time until which each host is banned.
    pub closed spec fn view(&self) -> Map<Ip, u128> {
        Self::as_map(self.bans@)
    }

    /// No host is in the list twice.
    pub closed spec fn wf(&self) -> bool {
        Self::unique(self.bans@)
    }

    /// The ban at `i` is that of its host.
    proof fn lemma_slot(bans: Seq<Ban>, i: int)
        requires
            Self::unique(bans),
            0 <= i < bans.len(),
        ensures
            Self::holds(bans, bans[i].ip),
            Self::slot(bans, bans[i].ip) == i,
            Self::as_map(bans).contains_key(bans[i].ip),
            Self::as_map(bans)[bans[i].ip] == bans[i].deadline,
    {
        let ip = bans[i].ip;
        assert(bans[i].ip == ip);
        let j = Self::slot(bans, ip);
        assert(0 <= j < bans.len() && bans[j].ip == ip);
        if j < i {
            assert(bans[j].ip != bans[i].ip);
        } else if i < j {
            assert(bans[i].ip != bans[j].ip);
        }
    }

    /// A list without bans.
    pub fn new() -> (list: BanList)
        ensures
            list.wf(),
            list@ == Map::<Ip, u128>::empty(),
    {
        let list: BanList = BanList { bans: Vec::new() };
        assert(list@ =~= Map::<Ip, u128>::empty());
        list
    }

    /// The time until which `ip` is banned, if it is.
    pub fn deadline(&self, ip: Ip) -> (deadline: Option<u128>)
        requires
            self.wf(),
        ensures
            deadline == self@.get(ip),
    {
        let mut i: usize = 0;
        while i < self.bans.len()
            invariant
                i <= self.bans.len(),
                self.wf(),
                forall|k: int| 0 <= k < i ==> (#[trigger] self.bans@[k]).ip != ip,
            decreases self.bans.len() - i,
        {
            if self.bans[i].ip == ip {
                proof {
                    Self::lemma_slot(self.bans@, i as int);
                }
                return Some(self.bans[i].deadline);
            }
            i = i + 1;
        }
        assert(!Self::holds(self.bans@, ip));
        None
    }

    /// Bans `ip` until `deadline`, whatever was said of it before.
    pub fn insert(&mut self, ip: Ip, deadline: u128)
        requires
            old(self).wf(),
        ensures
            final(self).wf(),
            final(self)@ == old(self)@.insert(ip, deadline),
    {
        let ghost before = self.bans@;
        let mut i: usize = 0;
        while i < self.bans.len() && self.bans[i].ip != ip
            invariant
                i <= self.bans.len(),
                self.bans@ == before,
                forall|k: int| 0 <= k < i ==> (#[trigger] before[k]).ip != ip,
            decreases self.bans.len() - i,
        {
            i = i + 1;
        }
        if i < self.bans.len() {
            self.bans.set(i, Ban { ip, deadline });
        } else {
            self.bans.push(Ban { ip, deadline });
        }
        proof {
            let after = self.bans@;
            let at = i as int;
            assert(after[at].ip == ip && after[at].deadline == deadline);
            assert forall|k: int| 0 <= k < before.len() && k != at implies #[trigger] after[k]
                == before[k] by {}
            assert forall|a: int, b: int| 0 <= a < b < after.len() implies (#[trigger] after[a]).ip
                != (#[trigger] after[b]).ip by {
                if a != at && b != at {
                    assert(before[a].ip != before[b].ip);
                } else if at < before.len() {
                    assert(before[a].ip != before[b].ip);
                }
            }
            let m = Self::as_map(before).insert(ip, deadline);
            assert forall|x: Ip| #[trigger] Self::as_map(after).contains_key(x) == m.contains_key(
                x,
            ) by {
                if x == ip {
                    Self::lemma_slot(after, at);
                } else {
                    if Self::holds(before, x) {
                        let k = Self::slot(before, x);
                        assert(after[k].ip == x);
                    }
                    if Self::holds(after, x) {
                        let k = Self::slot(after, x);
                        assert(before[k].ip == x);
                    }
                }
            }
            assert forall|x: Ip| Self::as_map(after).contains_key(x) implies #[trigger] Self::as_map(
                after,
            )[x] == m[x] by {
                if x == ip {
                    Self::lemma_slot(after, at);
                } else {
                    let k = Self::slot(after, x);
                    assert(before[k].ip == x);
                    Self::lemma_slot(before, k);
                }
            }
            assert(Self::as_map(after) =~= m);
        }
    }

    /// Lifts the bans whose time has come.
    pub fn retain(&mut self, now: u64)
        requires
            old(self).wf(),
        ensures
            final(self).wf(),
            final(self)@ == still_banned(old(self)@, now),
    {
        let mut kept: Vec<Ban> = Vec::new();
        let ghost before = self.bans@;
        let ghost mut from: Seq<int> = Seq::empty();
        let mut i: usize = 0;
        while i < self.bans.len()
            invariant
                i <= self.bans.len(),
                self.bans@ == before,
                from.len() == kept.len(),
                forall|k: int|
                    0 <= k < kept.len() ==> 0 <= #[trigger] from[k] < i && kept@[k]
                        == before[from[k]] && kept@[k].deadline > now,
                forall|a: int, b: int| 0 <= a < b < from.len() ==> from[a] < from[b],
                forall|j: int|
                    0 <= j < i && (#[trigger] before[j]).deadline > now ==> from.contains(j),
            decreases self.bans.len() - i,
        {
            if self.bans[i].deadline > now as u128 {
                kept.push(Ban { ip: self.bans[i].ip, deadline: self.bans[i].deadline });
                proof {
                    let longer = from.push(i as int);
                    assert forall|j: int|
                        0 <= j < i + 1 && (#[trigger] before[j]).deadline
                            > now implies longer.contains(j) by {
                        if j < i {
                            let k = choose|k: int| 0 <= k < from.len() && from[k] == j;
                            assert(longer[k] == j);
                        } else {
                            assert(longer[from.len() as int] == j);
                        }
                    }
                    from = longer;
                }
            }
            i = i + 1;
        }
        proof {
            let after = kept@;
            assert(Self::unique(before));
            assert forall|a: int, b: int| 0 <= a < b < after.len() implies (#[trigger] after[a]).ip
                != (#[trigger] after[b]).ip by {
                assert(from[a] < from[b]);
                assert(before[from[a]].ip != before[from[b]].ip);
            }
            let old_map = Self::as_map(before);
            let m = still_banned(old_map, now);
            assert forall|x: Ip| #[trigger] Self::as_map(after).contains_key(x) == m.contains_key(
                x,
            ) by {
                if m.contains_key(x) {
                    let j = Self::slot(before, x);
                    assert(before[j].deadline > now);
                    let k = choose|k: int| 0 <= k < from.len() && from[k] == j;
                    assert(after[k].ip == x);
                }
                if Self::holds(after, x) {
                    let k = Self::slot(after, x);
                    assert(0 <= from[k] < before.len());
                    Self::lemma_slot(before, from[k]);
                    assert(old_map[x] > now);
                }
            }
            assert forall|x: Ip| Self::as_map(after).contains_key(x) implies #[trigger] Self::as_map(
                after,
            )[x] == m[x] by {
                let k = Self::slot(after, x);
                assert(0 <= from[k] < before.len());
                Self::lemma_slot(before, from[k]);
                Self::lemma_slot(after, k);
            }
            assert(Self::as_map(after) =~= m);
        }
        self.bans = kept;
    }
}

/// A ban is kept, as it is, as long as its time has not come, and no longer.
pub proof fn law_bans_are_kept_until_their_time(bans: Map<Ip, u128>, now: u64, ip: Ip)
    ensures
        still_banned(bans, now).contains_key(ip) <==> bans.contains_key(ip) && now < bans[ip],
        still_banned(bans, now).contains_key(ip) ==> still_banned(bans, now)[ip] == bans[ip],
{
}

} // verus!
