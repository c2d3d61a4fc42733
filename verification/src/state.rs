//! The state that requests and the operator share: whether requests are
//! stopped or only watched, and how often each address was blocked.

use vstd::prelude::*;
use vstd::string::*;

use crate::names::{NameCounts, NameSet};
use crate::storage::{
    bypasses, ip_added, ips_cleared, rows_inserted, Storage, StorageView,
};

verus! {

/// The number of blocks after which an address is banned.
pub const AUTO_BAN_THRESHOLD: u32 = 5;

/// The switches and counters of a running firewall. An address is given by its
/// canonical text.
pub struct Controls {
    block_counts: NameCounts,
    banned_fallback: NameSet,
    enforce: bool,
    auto_ban_threshold: u32,
    storage: Option<Storage>,
}

/// How often each address was blocked; the addresses banned without a
/// blacklist; whether requests are stopped; the blocks that lead to a ban, or 0
/// for never; the blacklist.
pub struct ControlsView {
    pub counts: Map<Seq<char>, u32>,
    pub fallback: Set<Seq<char>>,
    pub enforce: bool,
    pub threshold: u32,
    pub storage: Option<StorageView>,
}

impl View for Controls {
    type V = ControlsView;

    closed spec fn view(&self) -> ControlsView {
        ControlsView {
            counts: self.block_counts@,
            fallback: self.banned_fallback@,
            enforce: self.enforce,
            threshold: self.auto_ban_threshold,
            storage: match self.storage {
                Some(s) => Some(s@),
                None => None,
            },
        }
    }
}

/// Nothing was blocked yet, and requests are stopped.
pub open spec fn fresh(threshold: u32, storage: Option<StorageView>) -> ControlsView {
    ControlsView {
        counts: Map::empty(),
        fallback: Set::empty(),
        enforce: true,
        threshold,
        storage,
    }
}

/// How often the address was blocked.
pub open spec fn blocks_of(c: ControlsView, ip: Seq<char>) -> u32 {
    if c.counts.contains_key(ip) {
        c.counts[ip]
    } else {
        0
    }
}

/// The banned addresses.
pub open spec fn banned_ips(c: ControlsView) -> Set<Seq<char>> {
    match c.storage {
        Some(s) => s.banned,
        None => c.fallback,
    }
}

/// One more block of the address leads to a ban that was not there.
pub open spec fn bans(c: ControlsView, ip: Seq<char>) -> bool {
    c.threshold > 0 && blocks_of(c, ip) + 1 >= c.threshold && !banned_ips(c).contains(ip)
}

/// After one more block of the address. A ban that is kept in a blacklist is
/// left to the blacklist.
pub open spec fn blocked(c: ControlsView, ip: Seq<char>) -> ControlsView {
    if c.threshold == 0 {
        c
    } else {
        ControlsView {
            counts: c.counts.insert(ip, (blocks_of(c, ip) + 1) as u32),
            fallback: if bans(c, ip) && c.storage is None {
                c.fallback.insert(ip)
            } else {
                c.fallback
            },
            ..c
        }
    }
}

/// One more block of the address can be counted.
pub open spec fn countable(c: ControlsView, ip: Seq<char>) -> bool {
    c.threshold > 0 ==> blocks_of(c, ip) < u32::MAX
}

/// After a ban was put into the table of the blacklist, which affected some
/// rows.
pub open spec fn ban_in_storage(c: ControlsView, ip: Seq<char>, affected: nat) -> ControlsView {
    ControlsView {
        storage: match c.storage {
            Some(s) => Some(ip_added(s, ip, affected)),
            None => None,
        },
        ..c
    }
}

/// The path is let through without inspection.
pub open spec fn path_bypasses(c: ControlsView, path: Seq<char>) -> bool {
    match c.storage {
        Some(s) => bypasses(s, path),
        None => false,
    }
}

/// After all counts were forgotten and all bans lifted; those of a blacklist
/// only if its table was emptied.
pub open spec fn unbanned(c: ControlsView, table_emptied: bool) -> ControlsView {
    ControlsView {
        counts: Map::empty(),
        fallback: if c.storage is None {
            Set::empty()
        } else {
            c.fallback
        },
        storage: match c.storage {
            Some(s) => Some(if table_emptied {
                ips_cleared(s)
            } else {
                s
            }),
            None => None,
        },
        ..c
    }
}

/// How many bans are lifted where some rows of the table of the blacklist were
/// deleted, or where it could not be emptied.
pub open spec fn lifted(c: ControlsView, deleted: Option<usize>) -> nat {
    match c.storage {
        Some(_) => match deleted {
            Some(rows) => rows as nat,
            None => 0,
        },
        None => c.fallback.len(),
    }
}

/// In the other mode.
pub open spec fn toggled(c: ControlsView) -> ControlsView {
    ControlsView { enforce: !c.enforce, ..c }
}

impl Controls {
    /// Nothing was blocked yet, and requests are stopped.
    pub fn new(auto_ban_threshold: u32, storage: Option<Storage>) -> (r: Self)
        ensures
            r@ == fresh(
                auto_ban_threshold,
                match storage {
                    Some(s) => Some(s@),
                    None => None,
                },
            ),
    {
        Controls {
            block_counts: NameCounts::new(),
            banned_fallback: NameSet::new(),
            enforce: true,
            auto_ban_threshold,
            storage,
        }
    }

    /// Is the address banned?
    pub fn is_banned(&self, ip: &str) -> (r: bool)
        ensures
            r == banned_ips(self@).contains(ip@),
    {
        match &self.storage {
            Some(s) => s.is_banned(ip),
            None => self.banned_fallback.contains(ip),
        }
    }

    /// How often the address was blocked.
    pub fn block_count(&self, ip: &str) -> (r: u32)
        ensures
            r == blocks_of(self@, ip@),
    {
        match self.block_counts.get(ip) {
            Some(n) => n,
            None => 0,
        }
    }

    /// Counts a block of the address. Says whether it leads to a ban that was
    /// not there: without a blacklist the ban is in force at once; with one, it
    /// is for the caller to put the address there.
    pub fn record_block(&mut self, ip: &str) -> (r: bool)
        requires
            countable(old(self)@, ip@),
        ensures
            final(self)@ == blocked(old(self)@, ip@),
            r == bans(old(self)@, ip@),
    {
        if self.auto_ban_threshold == 0 {
            return false;
        }
        let banned = self.is_banned(ip);
        let count: u32 = self.block_count(ip) + 1;
        self.block_counts.set(ip, count);
        if count >= self.auto_ban_threshold && !banned {
            if self.storage.is_none() {
                self.banned_fallback.insert(ip);
            }
            true
        } else {
            false
        }
    }

    /// Follows the insertion of a ban into the table of the blacklist that
    /// affected some rows. Says whether the address is new there.
    pub fn ban_stored(&mut self, ip: &str, affected: usize) -> (r: bool)
        ensures
            final(self)@ == ban_in_storage(old(self)@, ip@, affected as nat),
            r == (old(self)@.storage is Some && affected > 0),
    {
        match self.storage.take() {
            Some(s) => {
                let mut s = s;
                let r = s.add_blacklist(ip, affected);
                self.storage = Some(s);
                r
            },
            None => false,
        }
    }

    /// Is the path let through without inspection?
    pub fn is_bypass(&self, path: &str) -> (r: bool)
        ensures
            r == path_bypasses(self@, path@),
    {
        match &self.storage {
            Some(s) => s.is_bypass(path),
            None => false,
        }
    }

    /// Forgets all counts and lifts all bans, and gives back how many there
    /// were: with a blacklist, the rows that were deleted from its table.
    /// `deleted` is their number, or nothing where the table could not be
    /// emptied; its bans then stay. Without a blacklist it does not count.
    pub fn unban_all(&mut self, deleted: Option<usize>) -> (r: usize)
        ensures
            final(self)@ == unbanned(old(self)@, deleted is Some),
            r == lifted(old(self)@, deleted),
            old(self)@.fallback.finite(),
    {
        self.block_counts.clear();
        let n: usize = self.banned_fallback.len();
        match self.storage.take() {
            Some(s) => {
                let mut s = s;
                let rows: usize = match deleted {
                    Some(rows) => s.clear_blacklist(rows),
                    None => 0,
                };
                self.storage = Some(s);
                rows
            },
            None => {
                self.banned_fallback.clear();
                n
            },
        }
    }

    /// The number of banned addresses.
    pub fn banned_count(&self) -> (r: usize)
        ensures
            r == banned_ips(self@).len(),
            banned_ips(self@).finite(),
    {
        match &self.storage {
            Some(s) => s.banned_count(),
            None => self.banned_fallback.len(),
        }
    }

    /// Are requests stopped, or only watched?
    pub fn enforce(&self) -> (r: bool)
        ensures
            r == self@.enforce,
    {
        self.enforce
    }

    /// Goes to the other mode, and says which it is.
    pub fn toggle_enforce(&mut self) -> (r: bool)
        ensures
            final(self)@ == toggled(old(self)@),
            r == final(self)@.enforce,
    {
        let new = !self.enforce;
        self.enforce = new;
        new
    }
}

/// After blocks of some addresses, one after the other.
pub open spec fn all_blocked(c: ControlsView, ips: Seq<Seq<char>>) -> ControlsView
    decreases ips.len(),
{
    if ips.len() == 0 {
        c
    } else {
        blocked(all_blocked(c, ips.drop_last()), ips.last())
    }
}

/// How often the address is among some.
pub open spec fn times_among(ips: Seq<Seq<char>>, ip: Seq<char>) -> nat
    decreases ips.len(),
{
    if ips.len() == 0 {
        0
    } else {
        times_among(ips.drop_last(), ip) + if ips.last() == ip {
            1nat
        } else {
            0
        }
    }
}

/// Without a blacklist an address is banned from its block on that reaches the
/// threshold, no sooner and no later, and only that block is said to ban it,
/// whichever other addresses are blocked in between. A threshold of 0 bans
/// nobody.
pub proof fn law_ban_comes_at_the_threshold(threshold: u32, ips: Seq<Seq<char>>, ip: Seq<char>)
    requires
        forall|x: Seq<char>| #[trigger] times_among(ips, x) < u32::MAX,
    ensures
        ({
            let c = all_blocked(fresh(threshold, None), ips);
            let times = times_among(ips, ip);
            &&& banned_ips(c).contains(ip) <==> threshold > 0 && times >= threshold
            &&& bans(c, ip) <==> threshold > 0 && times + 1 == threshold
            &&& threshold > 0 ==> blocks_of(c, ip) == times
            &&& c.enforce
            &&& c.threshold == threshold
            &&& c.storage is None
        }),
    decreases ips.len(),
{
    if ips.len() > 0 {
        let front = ips.drop_last();
        assert forall|x: Seq<char>| #[trigger] times_among(front, x) < u32::MAX by {
            assert(times_among(ips, x) < u32::MAX);
        }
        law_ban_comes_at_the_threshold(threshold, front, ip);
    }
}

/// With a blacklist, a ban that a block leads to is in force once the address
/// stands in the table.
pub proof fn law_ban_reaches_the_blacklist(c: ControlsView, ip: Seq<char>)
    requires
        c.storage is Some,
        bans(c, ip),
    ensures
        banned_ips(
            ban_in_storage(blocked(c, ip), ip, rows_inserted(banned_ips(c), ip)),
        ) == banned_ips(c).insert(ip),
{
}

/// Counting a block leaves what is known of every other address, the mode, the
/// threshold and the blacklist as they were.
pub proof fn law_block_touches_one_address(c: ControlsView, ip: Seq<char>, other: Seq<char>)
    requires
        other != ip,
    ensures
        blocks_of(blocked(c, ip), other) == blocks_of(c, other),
        banned_ips(blocked(c, ip)).contains(other) == banned_ips(c).contains(other),
        blocked(c, ip).enforce == c.enforce,
        blocked(c, ip).threshold == c.threshold,
        blocked(c, ip).storage == c.storage,
{
}

/// Once all bans are lifted nobody is banned and every count starts anew; and as
/// many are said to be lifted as there were, if the table of the blacklist held
/// just them.
pub proof fn law_unban_lifts_everything(c: ControlsView, ip: Seq<char>, deleted: usize)
    ensures
        c.storage is Some ==> deleted == banned_ips(c).len() ==> lifted(c, Some(deleted))
            == banned_ips(c).len(),
        c.storage is None ==> lifted(c, Some(deleted)) == banned_ips(c).len(),
        !banned_ips(unbanned(c, true)).contains(ip),
        blocks_of(unbanned(c, true), ip) == 0,
        unbanned(c, true).enforce == c.enforce,
        unbanned(c, true).threshold == c.threshold,
{
}

/// Going to the other mode twice changes nothing, and neither mode forgets a
/// count or a ban.
pub proof fn law_toggling_twice_changes_nothing(c: ControlsView, ip: Seq<char>)
    ensures
        toggled(toggled(c)) == c,
        blocks_of(toggled(c), ip) == blocks_of(c, ip),
        banned_ips(toggled(c)) == banned_ips(c),
{
}

} // verus!
