//! What the blacklist, the bypass paths and the counters are for: the tables
//! decide who is refused and what is let through, and nothing else changes with
//! them.

use vstd::prelude::*;

use crate::state::{
    ban_in_storage, banned_ips, bans, blocked, blocks_of, fresh, lifted, path_bypasses, toggled,
    unbanned, ControlsView,
};
use crate::storage::{
    bypasses, in_sync, ip_added, ip_removed, ips_cleared, is_prefix_pattern,
    law_bypass_is_by_pattern, law_bypass_stays_in_sync, law_opened_in_sync, opened, pattern_added,
    pattern_matches, pattern_removed, starts_with_one, StorageView,
};
use crate::text::occurs_at;

verus! {

/// The pattern lets the path through: it is the path, or it ends in a slash and
/// the path goes on from it.
pub open spec fn lets_through(pattern: Seq<char>, path: Seq<char>) -> bool {
    ||| path == pattern
    ||| exists|rest: Seq<char>|
        pattern.len() > 0 && pattern[pattern.len() - 1] == '/' && path == #[trigger] (pattern
            + rest)
}

proof fn lemma_lets_through(pattern: Seq<char>, path: Seq<char>)
    ensures
        pattern_matches(pattern, path) <==> lets_through(pattern, path),
{
    if pattern_matches(pattern, path) && path != pattern {
        assert(occurs_at(path, pattern, 0));
        assert(path =~= pattern + path.skip(pattern.len() as int));
    }
    if lets_through(pattern, path) {
        if path == pattern {
            assert(path.subrange(0, pattern.len() as int) =~= pattern);
        } else {
            let rest = choose|rest: Seq<char>|
                pattern.len() > 0 && pattern[pattern.len() - 1] == '/' && path == #[trigger] (pattern
                    + rest);
            assert(path.subrange(0, pattern.len() as int) =~= pattern);
        }
    }
}

/// What the rows of the tables hold is in force: just the addresses that have a
/// row are banned, and just the paths are let through that a row lets through.
pub proof fn law_rows_are_in_force(
    ips: Seq<Seq<char>>,
    patterns: Seq<Seq<char>>,
    ip: Seq<char>,
    path: Seq<char>,
)
    ensures
        opened(ips, patterns).banned.contains(ip) <==> exists|i: int|
            0 <= i < ips.len() && ips[i] == ip,
        bypasses(opened(ips, patterns), path) <==> exists|i: int|
            0 <= i < patterns.len() && lets_through(#[trigger] patterns[i], path),
{
    let s = opened(ips, patterns);
    law_opened_in_sync(ips, patterns);
    law_bypass_is_by_pattern(s, ips.to_set(), patterns.to_set(), path);
    assert(s.banned.contains(ip) <==> ips.contains(ip));
    if bypasses(s, path) {
        let p = choose|p: Seq<char>| #[trigger]
            patterns.to_set().contains(p) && pattern_matches(p, path);
        lemma_lets_through(p, path);
        let i = choose|i: int| 0 <= i < patterns.len() && patterns[i] == p;
        assert(lets_through(patterns[i], path));
    }
    if exists|i: int| 0 <= i < patterns.len() && lets_through(#[trigger] patterns[i], path) {
        let i = choose|i: int| 0 <= i < patterns.len() && lets_through(#[trigger] patterns[i], path);
        lemma_lets_through(patterns[i], path);
        assert(patterns.to_set().contains(patterns[i]));
    }
}

/// A pattern that is added lets its own paths through from then on, and those of
/// the others as before. One that was there already, and the blacklist, change
/// nothing.
pub proof fn law_added_pattern_is_in_force(
    s: StorageView,
    pattern: Seq<char>,
    affected: nat,
    path: Seq<char>,
)
    ensures
        pattern_added(s, pattern, affected).banned == s.banned,
        affected == 0 ==> pattern_added(s, pattern, affected) == s,
        affected > 0 ==> (bypasses(pattern_added(s, pattern, affected), path) <==> bypasses(s, path)
            || lets_through(pattern, path)),
{
    let a = pattern_added(s, pattern, affected);
    lemma_lets_through(pattern, path);
    if affected > 0 && is_prefix_pattern(pattern) {
        let n = s.prefixes.len() as int;
        assert(a.prefixes[n] == pattern);
        assert(a.exact == s.exact);
        if starts_with_one(path, s.prefixes) {
            let i = choose|i: int|
                0 <= i < s.prefixes.len() && occurs_at(path, #[trigger] s.prefixes[i], 0);
            assert(a.prefixes[i] == s.prefixes[i]);
            assert(starts_with_one(path, a.prefixes));
        }
        if lets_through(pattern, path) {
            assert(occurs_at(path, a.prefixes[n], 0));
            assert(starts_with_one(path, a.prefixes));
        }
        if starts_with_one(path, a.prefixes) {
            let i = choose|i: int|
                0 <= i < a.prefixes.len() && occurs_at(path, #[trigger] a.prefixes[i], 0);
            if i < n {
                assert(a.prefixes[i] == s.prefixes[i]);
                assert(starts_with_one(path, s.prefixes));
            } else {
                assert(pattern_matches(pattern, path));
            }
        }
    }
}

/// A pattern that is removed lets nothing through any more, and the others do as
/// before.
pub proof fn law_removed_pattern_is_out_of_force(
    s: StorageView,
    blacklist: Set<Seq<char>>,
    patterns: Set<Seq<char>>,
    pattern: Seq<char>,
    path: Seq<char>,
)
    requires
        in_sync(s, blacklist, patterns),
        patterns.contains(pattern),
    ensures
        pattern_removed(s, pattern, 0) == s,
        pattern_removed(s, pattern, 1).banned == s.banned,
        bypasses(pattern_removed(s, pattern, 1), path) <==> exists|p: Seq<char>|
            patterns.contains(p) && p != pattern && #[trigger] lets_through(p, path),
{
    let r = pattern_removed(s, pattern, 1);
    let left = patterns.remove(pattern);
    law_bypass_stays_in_sync(s, blacklist, patterns, pattern);
    law_bypass_is_by_pattern(r, blacklist, left, path);
    if bypasses(r, path) {
        let p = choose|p: Seq<char>| #[trigger] left.contains(p) && pattern_matches(p, path);
        lemma_lets_through(p, path);
        assert(patterns.contains(p) && p != pattern && lets_through(p, path));
    }
    if exists|p: Seq<char>| patterns.contains(p) && p != pattern && #[trigger] lets_through(p, path) {
        let p = choose|p: Seq<char>|
            patterns.contains(p) && p != pattern && #[trigger] lets_through(p, path);
        lemma_lets_through(p, path);
        assert(left.contains(p) && pattern_matches(p, path));
    }
}

/// Adding an address bans it and no other, removing it lifts its ban and no
/// other, and emptying the blacklist lifts all; a change that affected no row
/// changes nothing, and paths are let through as before.
pub proof fn law_blacklist_is_by_address(
    s: StorageView,
    ip: Seq<char>,
    affected: nat,
    other: Seq<char>,
    path: Seq<char>,
)
    ensures
        ip_added(s, ip, affected).banned.contains(other) <==> s.banned.contains(other) || (other
            == ip && affected > 0),
        ip_removed(s, ip, affected).banned.contains(other) <==> s.banned.contains(other) && !(other
            == ip && affected > 0),
        !ips_cleared(s).banned.contains(other),
        bypasses(ip_added(s, ip, affected), path) == bypasses(s, path),
        bypasses(ip_removed(s, ip, affected), path) == bypasses(s, path),
        bypasses(ips_cleared(s), path) == bypasses(s, path),
{
}

/// At first nothing was blocked, requests are stopped, and just the blacklist
/// decides who is banned and what is let through.
pub proof fn law_fresh_start(
    threshold: u32,
    storage: Option<StorageView>,
    ip: Seq<char>,
    path: Seq<char>,
)
    ensures
        ({
            let c = fresh(threshold, storage);
            &&& c.enforce
            &&& c.threshold == threshold
            &&& blocks_of(c, ip) == 0
            &&& storage is None ==> !banned_ips(c).contains(ip) && !path_bypasses(c, path)
            &&& storage matches Some(s) ==> banned_ips(c).contains(ip) == s.banned.contains(ip)
                && path_bypasses(c, path) == bypasses(s, path)
        }),
{
}

/// A block counts once for its address. It is said to ban the address just if it
/// reaches the threshold and the address is not banned yet; without a blacklist
/// the ban is in force at once, and with one it is not there yet. A threshold
/// of 0 counts nothing.
pub proof fn law_block_counts_once(c: ControlsView, ip: Seq<char>)
    requires
        blocks_of(c, ip) < u32::MAX,
    ensures
        c.threshold == 0 ==> blocked(c, ip) == c && !bans(c, ip),
        c.threshold > 0 ==> {
            &&& blocks_of(blocked(c, ip), ip) == blocks_of(c, ip) + 1
            &&& bans(c, ip) <==> !banned_ips(c).contains(ip) && blocks_of(c, ip) + 1 >= c.threshold
            &&& c.storage is None ==> (banned_ips(blocked(c, ip)).contains(ip) <==> banned_ips(
                c,
            ).contains(ip) || blocks_of(c, ip) + 1 >= c.threshold)
            &&& c.storage is Some ==> banned_ips(blocked(c, ip)) == banned_ips(c)
        },
{
}

/// A ban that was put into the table is in force, and touches nothing but the
/// blacklist.
pub proof fn law_stored_ban_is_in_force(
    c: ControlsView,
    ip: Seq<char>,
    affected: nat,
    other: Seq<char>,
    path: Seq<char>,
)
    ensures
        ({
            let after = ban_in_storage(c, ip, affected);
            &&& c.storage is Some ==> (banned_ips(after).contains(other) <==> banned_ips(
                c,
            ).contains(other) || (other == ip && affected > 0))
            &&& c.storage is None ==> after == c
            &&& blocks_of(after, other) == blocks_of(c, other)
            &&& path_bypasses(after, path) == path_bypasses(c, path)
            &&& after.enforce == c.enforce && after.threshold == c.threshold
        }),
{
}

/// Lifting all bans forgets all counts, and lifts those of a blacklist just if
/// its table was emptied; paths are let through as before, and the mode stays.
pub proof fn law_lifting(
    c: ControlsView,
    emptied: bool,
    rows: usize,
    ip: Seq<char>,
    path: Seq<char>,
)
    ensures
        ({
            let after = unbanned(c, emptied);
            &&& blocks_of(after, ip) == 0
            &&& c.storage is None || emptied ==> !banned_ips(after).contains(ip)
            &&& c.storage is Some && !emptied ==> banned_ips(after) == banned_ips(c)
            &&& path_bypasses(after, path) == path_bypasses(c, path)
            &&& after.enforce == c.enforce && after.threshold == c.threshold
        }),
        c.storage is Some ==> lifted(c, Some(rows)) == rows && lifted(c, None) == 0,
        c.storage is None ==> lifted(c, Some(rows)) == banned_ips(c).len() && lifted(c, None)
            == banned_ips(c).len(),
{
}

/// The mode is turned over and nothing else changes.
pub proof fn law_mode_is_turned_over(c: ControlsView)
    ensures
        toggled(c).enforce == !c.enforce,
        toggled(c).counts == c.counts,
        toggled(c).fallback == c.fallback,
        toggled(c).threshold == c.threshold,
        toggled(c).storage == c.storage,
{
}

} // verus!
