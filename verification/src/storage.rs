//! The blacklist and the bypass paths, as the proxy asks for them.
//!
//! The tables live in a database. What stands here is the copy in memory that
//! answers every request: it is filled from the rows of the tables, and each
//! change of a table, reported by the number of rows that it affected, is
//! followed here.

use vstd::prelude::*;
use vstd::string::*;

use crate::names::NameSet;
use crate::text::{chars_of, has_prefix, occurs_at, same_text, texts};

verus! {

/// A bypass path, as a row of its table.
#[derive(Debug)]
pub struct BypassPath {
    pub pattern: String,
    pub comment: String,
    pub created_at: String,
}

impl Clone for BypassPath {
    fn clone(&self) -> (r: Self)
        ensures
            r == *self,
    {
        BypassPath {
            pattern: self.pattern.clone(),
            comment: self.comment.clone(),
            created_at: self.created_at.clone(),
        }
    }
}

/// A blacklisted address, as a row of its table.
#[derive(Debug)]
pub struct BlacklistEntry {
    pub ip: String,
    pub reason: String,
    pub blocked_at: String,
}

impl Clone for BlacklistEntry {
    fn clone(&self) -> (r: Self)
        ensures
            r == *self,
    {
        BlacklistEntry {
            ip: self.ip.clone(),
            reason: self.reason.clone(),
            blocked_at: self.blocked_at.clone(),
        }
    }
}

/// The blacklisted addresses and the bypass patterns.
pub struct Storage {
    banned: NameSet,
    bypass_exact: NameSet,
    bypass_prefix: Vec<String>,
}

/// The blacklisted addresses; the patterns that are compared with a whole
/// path; those that are compared with its start.
pub struct StorageView {
    pub banned: Set<Seq<char>>,
    pub exact: Set<Seq<char>>,
    pub prefixes: Seq<Seq<char>>,
}

impl View for Storage {
    type V = StorageView;

    closed spec fn view(&self) -> StorageView {
        StorageView {
            banned: self.banned@,
            exact: self.bypass_exact@,
            prefixes: texts(self.bypass_prefix@),
        }
    }
}

/// A pattern that ends in a slash stands for every path that starts with it.
pub open spec fn is_prefix_pattern(p: Seq<char>) -> bool {
    p.len() > 0 && p.last() == '/'
}

/// The prefix patterns among some patterns, in their order.
pub open spec fn prefix_patterns(patterns: Seq<Seq<char>>) -> Seq<Seq<char>>
    decreases patterns.len(),
{
    if patterns.len() == 0 {
        Seq::empty()
    } else {
        let front = prefix_patterns(patterns.drop_last());
        if is_prefix_pattern(patterns.last()) {
            front.push(patterns.last())
        } else {
            front
        }
    }
}

/// The other patterns among some patterns.
pub open spec fn exact_patterns(patterns: Seq<Seq<char>>) -> Set<Seq<char>>
    decreases patterns.len(),
{
    if patterns.len() == 0 {
        Set::empty()
    } else {
        let front = exact_patterns(patterns.drop_last());
        if is_prefix_pattern(patterns.last()) {
            front
        } else {
            front.insert(patterns.last())
        }
    }
}

/// The names of some rows.
pub open spec fn names_in(rows: Seq<Seq<char>>) -> Set<Seq<char>>
    decreases rows.len(),
{
    if rows.len() == 0 {
        Set::empty()
    } else {
        names_in(rows.drop_last()).insert(rows.last())
    }
}

/// What is kept of the rows of the two tables.
pub open spec fn opened(ips: Seq<Seq<char>>, patterns: Seq<Seq<char>>) -> StorageView {
    StorageView {
        banned: names_in(ips),
        exact: exact_patterns(patterns),
        prefixes: prefix_patterns(patterns),
    }
}

/// Some kept prefix is the start of the path.
pub open spec fn starts_with_one(path: Seq<char>, prefixes: Seq<Seq<char>>) -> bool {
    exists|i: int| 0 <= i < prefixes.len() && occurs_at(path, #[trigger] prefixes[i], 0)
}

/// The path is let through without inspection.
pub open spec fn bypasses(s: StorageView, path: Seq<char>) -> bool {
    s.exact.contains(path) || starts_with_one(path, s.prefixes)
}

/// After an insertion into the blacklist that affected some rows.
pub open spec fn ip_added(s: StorageView, ip: Seq<char>, affected: nat) -> StorageView {
    if affected > 0 {
        StorageView { banned: s.banned.insert(ip), ..s }
    } else {
        s
    }
}

/// After a deletion from the blacklist that affected some rows.
pub open spec fn ip_removed(s: StorageView, ip: Seq<char>, affected: nat) -> StorageView {
    if affected > 0 {
        StorageView { banned: s.banned.remove(ip), ..s }
    } else {
        s
    }
}

/// After the blacklist was emptied.
pub open spec fn ips_cleared(s: StorageView) -> StorageView {
    StorageView { banned: Set::empty(), ..s }
}

/// The texts but those equal to one.
pub open spec fn all_but(items: Seq<Seq<char>>, x: Seq<char>) -> Seq<Seq<char>>
    decreases items.len(),
{
    if items.len() == 0 {
        Seq::empty()
    } else {
        let front = all_but(items.drop_last(), x);
        if items.last() == x {
            front
        } else {
            front.push(items.last())
        }
    }
}

/// After an insertion into the bypass paths that affected some rows.
pub open spec fn pattern_added(s: StorageView, p: Seq<char>, affected: nat) -> StorageView {
    if affected == 0 {
        s
    } else if is_prefix_pattern(p) {
        StorageView { prefixes: s.prefixes.push(p), ..s }
    } else {
        StorageView { exact: s.exact.insert(p), ..s }
    }
}

/// After a deletion from the bypass paths that affected some rows.
pub open spec fn pattern_removed(s: StorageView, p: Seq<char>, affected: nat) -> StorageView {
    if affected == 0 {
        s
    } else if is_prefix_pattern(p) {
        StorageView { prefixes: all_but(s.prefixes, p), ..s }
    } else {
        StorageView { exact: s.exact.remove(p), ..s }
    }
}

/// Does the pattern end in a slash?
fn ends_in_slash(p: &str) -> (r: bool)
    ensures
        r == is_prefix_pattern(p@),
{
    let v = chars_of(p);
    let n: usize = v.len();
    n > 0 && v[n - 1] == '/'
}

impl Storage {
    /// Fills the copy in memory from the addresses and the patterns that the
    /// tables hold.
    pub fn open(ips: &Vec<String>, patterns: &Vec<String>) -> (r: Self)
        ensures
            r@ == opened(texts(ips@), texts(patterns@)),
    {
        let mut banned = NameSet::new();
        let mut i: usize = 0;
        while i < ips.len()
            invariant
                i <= ips@.len(),
                banned@ == names_in(texts(ips@).take(i as int)),
            decreases ips@.len() - i,
        {
            banned.insert(ips[i].as_str());
            proof {
                let all = texts(ips@);
                assert(all.take(i + 1).drop_last() == all.take(i as int));
                assert(all.take(i + 1).last() == ips@[i as int]@);
            }
            i += 1;
        }
        let mut exact = NameSet::new();
        let mut prefix: Vec<String> = Vec::new();
        let mut k: usize = 0;
        while k < patterns.len()
            invariant
                k <= patterns@.len(),
                exact@ == exact_patterns(texts(patterns@).take(k as int)),
                texts(prefix@) == prefix_patterns(texts(patterns@).take(k as int)),
            decreases patterns@.len() - k,
        {
            let ghost before = prefix@;
            if ends_in_slash(patterns[k].as_str()) {
                prefix.push(patterns[k].clone());
            } else {
                exact.insert(patterns[k].as_str());
            }
            proof {
                let all = texts(patterns@);
                assert(all.take(k + 1).drop_last() == all.take(k as int));
                assert(all.take(k + 1).last() == patterns@[k as int]@);
                if prefix@ != before {
                    assert(texts(prefix@) =~= texts(before).push(patterns@[k as int]@));
                }
            }
            k += 1;
        }
        proof {
            assert(texts(ips@).take(ips@.len() as int) == texts(ips@));
            assert(texts(patterns@).take(patterns@.len() as int) == texts(patterns@));
        }
        Storage { banned, bypass_exact: exact, bypass_prefix: prefix }
    }

    /// Is the address blacklisted?
    pub fn is_banned(&self, ip: &str) -> (r: bool)
        ensures
            r == self@.banned.contains(ip@),
    {
        self.banned.contains(ip)
    }

    /// Is the path let through without inspection?
    pub fn is_bypass(&self, path: &str) -> (r: bool)
        ensures
            r == bypasses(self@, path@),
    {
        if self.bypass_exact.contains(path) {
            return true;
        }
        let p = chars_of(path);
        let mut i: usize = 0;
        while i < self.bypass_prefix.len()
            invariant
                i <= self.bypass_prefix@.len(),
                p@ == path@,
                forall|j: int|
                    0 <= j < i ==> !occurs_at(path@, #[trigger] self@.prefixes[j], 0),
            decreases self.bypass_prefix@.len() - i,
        {
            let prefix = chars_of(self.bypass_prefix[i].as_str());
            assert(self@.prefixes[i as int] == prefix@);
            if has_prefix(p.as_slice(), prefix.as_slice()) {
                return true;
            }
            i += 1;
        }
        false
    }

    /// The number of blacklisted addresses.
    pub fn banned_count(&self) -> (r: usize)
        ensures
            r == self@.banned.len(),
            self@.banned.finite(),
    {
        self.banned.len()
    }

    /// Follows an insertion into the blacklist that affected some rows. Says
    /// whether the address is new there.
    pub fn add_blacklist(&mut self, ip: &str, affected: usize) -> (r: bool)
        ensures
            final(self)@ == ip_added(old(self)@, ip@, affected as nat),
            r == (affected > 0),
    {
        if affected > 0 {
            self.banned.insert(ip);
            true
        } else {
            false
        }
    }

    /// Follows a deletion from the blacklist that affected some rows. Says
    /// whether the address was there.
    pub fn remove_blacklist(&mut self, ip: &str, affected: usize) -> (r: bool)
        ensures
            final(self)@ == ip_removed(old(self)@, ip@, affected as nat),
            r == (affected > 0),
    {
        if affected > 0 {
            self.banned.remove(ip);
            true
        } else {
            false
        }
    }

    /// Follows the deletion of all rows of the blacklist, and gives back how
    /// many there were. Others write to the table too, so that these need not
    /// be as many as the addresses that are kept here.
    pub fn clear_blacklist(&mut self, deleted: usize) -> (r: usize)
        ensures
            final(self)@ == ips_cleared(old(self)@),
            r == deleted,
    {
        self.banned.clear();
        deleted
    }

    /// Follows an insertion into the bypass paths that affected some rows. Says
    /// whether the pattern is new there.
    pub fn add_bypass(&mut self, pattern: &str, affected: usize) -> (r: bool)
        ensures
            final(self)@ == pattern_added(old(self)@, pattern@, affected as nat),
            r == (affected > 0),
    {
        if affected > 0 {
            if ends_in_slash(pattern) {
                let ghost before = self.bypass_prefix@;
                self.bypass_prefix.push(pattern.to_owned());
                assert(texts(self.bypass_prefix@) =~= texts(before).push(pattern@));
            } else {
                self.bypass_exact.insert(pattern);
            }
            true
        } else {
            false
        }
    }

    /// Follows a deletion from the bypass paths that affected some rows. Says
    /// whether the pattern was there.
    pub fn remove_bypass(&mut self, pattern: &str, affected: usize) -> (r: bool)
        ensures
            final(self)@ == pattern_removed(old(self)@, pattern@, affected as nat),
            r == (affected > 0),
    {
        if affected > 0 {
            if ends_in_slash(pattern) {
                let mut kept: Vec<String> = Vec::new();
                let mut i: usize = 0;
                while i < self.bypass_prefix.len()
                    invariant
                        i <= self.bypass_prefix@.len(),
                        texts(kept@) == all_but(texts(self.bypass_prefix@).take(i as int), pattern@),
                    decreases self.bypass_prefix@.len() - i,
                {
                    let ghost before = kept@;
                    if !same_text(self.bypass_prefix[i].as_str(), pattern) {
                        kept.push(self.bypass_prefix[i].clone());
                        assert(texts(kept@) =~= texts(before).push(
                            self.bypass_prefix@[i as int]@,
                        ));
                    }
                    proof {
                        let all = texts(self.bypass_prefix@);
                        assert(all.take(i + 1).drop_last() == all.take(i as int));
                        assert(all.take(i + 1).last() == self.bypass_prefix@[i as int]@);
                    }
                    i += 1;
                }
                assert(texts(self.bypass_prefix@).take(self.bypass_prefix@.len() as int) == texts(
                    self.bypass_prefix@,
                ));
                self.bypass_prefix = kept;
            } else {
                self.bypass_exact.remove(pattern);
            }
            true
        } else {
            false
        }
    }
}

/// The rows that `INSERT OR IGNORE` affects in a table of unique names.
pub open spec fn rows_inserted(table: Set<Seq<char>>, x: Seq<char>) -> nat {
    if table.contains(x) {
        0
    } else {
        1
    }
}

/// The rows that `DELETE` affects in a table of unique names.
pub open spec fn rows_deleted(table: Set<Seq<char>>, x: Seq<char>) -> nat {
    if table.contains(x) {
        1
    } else {
        0
    }
}

/// The pattern lets the path through.
pub open spec fn pattern_matches(p: Seq<char>, path: Seq<char>) -> bool {
    if is_prefix_pattern(p) {
        occurs_at(path, p, 0)
    } else {
        path == p
    }
}

/// The copy in memory holds what the two tables hold.
pub open spec fn in_sync(
    s: StorageView,
    blacklist: Set<Seq<char>>,
    patterns: Set<Seq<char>>,
) -> bool {
    &&& s.banned == blacklist
    &&& forall|p: Seq<char>| #[trigger]
        patterns.contains(p) <==> if is_prefix_pattern(p) {
            s.prefixes.contains(p)
        } else {
            s.exact.contains(p)
        }
    &&& forall|i: int| 0 <= i < s.prefixes.len() ==> is_prefix_pattern(#[trigger] s.prefixes[i])
    &&& forall|p: Seq<char>| #[trigger] s.exact.contains(p) ==> !is_prefix_pattern(p)
}

proof fn lemma_names_in(rows: Seq<Seq<char>>, x: Seq<char>)
    ensures
        names_in(rows).contains(x) <==> rows.contains(x),
    decreases rows.len(),
{
    if rows.len() > 0 {
        lemma_names_in(rows.drop_last(), x);
        lemma_last_or_front(rows, x);
    }
}

proof fn lemma_last_or_front(rows: Seq<Seq<char>>, x: Seq<char>)
    requires
        rows.len() > 0,
    ensures
        rows.contains(x) <==> rows.drop_last().contains(x) || rows.last() == x,
{
    let front = rows.drop_last();
    if rows.contains(x) {
        let i = choose|i: int| 0 <= i < rows.len() && rows[i] == x;
        if i < front.len() {
            assert(front[i] == x);
        }
    }
    if front.contains(x) {
        let i = choose|i: int| 0 <= i < front.len() && front[i] == x;
        assert(rows[i] == x);
    }
    if rows.last() == x {
        assert(rows[rows.len() - 1] == x);
    }
}

proof fn lemma_sorted_patterns(patterns: Seq<Seq<char>>, x: Seq<char>)
    ensures
        prefix_patterns(patterns).contains(x) <==> patterns.contains(x) && is_prefix_pattern(x),
        exact_patterns(patterns).contains(x) <==> patterns.contains(x) && !is_prefix_pattern(x),
    decreases patterns.len(),
{
    if patterns.len() > 0 {
        let front = patterns.drop_last();
        lemma_sorted_patterns(front, x);
        lemma_last_or_front(patterns, x);
        if is_prefix_pattern(patterns.last()) {
            let all = prefix_patterns(patterns);
            assert(all.drop_last() =~= prefix_patterns(front));
            lemma_last_or_front(all, x);
        }
    }
}

proof fn lemma_all_but(items: Seq<Seq<char>>, x: Seq<char>, y: Seq<char>)
    ensures
        all_but(items, x).contains(y) <==> items.contains(y) && y != x,
    decreases items.len(),
{
    if items.len() > 0 {
        let front = items.drop_last();
        lemma_all_but(front, x, y);
        lemma_last_or_front(items, y);
        if items.last() != x {
            let all = all_but(items, x);
            assert(all.drop_last() =~= all_but(front, x));
            lemma_last_or_front(all, y);
        }
    }
}

/// The copy that is filled from the rows of the tables holds what the tables
/// hold.
pub proof fn law_opened_in_sync(ips: Seq<Seq<char>>, patterns: Seq<Seq<char>>)
    ensures
        in_sync(opened(ips, patterns), ips.to_set(), patterns.to_set()),
{
    let s = opened(ips, patterns);
    assert forall|x: Seq<char>| #[trigger] s.banned.contains(x) <==> ips.to_set().contains(x) by {
        lemma_names_in(ips, x);
    }
    assert(s.banned =~= ips.to_set());
    assert forall|p: Seq<char>| #[trigger]
        patterns.to_set().contains(p) <==> if is_prefix_pattern(p) {
            s.prefixes.contains(p)
        } else {
            s.exact.contains(p)
        } by {
        lemma_sorted_patterns(patterns, p);
    }
    assert forall|i: int| 0 <= i < s.prefixes.len() implies is_prefix_pattern(
        #[trigger] s.prefixes[i],
    ) by {
        assert(s.prefixes.contains(s.prefixes[i]));
        lemma_sorted_patterns(patterns, s.prefixes[i]);
    }
    assert forall|p: Seq<char>| #[trigger] s.exact.contains(p) implies !is_prefix_pattern(p) by {
        lemma_sorted_patterns(patterns, p);
    }
}

/// Every change of the blacklist is followed: the copy goes on holding what the
/// tables hold.
pub proof fn law_blacklist_stays_in_sync(
    s: StorageView,
    blacklist: Set<Seq<char>>,
    patterns: Set<Seq<char>>,
    ip: Seq<char>,
)
    requires
        in_sync(s, blacklist, patterns),
    ensures
        in_sync(
            ip_added(s, ip, rows_inserted(blacklist, ip)),
            blacklist.insert(ip),
            patterns,
        ),
        in_sync(ip_removed(s, ip, rows_deleted(blacklist, ip)), blacklist.remove(ip), patterns),
        in_sync(ips_cleared(s), Set::empty(), patterns),
{
    if blacklist.contains(ip) {
        assert(blacklist.insert(ip) =~= blacklist);
    } else {
        assert(blacklist.remove(ip) =~= blacklist);
    }
}

/// Every change of the bypass paths is followed: the copy goes on holding what
/// the tables hold.
pub proof fn law_bypass_stays_in_sync(
    s: StorageView,
    blacklist: Set<Seq<char>>,
    patterns: Set<Seq<char>>,
    x: Seq<char>,
)
    requires
        in_sync(s, blacklist, patterns),
    ensures
        in_sync(
            pattern_added(s, x, rows_inserted(patterns, x)),
            blacklist,
            patterns.insert(x),
        ),
        in_sync(
            pattern_removed(s, x, rows_deleted(patterns, x)),
            blacklist,
            patterns.remove(x),
        ),
{
    let a = pattern_added(s, x, rows_inserted(patterns, x));
    let r = pattern_removed(s, x, rows_deleted(patterns, x));
    assert forall|p: Seq<char>| #[trigger]
        patterns.insert(x).contains(p) <==> if is_prefix_pattern(p) {
            a.prefixes.contains(p)
        } else {
            a.exact.contains(p)
        } by {
        assert(patterns.contains(p) || !patterns.contains(p));
        if !patterns.contains(x) && is_prefix_pattern(x) {
            assert(a.prefixes.drop_last() =~= s.prefixes);
            lemma_last_or_front(a.prefixes, p);
        }
    }
    assert forall|p: Seq<char>| #[trigger]
        patterns.remove(x).contains(p) <==> if is_prefix_pattern(p) {
            r.prefixes.contains(p)
        } else {
            r.exact.contains(p)
        } by {
        assert(patterns.contains(p) || !patterns.contains(p));
        lemma_all_but(s.prefixes, x, p);
    }
    assert forall|i: int| 0 <= i < r.prefixes.len() implies is_prefix_pattern(
        #[trigger] r.prefixes[i],
    ) by {
        let p = r.prefixes[i];
        assert(r.prefixes.contains(p));
        lemma_all_but(s.prefixes, x, p);
        if patterns.contains(x) && is_prefix_pattern(x) {
            let j = choose|j: int| 0 <= j < s.prefixes.len() && s.prefixes[j] == p;
            assert(is_prefix_pattern(s.prefixes[j]));
        }
    }
}

/// A copy in step with the tables lets a path through exactly if a pattern of
/// the table matches it: as a prefix if the pattern ends in a slash, else as a
/// whole.
pub proof fn law_bypass_is_by_pattern(
    s: StorageView,
    blacklist: Set<Seq<char>>,
    patterns: Set<Seq<char>>,
    path: Seq<char>,
)
    requires
        in_sync(s, blacklist, patterns),
    ensures
        bypasses(s, path) <==> exists|p: Seq<char>| #[trigger]
            patterns.contains(p) && pattern_matches(p, path),
{
    if s.exact.contains(path) {
        assert(patterns.contains(path) && pattern_matches(path, path));
    }
    if starts_with_one(path, s.prefixes) {
        let i = choose|i: int|
            0 <= i < s.prefixes.len() && occurs_at(path, #[trigger] s.prefixes[i], 0);
        assert(s.prefixes.contains(s.prefixes[i]));
        assert(patterns.contains(s.prefixes[i]) && pattern_matches(s.prefixes[i], path));
    }
    if exists|p: Seq<char>| #[trigger] patterns.contains(p) && pattern_matches(p, path) {
        let p = choose|p: Seq<char>| #[trigger] patterns.contains(p) && pattern_matches(p, path);
        if is_prefix_pattern(p) {
            let i = choose|i: int| 0 <= i < s.prefixes.len() && s.prefixes[i] == p;
            assert(occurs_at(path, s.prefixes[i], 0));
        }
    }
}

/// An address that was blacklisted is banned until it is removed, and the
/// removal undoes the blacklisting.
pub proof fn law_removing_undoes_adding(s: StorageView, ip: Seq<char>)
    requires
        !s.banned.contains(ip),
    ensures
        ip_added(s, ip, rows_inserted(s.banned, ip)).banned.contains(ip),
        ({
            let a = ip_added(s, ip, rows_inserted(s.banned, ip));
            ip_removed(a, ip, rows_deleted(a.banned, ip)) == s
        }),
{
    assert(s.banned.insert(ip).remove(ip) =~= s.banned);
}

} // verus!
