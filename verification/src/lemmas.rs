//! What holds of detection over whole snapshots.
//!
//! Detection is defined line by line. The lemmas here say what that
//! amounts to for a snapshot as a whole: which hardware address the cache
//! ends up holding for an address, when a snapshot gives no conflict, what
//! a changed hardware address gives, and what feeding the same snapshot
//! again gives.

use crate::cache::{
    bindings_of, cache_after, conflict_of, conflicts_in, line_binding, lemma_bindings_of_push,
    SpecBinding, SpecConflict,
};
use crate::text::{fields, is_space};
use vstd::prelude::*;

verus! {

/// The index of the last binding for `ip` among `bindings`, or -1 if there
/// is none.
pub open spec fn last_mention(bindings: Seq<SpecBinding>, ip: u32) -> int
    decreases bindings.len(),
{
    if bindings.len() == 0 {
        -1
    } else if bindings.last().ip == ip {
        bindings.len() - 1
    } else {
        last_mention(bindings.drop_last(), ip)
    }
}

/// No address occurs among `bindings` with two hardware addresses.
pub open spec fn self_consistent(bindings: Seq<SpecBinding>) -> bool {
    forall|i: int, j: int|
        0 <= i < j < bindings.len() && #[trigger] bindings[i].ip == #[trigger] bindings[j].ip
            ==> bindings[i].mac == bindings[j].mac
}

/// No binding among `bindings` gives an address another hardware address
/// than `cache` or another binding among them does.
pub open spec fn agrees_with(cache: Map<u32, Seq<char>>, bindings: Seq<SpecBinding>) -> bool {
    &&& self_consistent(bindings)
    &&& forall|i: int|
        0 <= i < bindings.len() && cache.contains_key(#[trigger] bindings[i].ip)
            ==> cache[bindings[i].ip] == bindings[i].mac
}

/// The bindings alone, as a map from each address to the hardware address
/// last observed for it.
pub open spec fn bindings_map(bindings: Seq<SpecBinding>) -> Map<u32, Seq<char>> {
    cache_after(Map::empty(), bindings)
}

/// The conflicts among `conflicts` that are about `ip`.
pub open spec fn conflicts_about(conflicts: Seq<SpecConflict>, ip: u32) -> Seq<SpecConflict> {
    conflicts.filter(|conflict: SpecConflict| conflict.ip == ip)
}

/// The lines among `lines` that are binding records.
pub open spec fn records(lines: Seq<Seq<char>>) -> Seq<Seq<char>> {
    lines.filter(|line: Seq<char>| line_binding(line) is Some)
}

/// A line of whitespace alone has no fields.
pub proof fn lemma_blank_line_has_no_fields(line: Seq<char>)
    requires
        forall|i: int| 0 <= i < line.len() ==> is_space(#[trigger] line[i]),
    ensures
        fields(line).len() == 0,
    decreases line.len(),
{
    if line.len() > 0 {
        let rest = line.skip(1);
        assert forall|i: int| 0 <= i < rest.len() implies is_space(#[trigger] rest[i]) by {
            assert(rest[i] == line[i + 1]);
        }
        lemma_blank_line_has_no_fields(rest);
    }
}

/// Lines that are no binding records are skipped: a snapshot gives the
/// bindings that its binding records alone give. A line is no binding
/// record if it does not have exactly three fields, as a blank line has
/// none, or if its first field is not an IPv4 address.
pub proof fn lemma_malformed_lines_are_skipped(lines: Seq<Seq<char>>)
    ensures
        bindings_of(lines) == bindings_of(records(lines)),
        forall|line: Seq<char>| fields(line).len() != 3 ==> #[trigger] line_binding(line) is None,
    decreases lines.len(),
{
    let is_record = |line: Seq<char>| line_binding(line) is Some;
    if lines.len() == 0 {
        reveal(Seq::filter);
    } else {
        let init = lines.drop_last();
        let last = lines.last();
        lemma_malformed_lines_are_skipped(init);
        assert(init.push(last) == lines);
        init.lemma_filter_push(last, is_record);
        lemma_bindings_of_push(init, last);
        if line_binding(last) is Some {
            lemma_bindings_of_push(records(init), last);
        }
    }
}

/// `last_mention` is the index of a binding for `ip` behind which no
/// binding for `ip` follows, and it is -1 exactly if no binding is for `ip`.
pub proof fn lemma_last_mention(bindings: Seq<SpecBinding>, ip: u32)
    ensures
        -1 <= last_mention(bindings, ip) < bindings.len(),
        last_mention(bindings, ip) >= 0 ==> bindings[last_mention(bindings, ip)].ip == ip,
        forall|k: int|
            last_mention(bindings, ip) < k < bindings.len() ==> (#[trigger] bindings[k]).ip != ip,
    decreases bindings.len(),
{
    if bindings.len() > 0 && bindings.last().ip != ip {
        let init = bindings.drop_last();
        lemma_last_mention(init, ip);
        assert forall|k: int| last_mention(bindings, ip) < k < bindings.len() implies (
        #[trigger] bindings[k]).ip != ip by {
            if k < init.len() {
                assert(init[k] == bindings[k]);
            }
        }
    }
}

/// The cache always holds the latest observation: after a snapshot it maps
/// an address that the snapshot binds to the hardware address of the last
/// binding for it, and any other address to what it held before. Nothing is
/// ever removed.
pub proof fn lemma_cache_holds_latest(
    cache: Map<u32, Seq<char>>,
    bindings: Seq<SpecBinding>,
    ip: u32,
)
    ensures
        cache_after(cache, bindings).contains_key(ip) <==> cache.contains_key(ip) || last_mention(
            bindings,
            ip,
        ) >= 0,
        last_mention(bindings, ip) >= 0 ==> cache_after(cache, bindings)[ip]
            == bindings[last_mention(bindings, ip)].mac,
        last_mention(bindings, ip) < 0 ==> cache_after(cache, bindings)[ip] == cache[ip],
    decreases bindings.len(),
{
    if bindings.len() > 0 {
        lemma_cache_holds_latest(cache, bindings.drop_last(), ip);
        lemma_last_mention(bindings.drop_last(), ip);
    }
}

/// The cache after a snapshot is the cache before it, overlaid with the
/// bindings of the snapshot.
pub proof fn lemma_cache_after_is_union(cache: Map<u32, Seq<char>>, bindings: Seq<SpecBinding>)
    ensures
        cache_after(cache, bindings) == cache.union_prefer_right(bindings_map(bindings)),
{
    let after = cache_after(cache, bindings);
    let overlaid = cache.union_prefer_right(bindings_map(bindings));
    assert forall|ip: u32| #[trigger]
        after.dom().contains(ip) == overlaid.dom().contains(ip) && (after.dom().contains(ip)
            ==> after[ip] == overlaid[ip]) by {
        lemma_cache_holds_latest(cache, bindings, ip);
        lemma_cache_holds_latest(Map::empty(), bindings, ip);
    }
    assert(after =~= overlaid);
}

/// A snapshot gives no conflict exactly if none of its bindings gives an
/// address another hardware address than the cache or another of its
/// bindings does.
pub proof fn lemma_clean_iff_agrees(cache: Map<u32, Seq<char>>, bindings: Seq<SpecBinding>)
    ensures
        conflicts_in(cache, bindings).len() == 0 <==> agrees_with(cache, bindings),
    decreases bindings.len(),
{
    if bindings.len() > 0 {
        let init = bindings.drop_last();
        let last = bindings.last();
        // The last binding is compared with the last binding in front of it
        // for the same address, or with the cache if there is none.
        let j = last_mention(init, last.ip);
        lemma_clean_iff_agrees(cache, init);
        lemma_cache_holds_latest(cache, init, last.ip);
        lemma_last_mention(init, last.ip);
        assert forall|i: int| 0 <= i < init.len() implies init[i] == bindings[i] by {}
        if agrees_with(cache, bindings) {
            assert(agrees_with(cache, init));
            assert(conflict_of(cache_after(cache, init), last) is None);
        }
        if conflicts_in(cache, bindings).len() == 0 {
            assert(conflict_of(cache_after(cache, init), last) is None);
            assert(agrees_with(cache, init));
            assert(self_consistent(bindings)) by {
                assert forall|i: int, k: int|
                    0 <= i < k < bindings.len() && #[trigger] bindings[i].ip
                        == #[trigger] bindings[k].ip implies bindings[i].mac
                    == bindings[k].mac by {
                    if k < init.len() {
                        assert(init[i].ip == init[k].ip);
                    } else if i < j {
                        assert(init[i].ip == init[j].ip);
                    }
                }
            }
        }
    }
}

/// A snapshot that gives no address another hardware address than the
/// cache or the snapshot itself does gives no conflict, and leaves in the
/// cache the union of what was cached and what the snapshot binds: every
/// entry that was there is there unchanged, every binding of the snapshot
/// is there, and nothing else is.
pub proof fn lemma_agreeing_snapshot_is_clean(
    cache: Map<u32, Seq<char>>,
    bindings: Seq<SpecBinding>,
)
    requires
        agrees_with(cache, bindings),
    ensures
        conflicts_in(cache, bindings) == Seq::<SpecConflict>::empty(),
        cache_after(cache, bindings) == cache.union_prefer_right(bindings_map(bindings)),
        forall|ip: u32| #[trigger]
            cache.contains_key(ip) ==> cache_after(cache, bindings).contains_key(ip) && cache_after(
                cache,
                bindings,
            )[ip] == cache[ip],
        forall|i: int|
            0 <= i < bindings.len() ==> cache_after(cache, bindings).contains_key(
                (#[trigger] bindings[i]).ip,
            ) && cache_after(cache, bindings)[bindings[i].ip] == bindings[i].mac,
        forall|ip: u32| #[trigger]
            cache_after(cache, bindings).contains_key(ip) ==> cache.contains_key(ip)
                || last_mention(bindings, ip) >= 0,
{
    lemma_clean_iff_agrees(cache, bindings);
    assert(conflicts_in(cache, bindings) =~= Seq::<SpecConflict>::empty());
    lemma_cache_after_is_union(cache, bindings);
    assert forall|ip: u32| #[trigger] cache.contains_key(ip) implies cache_after(
        cache,
        bindings,
    ).contains_key(ip) && cache_after(cache, bindings)[ip] == cache[ip] by {
        lemma_cache_holds_latest(cache, bindings, ip);
        lemma_last_mention(bindings, ip);
    }
    assert forall|i: int| 0 <= i < bindings.len() implies cache_after(cache, bindings).contains_key(
        (#[trigger] bindings[i]).ip,
    ) && cache_after(cache, bindings)[bindings[i].ip] == bindings[i].mac by {
        lemma_cache_holds_latest(cache, bindings, bindings[i].ip);
        lemma_last_mention(bindings, bindings[i].ip);
    }
    assert forall|ip: u32| #[trigger]
        cache_after(cache, bindings).contains_key(ip) implies cache.contains_key(ip)
        || last_mention(bindings, ip) >= 0 by {
        lemma_cache_holds_latest(cache, bindings, ip);
    }
}

/// Bindings for other addresses give no conflict about `ip`.
pub proof fn lemma_unmentioned_has_no_conflict(
    cache: Map<u32, Seq<char>>,
    bindings: Seq<SpecBinding>,
    ip: u32,
)
    requires
        forall|k: int| 0 <= k < bindings.len() ==> (#[trigger] bindings[k]).ip != ip,
    ensures
        conflicts_about(conflicts_in(cache, bindings), ip) == Seq::<SpecConflict>::empty(),
    decreases bindings.len(),
{
    let about = |conflict: SpecConflict| conflict.ip == ip;
    if bindings.len() == 0 {
        reveal(Seq::filter);
    } else {
        let init = bindings.drop_last();
        assert forall|k: int| 0 <= k < init.len() implies (#[trigger] init[k]).ip != ip by {
            assert(init[k] == bindings[k]);
        }
        lemma_unmentioned_has_no_conflict(cache, init, ip);
        assert(bindings.last().ip != ip);
        match conflict_of(cache_after(cache, init), bindings.last()) {
            Some(conflict) => {
                conflicts_in(cache, init).lemma_filter_push(conflict, about);
            },
            None => {},
        }
    }
}

/// A changed hardware address gives exactly one conflict: where the cache
/// holds a hardware address for an address and the one binding of the
/// snapshot for that address shows another, the snapshot gives one conflict
/// about that address, from the cached to the observed hardware address, and
/// the cache then holds the observed one.
pub proof fn lemma_change_gives_one_conflict(
    cache: Map<u32, Seq<char>>,
    bindings: Seq<SpecBinding>,
    i: int,
)
    requires
        0 <= i < bindings.len(),
        cache.contains_key(bindings[i].ip),
        cache[bindings[i].ip] != bindings[i].mac,
        forall|k: int|
            0 <= k < bindings.len() && k != i ==> (#[trigger] bindings[k]).ip != bindings[i].ip,
    ensures
        conflicts_about(conflicts_in(cache, bindings), bindings[i].ip) == seq![
            SpecConflict {
                ip: bindings[i].ip,
                old_mac: cache[bindings[i].ip],
                new_mac: bindings[i].mac,
            },
        ],
        cache_after(cache, bindings)[bindings[i].ip] == bindings[i].mac,
    decreases bindings.len(),
{
    let ip = bindings[i].ip;
    let about = |conflict: SpecConflict| conflict.ip == ip;
    let expected = SpecConflict { ip, old_mac: cache[ip], new_mac: bindings[i].mac };
    let init = bindings.drop_last();
    let last = bindings.last();
    assert forall|k: int| 0 <= k < init.len() implies init[k] == bindings[k] by {}
    if i == bindings.len() - 1 {
        // The bindings in front leave the cached address alone, so the
        // binding is compared with it.
        lemma_unmentioned_has_no_conflict(cache, init, ip);
        lemma_cache_holds_latest(cache, init, ip);
        lemma_last_mention(init, ip);
        assert(conflict_of(cache_after(cache, init), last) == Some(expected));
        conflicts_in(cache, init).lemma_filter_push(expected, about);
    } else {
        // The bindings behind are for other addresses.
        lemma_change_gives_one_conflict(cache, init, i);
        assert(last.ip != ip);
        match conflict_of(cache_after(cache, init), last) {
            Some(conflict) => {
                conflicts_in(cache, init).lemma_filter_push(conflict, about);
            },
            None => {},
        }
    }
}

/// Detection goes by change, not by presence: fed again to the cache that
/// it left, a snapshot that gives no address two hardware addresses gives
/// no conflict and leaves the cache as it is.
pub proof fn lemma_second_feed_is_clean(cache: Map<u32, Seq<char>>, bindings: Seq<SpecBinding>)
    requires
        self_consistent(bindings),
    ensures
        conflicts_in(cache_after(cache, bindings), bindings) == Seq::<SpecConflict>::empty(),
        cache_after(cache_after(cache, bindings), bindings) == cache_after(cache, bindings),
{
    let fed = cache_after(cache, bindings);
    assert(agrees_with(fed, bindings)) by {
        assert forall|i: int|
            0 <= i < bindings.len() && fed.contains_key(#[trigger] bindings[i].ip)
            implies fed[bindings[i].ip] == bindings[i].mac by {
            lemma_cache_holds_latest(cache, bindings, bindings[i].ip);
            lemma_last_mention(bindings, bindings[i].ip);
        }
    }
    lemma_clean_iff_agrees(fed, bindings);
    assert(conflicts_in(fed, bindings) =~= Seq::<SpecConflict>::empty());
    assert forall|ip: u32| #[trigger]
        cache_after(fed, bindings).dom().contains(ip) == fed.dom().contains(ip) && (
        fed.dom().contains(ip) ==> cache_after(fed, bindings)[ip] == fed[ip]) by {
        lemma_cache_holds_latest(cache, bindings, ip);
        lemma_cache_holds_latest(fed, bindings, ip);
    }
    assert(cache_after(fed, bindings) =~= fed);
}

/// A snapshot that gives an address two hardware addresses gives a conflict
/// whenever it is fed, whatever the cache holds.
pub proof fn lemma_inconsistent_feed_conflicts(
    cache: Map<u32, Seq<char>>,
    bindings: Seq<SpecBinding>,
)
    requires
        !self_consistent(bindings),
    ensures
        conflicts_in(cache, bindings).len() > 0,
{
    lemma_clean_iff_agrees(cache, bindings);
}

/// A cycle takes up the cache exactly as the cycle before left it: two
/// snapshots fed one after the other give what their bindings fed as one
/// snapshot give, the conflicts of the first and then those of the second.
pub proof fn lemma_cycles_compose(
    cache: Map<u32, Seq<char>>,
    first: Seq<SpecBinding>,
    second: Seq<SpecBinding>,
)
    ensures
        cache_after(cache_after(cache, first), second) == cache_after(cache, first + second),
        conflicts_in(cache, first) + conflicts_in(cache_after(cache, first), second)
            == conflicts_in(cache, first + second),
    decreases second.len(),
{
    if second.len() == 0 {
        assert(first + second == first);
    } else {
        let init = second.drop_last();
        lemma_cycles_compose(cache, first, init);
        assert((first + second).drop_last() == first + init);
    }
}

/// A snapshot gives at most one conflict for each of its bindings.
pub proof fn lemma_conflicts_bounded(cache: Map<u32, Seq<char>>, bindings: Seq<SpecBinding>)
    ensures
        conflicts_in(cache, bindings).len() <= bindings.len(),
    decreases bindings.len(),
{
    if bindings.len() > 0 {
        lemma_conflicts_bounded(cache, bindings.drop_last());
    }
}

} // verus!
