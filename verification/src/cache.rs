//! The binding cache and the detection of conflicting bindings.
//!
//! The cache maps each IP address seen so far to the hardware address last
//! observed for it. A snapshot is taken line by line: a binding whose
//! hardware address differs from the cached one is a conflict, and every
//! binding, conflicting or not, replaces what the cache held. Nothing is
//! ever removed.
//!
//! A line that is no binding record is skipped. That includes a line of
//! three fields whose first field is not an IPv4 address: it is passed over
//! like any other malformed line and does not end the cycle.

use crate::ipv4::{ipv4_value, parse_ipv4};
use crate::text::{chars_of, fields, lines, slice_texts, split_fields, split_lines, string_of};
use std::collections::HashMap;
use vstd::prelude::*;

verus! {

/// A binding as contracts speak of it.
pub struct SpecBinding {
    pub ip: u32,
    pub mac: Seq<char>,
}

/// A conflict as contracts speak of it.
pub struct SpecConflict {
    pub ip: u32,
    pub old_mac: Seq<char>,
    pub new_mac: Seq<char>,
}

/// An IP address and the hardware address observed for it in one line of a
/// snapshot. The hardware address is an opaque token.
#[derive(Debug, Clone, PartialEq, Eq)]
pub struct Binding {
    pub ip: u32,
    pub mac: String,
}

impl View for Binding {
    type V = SpecBinding;

    open spec fn view(&self) -> SpecBinding {
        SpecBinding { ip: self.ip, mac: self.mac@ }
    }
}

/// An IP address observed with a hardware address other than the cached
/// one.
#[derive(Debug, Clone, PartialEq, Eq)]
pub struct Conflict {
    pub ip: u32,
    pub old_mac: String,
    pub new_mac: String,
}

impl View for Conflict {
    type V = SpecConflict;

    open spec fn view(&self) -> SpecConflict {
        SpecConflict { ip: self.ip, old_mac: self.old_mac@, new_mac: self.new_mac@ }
    }
}

/// What one snapshot gave: its conflicts in input order, and whether there
/// was any.
#[derive(Debug, Clone, PartialEq, Eq)]
pub struct CycleOutcome {
    pub conflicts: Vec<Conflict>,
    pub is_spoofed: bool,
}

impl CycleOutcome {
    /// The conflicts as contracts speak of them.
    pub open spec fn conflict_views(&self) -> Seq<SpecConflict> {
        conflict_views(self.conflicts@)
    }

    /// The summary flag says whether the list holds a conflict.
    pub open spec fn wf(&self) -> bool {
        self.is_spoofed == (self.conflicts@.len() > 0)
    }
}

/// The bindings of `bindings` as contracts speak of them.
pub open spec fn binding_views(bindings: Seq<Binding>) -> Seq<SpecBinding> {
    bindings.map_values(|binding: Binding| binding@)
}

/// The conflicts of `conflicts` as contracts speak of them.
pub open spec fn conflict_views(conflicts: Seq<Conflict>) -> Seq<SpecConflict> {
    conflicts.map_values(|conflict: Conflict| conflict@)
}

/// The binding that `line` records, if it is a binding record: a line of
/// exactly three fields of which the first is an IPv4 address. The second
/// field is the hardware address; the third is not looked at.
pub open spec fn line_binding(line: Seq<char>) -> Option<SpecBinding> {
    let parts = fields(line);
    if parts.len() == 3 {
        match ipv4_value(parts[0]) {
            Some(ip) => Some(SpecBinding { ip, mac: parts[1] }),
            None => None,
        }
    } else {
        None
    }
}

/// The bindings that the binding records among `lines` give, in order.
pub open spec fn bindings_of(lines: Seq<Seq<char>>) -> Seq<SpecBinding>
    decreases lines.len(),
{
    if lines.len() == 0 {
        Seq::empty()
    } else {
        let prior = bindings_of(lines.drop_last());
        match line_binding(lines.last()) {
            Some(binding) => prior.push(binding),
            None => prior,
        }
    }
}

/// The bindings that a snapshot records, in input order.
pub open spec fn snapshot_bindings(text: Seq<char>) -> Seq<SpecBinding> {
    bindings_of(lines(text))
}

/// The cache after `bindings` were observed one after the other.
pub open spec fn cache_after(cache: Map<u32, Seq<char>>, bindings: Seq<SpecBinding>) -> Map<
    u32,
    Seq<char>,
>
    decreases bindings.len(),
{
    if bindings.len() == 0 {
        cache
    } else {
        cache_after(cache, bindings.drop_last()).insert(bindings.last().ip, bindings.last().mac)
    }
}

/// The conflict that observing `binding` gives while the cache is `cache`:
/// one exactly if the address is cached with another hardware address.
pub open spec fn conflict_of(cache: Map<u32, Seq<char>>, binding: SpecBinding) -> Option<
    SpecConflict,
> {
    if cache.contains_key(binding.ip) && cache[binding.ip] != binding.mac {
        Some(SpecConflict { ip: binding.ip, old_mac: cache[binding.ip], new_mac: binding.mac })
    } else {
        None
    }
}

/// The conflicts that observing `bindings` one after the other gives, each
/// binding compared with the cache as the bindings in front of it left it.
pub open spec fn conflicts_in(cache: Map<u32, Seq<char>>, bindings: Seq<SpecBinding>) -> Seq<
    SpecConflict,
>
    decreases bindings.len(),
{
    if bindings.len() == 0 {
        Seq::empty()
    } else {
        let prior = conflicts_in(cache, bindings.drop_last());
        match conflict_of(cache_after(cache, bindings.drop_last()), bindings.last()) {
            Some(conflict) => prior.push(conflict),
            None => prior,
        }
    }
}

/// Taking one more line adds the binding of that line, if it records one.
pub proof fn lemma_bindings_of_push(lines: Seq<Seq<char>>, line: Seq<char>)
    ensures
        bindings_of(lines.push(line)) == match line_binding(line) {
            Some(binding) => bindings_of(lines).push(binding),
            None => bindings_of(lines),
        },
{
    assert(lines.push(line).drop_last() == lines);
}

/// Observing one more binding stores it and adds its conflict, if it gives
/// one.
pub proof fn lemma_observe_push(
    cache: Map<u32, Seq<char>>,
    bindings: Seq<SpecBinding>,
    binding: SpecBinding,
)
    ensures
        cache_after(cache, bindings.push(binding)) == cache_after(cache, bindings).insert(
            binding.ip,
            binding.mac,
        ),
        conflicts_in(cache, bindings.push(binding)) == match conflict_of(
            cache_after(cache, bindings),
            binding,
        ) {
            Some(conflict) => conflicts_in(cache, bindings).push(conflict),
            None => conflicts_in(cache, bindings),
        },
{
    assert(bindings.push(binding).drop_last() == bindings);
}

/// Reads one line of a snapshot.
pub fn parse_binding(line: &[char]) -> (binding: Option<Binding>)
    ensures
        binding matches Some(found) ==> line_binding(line@) == Some(found@),
        binding is None ==> line_binding(line@) is None,
{
    let parts = split_fields(line);
    if parts.len() != 3 {
        return None;
    }
    match parse_ipv4(parts[0]) {
        Some(ip) => Some(Binding { ip, mac: string_of(parts[1]) }),
        None => None,
    }
}

/// Reads the bindings that a snapshot records, in input order.
pub fn parse_snapshot(text: &str) -> (bindings: Vec<Binding>)
    ensures
        binding_views(bindings@) == snapshot_bindings(text@),
{
    let chars = chars_of(text);
    let parts = split_lines(chars.as_slice());
    let ghost all = slice_texts(parts@);
    let mut bindings: Vec<Binding> = Vec::new();
    let n = parts.len();
    let mut i: usize = 0;
    while i < n
        invariant
            n == parts@.len(),
            i <= n,
            all == slice_texts(parts@),
            all == lines(text@),
            binding_views(bindings@) == bindings_of(all.take(i as int)),
        decreases n - i,
    {
        proof {
            assert(all.take(i + 1) == all.take(i as int).push(all[i as int]));
            lemma_bindings_of_push(all.take(i as int), all[i as int]);
        }
        match parse_binding(parts[i]) {
            Some(binding) => {
                assert(binding_views(bindings@.push(binding)) == binding_views(bindings@).push(
                    binding@,
                ));
                bindings.push(binding);
            },
            None => {},
        }
        i += 1;
    }
    assert(all.take(n as int) == all);
    bindings
}

/// The last hardware address observed for each IP address.
pub struct BindingCache {
    bindings: HashMap<u32, String>,
}

impl View for BindingCache {
    type V = Map<u32, Seq<char>>;

    closed spec fn view(&self) -> Map<u32, Seq<char>> {
        self.bindings@.map_values(|mac: String| mac@)
    }
}

impl BindingCache {
    /// A cache that holds nothing.
    pub fn new() -> (cache: BindingCache)
        ensures
            cache@ == Map::<u32, Seq<char>>::empty(),
    {
        let cache = BindingCache { bindings: HashMap::new() };
        cache
    }

    /// How many addresses are cached.
    pub fn len(&self) -> (n: usize)
        ensures
            n == self@.len(),
            self@.dom().finite(),
    {
        assert(self@.dom() =~= self.bindings@.dom());
        self.bindings.len()
    }

    /// The hardware address cached for `ip`.
    pub fn get(&self, ip: u32) -> (mac: Option<String>)
        ensures
            mac matches Some(found) ==> self@.contains_key(ip) && self@[ip] == found@,
            mac is None ==> !self@.contains_key(ip),
    {
        match self.bindings.get(&ip) {
            Some(cached) => Some(cached.clone()),
            None => None,
        }
    }

    /// Takes one binding: reports a conflict if the address is cached with
    /// another hardware address, and stores the binding either way.
    pub fn observe(&mut self, binding: Binding) -> (conflict: Option<Conflict>)
        ensures
            final(self)@ == old(self)@.insert(binding.ip, binding.mac@),
            conflict matches Some(found) ==> conflict_of(old(self)@, binding@) == Some(found@),
            conflict is None ==> conflict_of(old(self)@, binding@) is None,
    {
        let conflict = match self.bindings.get(&binding.ip) {
            Some(cached) => {
                if *cached != binding.mac {
                    Some(
                        Conflict {
                            ip: binding.ip,
                            old_mac: cached.clone(),
                            new_mac: binding.mac.clone(),
                        },
                    )
                } else {
                    None
                }
            },
            None => None,
        };
        self.bindings.insert(binding.ip, binding.mac);
        conflict
    }

    /// Takes the bindings of one snapshot in order.
    pub fn process_bindings(&mut self, bindings: &Vec<Binding>) -> (outcome: CycleOutcome)
        ensures
            final(self)@ == cache_after(old(self)@, binding_views(bindings@)),
            outcome.conflict_views() == conflicts_in(old(self)@, binding_views(bindings@)),
            outcome.wf(),
    {
        let ghost all = binding_views(bindings@);
        let mut conflicts: Vec<Conflict> = Vec::new();
        let n = bindings.len();
        let mut i: usize = 0;
        while i < n
            invariant
                n == bindings@.len(),
                i <= n,
                all == binding_views(bindings@),
                self@ == cache_after(old(self)@, all.take(i as int)),
                conflict_views(conflicts@) == conflicts_in(old(self)@, all.take(i as int)),
            decreases n - i,
        {
            let binding = Binding { ip: bindings[i].ip, mac: bindings[i].mac.clone() };
            proof {
                assert(all.take(i + 1) == all.take(i as int).push(all[i as int]));
                lemma_observe_push(old(self)@, all.take(i as int), binding@);
            }
            match self.observe(binding) {
                Some(conflict) => {
                    assert(conflict_views(conflicts@.push(conflict)) == conflict_views(
                        conflicts@,
                    ).push(conflict@));
                    conflicts.push(conflict);
                },
                None => {},
            }
            i += 1;
        }
        assert(all.take(n as int) == all);
        let is_spoofed = conflicts.len() > 0;
        CycleOutcome { conflicts, is_spoofed }
    }

    /// Takes one snapshot: reads its binding records, reports the conflicts
    /// in input order and leaves the cache holding the latest binding of
    /// every address.
    pub fn process_snapshot(&mut self, text: &str) -> (outcome: CycleOutcome)
        ensures
            final(self)@ == cache_after(old(self)@, snapshot_bindings(text@)),
            outcome.conflict_views() == conflicts_in(old(self)@, snapshot_bindings(text@)),
            outcome.wf(),
    {
        let bindings = parse_snapshot(text);
        self.process_bindings(&bindings)
    }
}

} // verus!
