//! One detection cycle on the output of the table command.

use crate::alert::{alert_events, alert_text, alert_views, alerts_for, SpecAlert};
use crate::cache::{cache_after, conflicts_in, snapshot_bindings, BindingCache};
use vstd::prelude::*;
use vstd::utf8::{decode_utf8, valid_utf8};

verus! {

/// Whether `bytes` start with the byte order mark of UTF-8.
pub open spec fn has_bom(bytes: Seq<u8>) -> bool {
    bytes.len() >= 3 && bytes[0] == 0xef && bytes[1] == 0xbb && bytes[2] == 0xbf
}

/// `bytes` without the byte order mark of UTF-8 at their start, if there is
/// one.
pub open spec fn without_bom(bytes: Seq<u8>) -> Seq<u8> {
    if has_bom(bytes) {
        bytes.skip(3)
    } else {
        bytes
    }
}

/// The text that the bytes decode to: as UTF-8, unless they start with the
/// byte order mark of UTF-16, and without a byte order mark; what is
/// malformed is replaced.
pub uninterp spec fn utf8_decoded(bytes: Seq<u8>) -> Seq<char>;

/// Calls `decode` on `encoding_rs::UTF_8` and keeps the text. Not verified.
/// The contract names the text, as what encoding_rs decodes these bytes to.
/// It claims what the text is only for well-formed UTF-8: the characters
/// that the bytes encode, without a byte order mark at the start. The
/// decoder panics where the size of its buffer, a few times the length of
/// the input, overflows; such inputs are left out.
#[verifier::external_body]
fn decode(bytes: &[u8]) -> (text: String)
    requires
        bytes@.len() <= usize::MAX / 16,
    ensures
        text@ == utf8_decoded(bytes@),
        valid_utf8(bytes@) ==> text@ == decode_utf8(without_bom(bytes@)),
{
    let (text, _, _) = encoding_rs::UTF_8.decode(bytes);
    text.into_owned()
}

/// The text of the raw output of the table command: the characters that
/// it encodes where it is well-formed UTF-8, without a byte order mark at
/// the start, and else what the decoder makes of it.
pub open spec fn output_text(output: Seq<u8>) -> Seq<char> {
    if valid_utf8(output) {
        decode_utf8(without_bom(output))
    } else {
        utf8_decoded(output)
    }
}

/// The character sequences of `texts`.
pub open spec fn text_views(texts: Seq<String>) -> Seq<Seq<char>> {
    texts.map_values(|text: String| text@)
}

/// The messages of a cycle that takes the snapshot `text` while the cache
/// is `cache`: one for each conflict in input order, or the heartbeat alone.
pub open spec fn cycle_messages(cache: Map<u32, Seq<char>>, text: Seq<char>) -> Seq<Seq<char>> {
    alerts_for(conflicts_in(cache, snapshot_bindings(text))).map_values(
        |alert: SpecAlert| alert_text(alert),
    )
}

/// Runs one cycle on a snapshot: updates the cache and gives the messages
/// to send to the collector, in order. There is always at least one.
pub fn run_cycle(cache: &mut BindingCache, text: &str) -> (messages: Vec<String>)
    ensures
        final(cache)@ == cache_after(old(cache)@, snapshot_bindings(text@)),
        text_views(messages@) == cycle_messages(old(cache)@, text@),
        messages@.len() >= 1,
{
    let outcome = cache.process_snapshot(text);
    let events = alert_events(&outcome);
    let ghost alerts = alerts_for(outcome.conflict_views());
    let mut messages: Vec<String> = Vec::new();
    let n = events.len();
    let mut i: usize = 0;
    while i < n
        invariant
            n == events@.len(),
            i <= n,
            messages@.len() == i,
            forall|k: int| 0 <= k < i ==> (#[trigger] messages@[k])@ == alert_text(events@[k]@),
        decreases n - i,
    {
        messages.push(events[i].to_json());
        i += 1;
    }
    assert(text_views(messages@) == cycle_messages(old(cache)@, text@)) by {
        let expected = cycle_messages(old(cache)@, text@);
        assert(alert_views(events@) == alerts);
        assert(expected.len() == n);
        assert forall|k: int| 0 <= k < n implies text_views(messages@)[k] == expected[k] by {
            assert(alert_views(events@)[k] == events@[k]@);
        }
    }
    messages
}

/// Runs one cycle on the raw output of the table command: decodes it,
/// updates the cache and gives the messages to send to the collector.
pub fn detector(cache: &mut BindingCache, output: &[u8]) -> (messages: Vec<String>)
    requires
        output@.len() <= usize::MAX / 16,
    ensures
        final(cache)@ == cache_after(old(cache)@, snapshot_bindings(output_text(output@))),
        text_views(messages@) == cycle_messages(old(cache)@, output_text(output@)),
        messages@.len() >= 1,
{
    let text = decode(output);
    run_cycle(cache, text.as_str())
}

} // verus!
