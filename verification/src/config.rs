//! Startup configuration parsing: the comma-separated channel allow-list.

use vstd::prelude::*;

use crate::text::{str_views, parse_u64_of, parse_u64_str, split_char_of, split_str, trim_of,
    trim_str};

verus! {

/// Every entry, trimmed of surrounding whitespace, reads as an unsigned
/// 64-bit integer.
pub open spec fn all_entries_parse(entries: Seq<Seq<char>>) -> bool {
    forall|k: int| 0 <= k < entries.len() ==> parse_u64_of(trim_of(#[trigger] entries[k])) is Some
}

/// The channel identifiers the entries denote, in order.
pub open spec fn parsed_entries(entries: Seq<Seq<char>>) -> Seq<u64> {
    Seq::new(entries.len(), |k: int| parse_u64_of(trim_of(entries[k]))->0)
}

/// The allow-list a configuration string denotes: its comma-separated
/// entries, each trimmed and read as an unsigned 64-bit integer, in order;
/// nothing when any entry fails to parse.
pub open spec fn channel_list_of(s: Seq<char>) -> Option<Seq<u64>> {
    if all_entries_parse(split_char_of(s, ',')) {
        Some(parsed_entries(split_char_of(s, ',')))
    } else {
        None
    }
}

/// Parse the comma-separated channel allow-list, rejecting the whole string
/// when any entry fails.
pub fn parse_channel_list(s: &str) -> (r: Option<Vec<u64>>)
    ensures
        match r {
            Some(v) => channel_list_of(s@) == Some(v@),
            None => channel_list_of(s@) is None,
        },
{
    let entries = split_str(s, ',');
    let ghost eviews = str_views(entries@);
    let mut out: Vec<u64> = Vec::new();
    let mut i: usize = 0;
    while i < entries.len()
        invariant
            i <= entries.len(),
            eviews == str_views(entries@),
            eviews == split_char_of(s@, ','),
            eviews.len() == entries.len(),
            out@.len() == i,
            forall|k: int|
                0 <= k < i ==> parse_u64_of(trim_of(#[trigger] eviews[k])) == Some(out@[k]),
        decreases entries.len() - i,
    {
        let t = trim_str(entries[i].as_str());
        match parse_u64_str(t.as_str()) {
            Some(v) => {
                out.push(v);
                i = i + 1;
            },
            None => {
                proof {
                    assert(parse_u64_of(trim_of(eviews[i as int])) is None);
                    assert(!all_entries_parse(split_char_of(s@, ',')));
                }
                return None;
            },
        }
    }
    proof {
        assert(all_entries_parse(split_char_of(s@, ',')));
        assert(parsed_entries(split_char_of(s@, ',')) =~= out@);
    }
    Some(out)
}

} // verus!
