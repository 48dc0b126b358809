//! Per-event dispatch: filter an inbound message event by author kind and a
//! channel allow-list, resolve a title for the thread, and build the one
//! thread-creation request owed for a qualifying event.

use vstd::prelude::*;

use crate::text::{find_sep, str_views};
use crate::title::{content_has_sep, derive_title, derived_title_of, lemma_url_rule_none,
    url_parts_of, url_title_of};

verus! {

/// The kind of thread the integration opens.
#[derive(Clone, Copy, PartialEq, Eq, Structural, Debug)]
pub enum ThreadKind {
    PublicThread,
}

/// The options a thread is created with.
pub struct ThreadOptions {
    /// Thread name.
    pub name: String,
    /// Thread kind.
    pub kind: ThreadKind,
    /// Idle minutes after which the thread auto-archives.
    pub auto_archive_minutes: u32,
}

/// Process-wide, read-only configuration: the channel allow-list and the
/// options template whose `name` a derived title may override.
pub struct Config {
    /// Channels in which messages get threads.
    pub channels: Vec<u64>,
    /// Template for the creation options.
    pub template: ThreadOptions,
}

/// One inbound message event, as handed in by the gateway.
pub struct MessageEvent {
    /// The author is an automated participant.
    pub author_is_bot: bool,
    /// Channel the message arrived in.
    pub channel_id: u64,
    /// The message's own identifier.
    pub message_id: u64,
    /// The message text, as an ordered sequence of lines.
    pub lines: Vec<String>,
}

/// The one outbound request a qualifying event earns.
pub struct ThreadRequest {
    /// Channel to create the thread in.
    pub channel_id: u64,
    /// Message the thread hangs off.
    pub message_id: u64,
    /// Creation options, the template with the name possibly overridden.
    pub options: ThreadOptions,
}

/// The options template built at startup: a default name, a public thread,
/// auto-archival after 1440 idle minutes.
pub fn default_template() -> (t: ThreadOptions)
    ensures
        t.name@ == "discussion"@,
        t.kind == ThreadKind::PublicThread,
        t.auto_archive_minutes == 1440,
{
    ThreadOptions { name: "discussion".to_owned(), kind: ThreadKind::PublicThread, auto_archive_minutes: 1440 }
}

/// An event passes the filter when its author is not automated and its
/// channel is on the allow-list.
pub open spec fn passes_filter(cfg: Config, ev: MessageEvent) -> bool {
    &&& !ev.author_is_bot
    &&& cfg.channels@.contains(ev.channel_id)
}

/// The name the created thread gets: the derived title where there is one,
/// the template's name otherwise.
pub open spec fn resolved_name(cfg: Config, ev: MessageEvent) -> Seq<char> {
    match derived_title_of(str_views(ev.lines@)) {
        Some(t) => t,
        None => cfg.template.name@,
    }
}

/// Exact membership test against the allow-list.
fn channel_allowed(channels: &Vec<u64>, id: u64) -> (r: bool)
    ensures
        r == channels@.contains(id),
{
    let mut i: usize = 0;
    while i < channels.len()
        invariant
            i <= channels.len(),
            forall|j: int| 0 <= j < i ==> channels@[j] != id,
        decreases channels.len() - i,
    {
        if channels[i] == id {
            return true;
        }
        i = i + 1;
    }
    false
}

/// Decide one inbound message event.
///
/// An automated author or a channel off the allow-list yields no request.
/// Any other event yields exactly one request, aimed at the event's channel
/// and message, whose options are the template with the `name` replaced by
/// the derived title when one is derived.  Events are decided one by one
/// from the configuration alone; nothing is carried from event to event.
pub fn handle_message(cfg: &Config, ev: &MessageEvent) -> (r: Option<ThreadRequest>)
    ensures
        r is Some <==> passes_filter(*cfg, *ev),
        r is Some ==> ({
            let req = r->0;
            &&& req.channel_id == ev.channel_id
            &&& req.message_id == ev.message_id
            &&& req.options.name@ == resolved_name(*cfg, *ev)
            &&& req.options.kind == cfg.template.kind
            &&& req.options.auto_archive_minutes == cfg.template.auto_archive_minutes
        }),
{
    if ev.author_is_bot {
        return None;
    }
    if !channel_allowed(&cfg.channels, ev.channel_id) {
        return None;
    }
    let name = match derive_title(&ev.lines) {
        Some(t) => t,
        None => cfg.template.name.clone(),
    };
    let options = ThreadOptions {
        name,
        kind: cfg.template.kind,
        auto_archive_minutes: cfg.template.auto_archive_minutes,
    };
    Some(ThreadRequest { channel_id: ev.channel_id, message_id: ev.message_id, options })
}

/// How many thread-creation requests a run of events issues: one per event
/// that passes the filter, each decided independently.
pub open spec fn requests_issued(cfg: Config, events: Seq<MessageEvent>) -> nat
    decreases events.len(),
{
    if events.len() == 0 {
        0
    } else {
        requests_issued(cfg, events.drop_last()) + (if passes_filter(cfg, events.last()) {
            1nat
        } else {
            0nat
        })
    }
}

/// For content with no `": "` in any line and no line that parses as an
/// absolute URL, no title is derived, and the thread's name stays the
/// template's default.
pub proof fn lemma_no_title_keeps_template_name(cfg: Config, ev: MessageEvent)
    requires
        forall|k: int|
            0 <= k < str_views(ev.lines@).len() ==> find_sep(
                #[trigger] str_views(ev.lines@)[k],
            ) is None,
        forall|k: int|
            0 <= k < str_views(ev.lines@).len() ==> url_parts_of(
                #[trigger] str_views(ev.lines@)[k],
            ) is None,
    ensures
        derived_title_of(str_views(ev.lines@)) is None,
        resolved_name(cfg, ev) == cfg.template.name@,
{
    let lines = str_views(ev.lines@);
    assert(!content_has_sep(lines));
    assert forall|j: int| 0 <= j < lines.len() implies url_title_of(#[trigger] lines[j]) is None by {
        assert(url_parts_of(lines[j]) is None);
    }
    lemma_url_rule_none(lines, 0);
}

/// Delivering the same qualifying event twice issues two thread-creation
/// requests: dispatch is stateless, and nothing deduplicates by message id.
pub proof fn lemma_no_deduplication(cfg: Config, ev: MessageEvent)
    requires
        passes_filter(cfg, ev),
    ensures
        requests_issued(cfg, seq![ev, ev]) == 2,
{
    let twice = seq![ev, ev];
    assert(twice.drop_last() =~= seq![ev]);
    assert(seq![ev].drop_last() =~= Seq::<MessageEvent>::empty());
    assert(requests_issued(cfg, Seq::<MessageEvent>::empty()) == 0);
    assert(seq![ev].last() == ev);
    assert(requests_issued(cfg, seq![ev]) == 1);
    assert(twice.last() == ev);
}

} // verus!
