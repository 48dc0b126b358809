//! Title derivation for new threads.
//!
//! A title is derived from a message's lines in two steps, in priority order:
//! the colon rule (the prefix of the first line before the first `": "`, when
//! any line holds that separator and the prefix is non-empty and at most 100
//! characters), and the URL rule (the first line that parses as an absolute
//! URL yields a title from its host and path segments).  When neither rule
//! applies, no title is derived.

use vstd::prelude::*;

use crate::text::{find_sep, find_sep_str, str_views, str_eq};

verus! {

/// The view of an optional owned string.
pub open spec fn opt_view(r: Option<String>) -> Option<Seq<char>> {
    match r {
        Some(s) => Some(s@),
        None => None,
    }
}

/// What `url::Url::parse`, `host_str` and `path_segments` together extract
/// from one line: the host string and the path segments of an absolute URL,
/// or nothing when the line does not parse, has no host, or cannot be a base.
pub uninterp spec fn url_parts_of(s: Seq<char>) -> Option<(Seq<char>, Seq<Seq<char>>)>;

/// Relies on `url::Url::parse`, `url::Url::host_str` and
/// `url::Url::path_segments`: for a given input string, whether it parses as
/// an absolute URL and, if so, its host string and its path segments depend
/// on that string alone.
#[verifier::external_body]
fn url_host_and_segments(s: &str) -> (r: Option<(String, Vec<String>)>)
    ensures
        r is Some <==> url_parts_of(s@) is Some,
        r is Some ==> ({
            let parts = r->0;
            let model = url_parts_of(s@)->0;
            parts.0@ == model.0 && str_views(parts.1@) == model.1
        }),
{
    let u = match url::Url::parse(s) {
        Ok(u) => u,
        Err(_) => return None,
    };
    let host = match u.host_str() {
        Some(h) => h.to_owned(),
        None => return None,
    };
    let segs: Vec<String> = match u.path_segments() {
        Some(it) => it.map(str::to_owned).collect(),
        None => return None,
    };
    Some((host, segs))
}

/// Hosts for which the second path segment names the project.
pub open spec fn forge_host(h: Seq<char>) -> bool {
    h == "github.com"@ || h == "gitlab.com"@
}

/// The non-empty path segments, in order.
pub open spec fn nonempty_segs(segs: Seq<Seq<char>>) -> Seq<Seq<char>> {
    segs.filter(|p: Seq<char>| p.len() > 0)
}

/// The title derived from a URL's host and path segments: for a forge host
/// the second path segment, if present; otherwise the single non-empty path
/// segment, if there is exactly one, and the host string if there are zero
/// or several.
pub open spec fn title_from_parts(host: Seq<char>, segs: Seq<Seq<char>>) -> Option<Seq<char>> {
    if forge_host(host) {
        if segs.len() >= 2 {
            Some(segs[1])
        } else {
            None
        }
    } else {
        let ne = nonempty_segs(segs);
        if ne.len() == 1 {
            Some(ne[0])
        } else {
            Some(host)
        }
    }
}

/// The title the URL rule derives from one line: nothing when the line
/// yields no URL parts, and otherwise the title its host and path segments
/// determine.
pub open spec fn url_title_of(s: Seq<char>) -> Option<Seq<char>> {
    match url_parts_of(s) {
        None => None,
        Some(parts) => title_from_parts(parts.0, parts.1),
    }
}

/// The single non-empty segment, when there is exactly one.
fn only_nonempty(segs: &Vec<String>) -> (r: Option<String>)
    ensures
        ({
            let ne = nonempty_segs(str_views(segs@));
            match r {
                Some(t) => ne.len() == 1 && t@ == ne[0],
                None => ne.len() != 1,
            }
        }),
{
    let ghost views = str_views(segs@);
    let mut count: usize = 0;
    let mut found: Option<String> = None;
    let mut i: usize = 0;
    proof {
        assert(views.subrange(0, 0) =~= Seq::<Seq<char>>::empty());
        reveal(Seq::filter);
    }
    while i < segs.len()
        invariant
            i <= segs.len(),
            views == str_views(segs@),
            count <= i,
            count == nonempty_segs(views.subrange(0, i as int)).len(),
            match found {
                Some(t) => count >= 1 && t@ == nonempty_segs(views.subrange(0, i as int))[0],
                None => count == 0,
            },
        decreases segs.len() - i,
    {
        let ghost pre = views.subrange(0, i as int);
        let ghost pre1 = views.subrange(0, i as int + 1);
        proof {
            reveal(Seq::filter);
            assert(pre1.drop_last() =~= pre);
            assert(pre1.last() == views[i as int]);
        }
        if !segs[i].as_str().is_empty() {
            if count == 0 {
                found = Some(segs[i].clone());
            }
            count = count + 1;
        }
        i = i + 1;
    }
    proof {
        assert(views.subrange(0, segs@.len() as int) =~= views);
    }
    if count == 1 {
        found
    } else {
        None
    }
}

/// The title a URL's host and path segments determine.
pub fn url_title_from_parts(host: String, segs: &Vec<String>) -> (r: Option<String>)
    ensures
        opt_view(r) == title_from_parts(host@, str_views(segs@)),
{
    if str_eq(host.as_str(), "github.com") || str_eq(host.as_str(), "gitlab.com") {
        if segs.len() >= 2 {
            Some(segs[1].clone())
        } else {
            None
        }
    } else {
        match only_nonempty(segs) {
            Some(t) => Some(t),
            None => Some(host),
        }
    }
}

/// The URL rule on one line.
pub fn parse_url_title(line: &str) -> (r: Option<String>)
    ensures
        opt_view(r) == url_title_of(line@),
{
    match url_host_and_segments(line) {
        None => None,
        Some((host, segs)) => url_title_from_parts(host, &segs),
    }
}

/// Some line of the content holds the separator `": "`.
pub open spec fn content_has_sep(lines: Seq<Seq<char>>) -> bool {
    exists|k: int| 0 <= k < lines.len() && find_sep(#[trigger] lines[k]) is Some
}

/// The colon rule: when any line holds `": "`, the first line is split at its
/// own first `": "`, and the prefix is the title when it is non-empty and at
/// most 100 characters.  A first line without the separator, an empty prefix
/// and an over-long prefix all yield nothing.
pub open spec fn colon_title_of(lines: Seq<Seq<char>>) -> Option<Seq<char>> {
    if content_has_sep(lines) && lines.len() > 0 {
        match find_sep(lines[0]) {
            Some(i) => {
                let p = lines[0].subrange(0, i);
                if 0 < p.len() <= 100 {
                    Some(p)
                } else {
                    None
                }
            },
            None => None,
        }
    } else {
        None
    }
}

/// The URL rule over the lines from position `k` on: the first line that
/// yields a URL-derived title wins.
pub open spec fn url_rule_from(lines: Seq<Seq<char>>, k: int) -> Option<Seq<char>>
    decreases lines.len() - k,
{
    if k < 0 || k >= lines.len() {
        None
    } else {
        match url_title_of(lines[k]) {
            Some(t) => Some(t),
            None => url_rule_from(lines, k + 1),
        }
    }
}

/// The derived title: the colon rule, and where it yields nothing, the URL
/// rule over the lines in order.
pub open spec fn derived_title_of(lines: Seq<Seq<char>>) -> Option<Seq<char>> {
    match colon_title_of(lines) {
        Some(t) => Some(t),
        None => url_rule_from(lines, 0),
    }
}

/// The colon rule wins: for content whose first line holds `": "` with a
/// non-empty prefix of at most 100 characters before its first occurrence,
/// the derived title is exactly that prefix.
pub proof fn lemma_colon_prefix_wins(lines: Seq<Seq<char>>, i: int)
    requires
        lines.len() > 0,
        find_sep(lines[0]) == Some(i),
        0 < i <= 100,
    ensures
        derived_title_of(lines) == Some(lines[0].subrange(0, i)),
{
    assert(0 <= 0 < lines.len() && find_sep(lines[0]) is Some);
    assert(content_has_sep(lines));
    crate::text::lemma_find_sep_from(lines[0], 0);
    assert(lines[0].subrange(0, i).len() == i);
}

/// An over-long prefix falls through: when the prefix before the first
/// line's first `": "` has more than 100 characters, the colon rule yields
/// nothing and the URL rule alone decides the title.
pub proof fn lemma_long_prefix_falls_through(lines: Seq<Seq<char>>, i: int)
    requires
        lines.len() > 0,
        find_sep(lines[0]) == Some(i),
        i > 100,
    ensures
        derived_title_of(lines) == url_rule_from(lines, 0),
{
    crate::text::lemma_find_sep_from(lines[0], 0);
    assert(lines[0].subrange(0, i).len() == i);
}

/// When no line yields a URL-derived title, the URL rule yields nothing.
pub proof fn lemma_url_rule_none(lines: Seq<Seq<char>>, k: int)
    requires
        0 <= k <= lines.len(),
        forall|j: int| 0 <= j < lines.len() ==> url_title_of(#[trigger] lines[j]) is None,
    ensures
        url_rule_from(lines, k) is None,
    decreases lines.len() - k,
{
    if k < lines.len() {
        lemma_url_rule_none(lines, k + 1);
    }
}

/// The colon rule, executed.
fn colon_title(lines: &Vec<String>) -> (r: Option<String>)
    ensures
        opt_view(r) == colon_title_of(str_views(lines@)),
{
    let ghost views = str_views(lines@);
    let mut sep_found: bool = false;
    let mut k: usize = 0;
    while k < lines.len() && !sep_found
        invariant
            k <= lines.len(),
            views == str_views(lines@),
            !sep_found ==> forall|j: int| 0 <= j < k ==> find_sep(#[trigger] views[j]) is None,
            sep_found ==> content_has_sep(views),
        decreases lines.len() - k + (if sep_found { 0int } else { 1int }),
    {
        match find_sep_str(lines[k].as_str()) {
            Some(_) => {
                proof {
                    assert(find_sep(views[k as int]) is Some);
                }
                sep_found = true;
            },
            None => {
                k = k + 1;
            },
        }
    }
    if !sep_found {
        proof {
            assert(!content_has_sep(views));
        }
        return None;
    }
    proof {
        assert(lines@.len() > 0);
    }
    match find_sep_str(lines[0].as_str()) {
        Some(i) => {
            proof {
                crate::text::lemma_find_sep_from(views[0], 0);
                assert(crate::text::sep_at(views[0], i as int));
            }
            if 1 <= i && i <= 100 {
                let p = lines[0].as_str().substring_char(0, i);
                proof {
                    assert(p@ =~= views[0].subrange(0, i as int));
                }
                Some(p.to_owned())
            } else {
                proof {
                    assert(views[0].subrange(0, i as int).len() == i as int);
                }
                None
            }
        },
        None => None,
    }
}

/// Derive a thread title from a message's lines: the colon rule first, then
/// the URL rule, and nothing when neither applies.
pub fn derive_title(lines: &Vec<String>) -> (r: Option<String>)
    ensures
        opt_view(r) == derived_title_of(str_views(lines@)),
{
    let ghost views = str_views(lines@);
    match colon_title(lines) {
        Some(t) => Some(t),
        None => {
            let mut k: usize = 0;
            while k < lines.len()
                invariant
                    k <= lines.len(),
                    views == str_views(lines@),
                    colon_title_of(views) is None,
                    url_rule_from(views, 0) == url_rule_from(views, k as int),
                decreases lines.len() - k,
            {
                match parse_url_title(lines[k].as_str()) {
                    Some(t) => {
                        return Some(t);
                    },
                    None => {
                        k = k + 1;
                    },
                }
            }
            None
        },
    }
}

} // verus!
