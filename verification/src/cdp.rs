//! The decisions of a browser session over CDP: which tab is managed, what
//! closing or losing it leaves, how tabs are listed, and how a refused
//! navigation is told apart from a failed one.
//!
//! The CDP connection itself is driven by the service; this module works on
//! what the browser reports (its pages by target id, their URLs and titles).

use crate::text::{chars_of, find_chars, first_occurrence_from, str_eq};
use vstd::prelude::*;

verus! {

/// One open tab in an agent's browser, addressed by its position.
#[derive(Debug, Clone)]
pub struct TabInfo {
    pub index: usize,
    pub url: String,
    pub title: String,
    /// Whether this is the page Lumen drives and screencasts.
    pub active: bool,
}

/// A navigation the policy refused.
#[derive(Debug, Clone)]
pub struct NavigationBlocked {
    pub url: String,
}

impl NavigationBlocked {
    pub fn message(&self) -> (m: String)
        ensures
            m@ == "navigation blocked by policy: "@ + self.url@,
    {
        let mut m = String::from_str("navigation blocked by policy: ");
        m.append(self.url.as_str());
        m
    }
}

/// Closing the managed tab when no other tab could take its place.
#[derive(Debug, Clone, Copy, PartialEq, Eq, Structural)]
pub struct OnlyManagedTab;

impl OnlyManagedTab {
    pub fn message(&self) -> (m: &'static str)
        ensures
            m@ == "cannot close the only managed tab"@,
    {
        "cannot close the only managed tab"
    }
}

/// One page as the browser lists it: its target id, and its URL and title
/// when the page could still answer for them.
#[derive(Debug, Clone)]
pub struct PageListing {
    pub target_id: String,
    pub url: Option<String>,
    pub title: Option<String>,
}

pub open spec fn text_or_empty(o: Option<String>) -> Seq<char> {
    match o {
        Some(s) => s@,
        None => Seq::empty(),
    }
}

/// Every open tab, in browser order, marking the managed one. A page that
/// could not report its URL or title contributes empty fields, so indices
/// stay aligned with the list that activation and closing act on.
pub fn tab_infos(pages: &Vec<PageListing>, managed: &str) -> (tabs: Vec<TabInfo>)
    ensures
        tabs.len() == pages.len(),
        forall|i: int|
            #![trigger tabs@[i]]
            0 <= i < tabs.len() ==> {
                &&& tabs@[i].index == i
                &&& tabs@[i].url@ == text_or_empty(pages@[i].url)
                &&& tabs@[i].title@ == text_or_empty(pages@[i].title)
                &&& tabs@[i].active == (pages@[i].target_id@ == managed@)
            },
{
    let mut tabs: Vec<TabInfo> = Vec::new();
    let mut i: usize = 0;
    while i < pages.len()
        invariant
            i <= pages.len(),
            tabs.len() == i,
            forall|j: int|
                #![trigger tabs@[j]]
                0 <= j < i ==> {
                    &&& tabs@[j].index == j
                    &&& tabs@[j].url@ == text_or_empty(pages@[j].url)
                    &&& tabs@[j].title@ == text_or_empty(pages@[j].title)
                    &&& tabs@[j].active == (pages@[j].target_id@ == managed@)
                },
        decreases pages.len() - i,
    {
        let page = &pages[i];
        let url = match &page.url {
            Some(u) => u.clone(),
            None => String::new(),
        };
        let title = match &page.title {
            Some(t) => t.clone(),
            None => String::new(),
        };
        let active = str_eq(page.target_id.as_str(), managed);
        assert(url@ == text_or_empty(pages@[i as int].url));
        assert(title@ == text_or_empty(pages@[i as int].title));
        let ghost before = tabs@;
        tabs.push(TabInfo { index: i, url, title, active });
        assert(forall|j: int| 0 <= j < i ==> tabs@[j] == before[j]);
        i = i + 1;
    }
    tabs
}

/// The first index at or after `from` whose target id is `target`.
pub open spec fn first_with_id(ids: Seq<Seq<char>>, target: Seq<char>, from: int) -> Option<int>
    decreases ids.len() - from,
{
    if from < 0 || from >= ids.len() {
        None
    } else if ids[from] == target {
        Some(from)
    } else {
        first_with_id(ids, target, from + 1)
    }
}

/// The first index at or after `from` whose target id is not `target`.
pub open spec fn first_other(ids: Seq<Seq<char>>, target: Seq<char>, from: int) -> Option<int>
    decreases ids.len() - from,
{
    if from < 0 || from >= ids.len() {
        None
    } else if ids[from] != target {
        Some(from)
    } else {
        first_other(ids, target, from + 1)
    }
}

pub open spec fn ids_view(ids: Seq<String>) -> Seq<Seq<char>> {
    ids.map_values(|s: String| s@)
}

/// The position of the page with target id `target`: how a tab the browser
/// opened on its own is found to be adopted.
pub fn index_of_target(ids: &Vec<String>, target: &str) -> (res: Option<usize>)
    ensures
        match res {
            Some(i) => first_with_id(ids_view(ids@), target@, 0) == Some(i as int),
            None => first_with_id(ids_view(ids@), target@, 0) is None,
        },
{
    let mut i: usize = 0;
    while i < ids.len()
        invariant
            i <= ids.len(),
            first_with_id(ids_view(ids@), target@, i as int) == first_with_id(ids_view(ids@), target@, 0),
        decreases ids.len() - i,
    {
        if str_eq(ids[i].as_str(), target) {
            return Some(i);
        }
        i = i + 1;
    }
    None
}

/// The first page other than `target`: the tab that replaces a managed tab
/// being closed or lost.
pub fn replacement_for(ids: &Vec<String>, target: &str) -> (res: Option<usize>)
    ensures
        match res {
            Some(i) => first_other(ids_view(ids@), target@, 0) == Some(i as int),
            None => first_other(ids_view(ids@), target@, 0) is None,
        },
{
    let mut i: usize = 0;
    while i < ids.len()
        invariant
            i <= ids.len(),
            first_other(ids_view(ids@), target@, i as int) == first_other(ids_view(ids@), target@, 0),
        decreases ids.len() - i,
    {
        if !str_eq(ids[i].as_str(), target) {
            return Some(i);
        }
        i = i + 1;
    }
    None
}

/// The page a session drives when it connects: the first the browser
/// lists, or none when it lists no page (one is then opened).
pub fn managed_page(ids: &Vec<String>) -> (res: Option<usize>)
    ensures
        res == (if ids.len() > 0 {
            Some(0usize)
        } else {
            None
        }),
{
    if ids.len() > 0 {
        Some(0)
    } else {
        None
    }
}

/// How many times a new connection looks again for pages other than the
/// managed one, which Chromium may still be opening.
pub const REAP_ROUNDS: u32 = 12;

/// Whether another look is due after `round` looks.
pub fn reap_again(round: u32) -> (res: bool)
    ensures
        res == (round < REAP_ROUNDS),
{
    round < REAP_ROUNDS
}

/// What one look at the browser's pages calls for: nothing more once only
/// the managed page is left, otherwise closing every other page.
#[derive(Debug, Clone)]
pub enum ReapStep {
    Done,
    Close(Vec<usize>),
}

/// Decide one look: `Close` lists, in order, the position of every page
/// whose target id is not `keep`; `Done` when there is none.
pub fn reap_step(keep: &str, ids: &Vec<String>) -> (step: ReapStep)
    ensures
        (forall|i: int| 0 <= i < ids.len() ==> #[trigger] ids@[i]@ == keep@) ==> step is Done,
        (exists|i: int| 0 <= i < ids.len() && #[trigger] ids@[i]@ != keep@) ==> (step matches ReapStep::Close(v)
            && (forall|k: int| #![trigger v@[k]] 0 <= k < v.len() ==> v@[k] < ids.len() && ids@[v@[k] as int]@ != keep@)
            && (forall|i: int| 0 <= i < ids.len() && #[trigger] ids@[i]@ != keep@ ==> v@.contains(i as usize))
            && (forall|a: int, b: int| 0 <= a < b < v.len() ==> v@[a] < v@[b])),
{
    let mut v: Vec<usize> = Vec::new();
    let mut i: usize = 0;
    while i < ids.len()
        invariant
            i <= ids.len(),
            forall|k: int| #![trigger v@[k]] 0 <= k < v.len() ==> v@[k] < i && ids@[v@[k] as int]@ != keep@,
            forall|j: int| 0 <= j < i && #[trigger] ids@[j]@ != keep@ ==> v@.contains(j as usize),
            forall|a: int, b: int| 0 <= a < b < v.len() ==> v@[a] < v@[b],
        decreases ids.len() - i,
    {
        if !str_eq(ids[i].as_str(), keep) {
            let ghost before = v@;
            v.push(i);
            proof {
                assert(ids@[i as int]@ != keep@);
                assert forall|k: int| #![trigger v@[k]] 0 <= k < v.len() implies v@[k] < i + 1 && ids@[v@[k] as int]@
                    != keep@ by {
                    assert(v@ == before.push(i));
                    if k < before.len() {
                        assert(v@[k] == before[k]);
                        assert(before[k] < i && ids@[before[k] as int]@ != keep@);
                    } else {
                        assert(v@[k] == i);
                    }
                }
                assert forall|a: int, b: int| 0 <= a < b < v.len() implies v@[a] < v@[b] by {
                    assert(v@ == before.push(i));
                    assert(v@[a] == before[a]);
                    assert(before[a] < i && ids@[before[a] as int]@ != keep@);
                    if b < before.len() {
                        assert(v@[b] == before[b]);
                    }
                }
                assert forall|j: int| 0 <= j < i + 1 && #[trigger] ids@[j]@ != keep@ implies v@.contains(j as usize) by {
                    if j < i {
                        let k = choose|k: int| 0 <= k < before.len() && before[k] == j as usize;
                        assert(v@[k] == j as usize);
                    } else {
                        assert(v@[before.len() as int] == j as usize);
                    }
                }
            }
        }
        i = i + 1;
    }
    if v.len() == 0 {
        proof {
            assert forall|j: int| 0 <= j < ids.len() implies #[trigger] ids@[j]@ == keep@ by {
                if ids@[j]@ != keep@ {
                    assert(v@.contains(j as usize));
                }
            }
        }
        ReapStep::Done
    } else {
        proof {
            assert(v@.len() > 0);
            assert(v@[0] < ids.len());
            assert(ids@[v@[0] as int]@ != keep@);
        }
        ReapStep::Close(v)
    }
}

/// What closing tab `index` involves.
#[derive(Debug, Clone, Copy, PartialEq, Eq, Structural)]
pub enum CloseStep {
    /// No tab at that index.
    NotFound,
    /// A tab other than the managed one: close it, the managed tab stays.
    CloseOther,
    /// The managed tab: another tab must take its place first.
    ReplaceManaged,
}

/// Decide what closing tab `index` of the listed pages involves, given the
/// managed page's target id.
pub fn close_step(ids: &Vec<String>, index: usize, managed: &str) -> (step: CloseStep)
    ensures
        index >= ids.len() ==> step == CloseStep::NotFound,
        index < ids.len() && ids@[index as int]@ != managed@ ==> step == CloseStep::CloseOther,
        index < ids.len() && ids@[index as int]@ == managed@ ==> step == CloseStep::ReplaceManaged,
{
    if index >= ids.len() {
        CloseStep::NotFound
    } else if str_eq(ids[index].as_str(), managed) {
        CloseStep::ReplaceManaged
    } else {
        CloseStep::CloseOther
    }
}

/// The text by which a document request the policy guard failed shows up in
/// a navigation error.
pub open spec fn blocked_marker() -> Seq<char> {
    "ERR_BLOCKED_BY_CLIENT"@
}

/// Whether a navigation error is the policy guard's refusal rather than a
/// real navigation failure.
pub fn is_blocked_navigation(error: &str) -> (res: bool)
    ensures
        res == (first_occurrence_from(error@, blocked_marker(), 0) is Some),
{
    let text = chars_of(error);
    let marker = chars_of("ERR_BLOCKED_BY_CLIENT");
    find_chars(text.as_slice(), marker.as_slice()).is_some()
}

/// One DevTools target as the browser's target list reports it.
#[derive(Debug, Clone)]
pub struct TargetListing {
    pub id: Option<String>,
    pub websocket_url: Option<String>,
}

/// The websocket of the first listed target with the given id that has one.
pub open spec fn websocket_of(targets: Seq<TargetListing>, target: Seq<char>) -> Option<Seq<char>>
    decreases targets.len(),
{
    if targets.len() == 0 {
        None
    } else {
        let t = targets[0];
        if (t.id matches Some(id) && id@ == target) && t.websocket_url is Some {
            Some(t.websocket_url->0@)
        } else {
            websocket_of(targets.drop_first(), target)
        }
    }
}

/// Resolve the DevTools websocket URL of one page target from the target
/// list.
pub fn websocket_url(targets: &Vec<TargetListing>, target: &str) -> (res: Option<String>)
    ensures
        match res {
            Some(u) => websocket_of(targets@, target@) == Some(u@),
            None => websocket_of(targets@, target@) is None,
        },
{
    let mut i: usize = 0;
    assert(targets@.subrange(0, targets.len() as int) =~= targets@);
    while i < targets.len()
        invariant
            i <= targets.len(),
            websocket_of(targets@.subrange(i as int, targets.len() as int), target@) == websocket_of(targets@, target@),
        decreases targets.len() - i,
    {
        let t = &targets[i];
        let ghost rest = targets@.subrange(i as int, targets.len() as int);
        assert(rest[0] == *t);
        assert(rest.drop_first() =~= targets@.subrange(i + 1, targets.len() as int));
        let matches = match &t.id {
            Some(id) => str_eq(id.as_str(), target),
            None => false,
        };
        if matches {
            if let Some(url) = &t.websocket_url {
                return Some(url.clone());
            }
        }
        i = i + 1;
    }
    assert(targets@.subrange(targets.len() as int, targets.len() as int).len() == 0);
    None
}

} // verus!
