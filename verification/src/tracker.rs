//! Trackers: the classification of a tracker URL by its scheme, and the
//! ordered list of trackers that a descriptor names.
use crate::metadata::tiers_view;
use reqwest::Url;
use vstd::prelude::*;

verus! {

/// The protocol spoken with a tracker.
#[derive(Clone, Copy, Debug, PartialEq, Eq, Structural)]
pub enum TrackerProtocol {
    UDP,
    HTTP,
}

/// An IP address as plain bytes, most significant first.
#[derive(Clone, Copy, Debug)]
pub enum IpAddress {
    V4([u8; 4]),
    V6([u8; 16]),
}

/// A network endpoint that a tracker URL was resolved to.
#[derive(Clone, Copy, Debug)]
pub struct SocketAddress {
    pub ip: IpAddress,
    pub port: u16,
}

/// A tracker: the URL as the descriptor gives it, the protocol that its
/// scheme selects, and the endpoint once the transport has resolved it.
#[derive(Clone, Debug)]
pub struct Tracker {
    pub url: String,
    pub protocol: TrackerProtocol,
    pub socket_adr: Option<SocketAddress>,
}

/// A text that is no URL.
#[derive(Clone, Debug)]
pub struct UrlParseError {
    pub url: String,
}

/// Why an entry of a descriptor is not in the tracker list.
#[derive(Clone, Copy, Debug, PartialEq, Eq, Structural)]
pub enum SkipReason {
    /// The text is no URL.
    Malformed,
    /// A tracker with the same URL text is already in the list.
    Duplicate,
}

/// An entry that was left out of the tracker list.
#[derive(Clone, Debug)]
pub struct SkippedTracker {
    pub url: String,
    pub reason: SkipReason,
}

/// The trackers of a descriptor, in the order in which they are to be
/// tried, and the entries that were left out.
#[derive(Debug)]
pub struct TrackerList {
    pub trackers: Vec<Tracker>,
    pub skipped: Vec<SkippedTracker>,
}

/// A tracker as the contracts see it.
pub struct TrackerView {
    pub url: Seq<char>,
    pub protocol: TrackerProtocol,
    pub socket_adr: Option<SocketAddress>,
}

/// A skipped entry as the contracts see it.
pub struct SkippedView {
    pub url: Seq<char>,
    pub reason: SkipReason,
}

/// A tracker list as the contracts see it.
pub struct TrackerListView {
    pub trackers: Seq<TrackerView>,
    pub skipped: Seq<SkippedView>,
}

impl View for Tracker {
    type V = TrackerView;

    open spec fn view(&self) -> TrackerView {
        TrackerView { url: self.url@, protocol: self.protocol, socket_adr: self.socket_adr }
    }
}

impl View for SkippedTracker {
    type V = SkippedView;

    open spec fn view(&self) -> SkippedView {
        SkippedView { url: self.url@, reason: self.reason }
    }
}

impl View for TrackerList {
    type V = TrackerListView;

    open spec fn view(&self) -> TrackerListView {
        TrackerListView {
            trackers: Seq::new(self.trackers@.len(), |i: int| self.trackers@[i]@),
            skipped: Seq::new(self.skipped@.len(), |i: int| self.skipped@[i]@),
        }
    }
}

/// What `Url::parse` makes of a text: the scheme of the URL that it
/// yields, lower-cased and without the colon, or nothing where it rejects
/// the text.
pub uninterp spec fn url_scheme(text: Seq<char>) -> Option<Seq<char>>;

/// `Url::parse`, then `Url::scheme` on the URL parsed: the scheme of
/// `text` as an owned string, `None` where `text` does not parse as an
/// absolute URL.
#[verifier::external_body]
fn parse_scheme(text: &str) -> (scheme: Option<String>)
    ensures
        scheme is None <==> url_scheme(text@) is None,
        scheme matches Some(s) ==> url_scheme(text@) == Some(s@),
{
    Url::parse(text).ok().map(|url| url.scheme().to_string())
}

/// The protocol that a scheme selects: UDP for `udp`, HTTP for every
/// other scheme.
pub open spec fn spec_protocol(scheme: Seq<char>) -> TrackerProtocol {
    if scheme == "udp"@ {
        TrackerProtocol::UDP
    } else {
        TrackerProtocol::HTTP
    }
}

/// The protocol that a scheme selects: UDP for `udp`, HTTP for every
/// other scheme.
pub fn protocol_of_scheme(scheme: &String) -> (protocol: TrackerProtocol)
    ensures
        protocol == spec_protocol(scheme@),
{
    let udp = "udp".to_owned();
    if *scheme == udp {
        TrackerProtocol::UDP
    } else {
        TrackerProtocol::HTTP
    }
}

/// The tracker that a URL text stands for, where it is a URL.
pub open spec fn spec_tracker(url: Seq<char>) -> Option<TrackerView> {
    match url_scheme(url) {
        Some(scheme) => Some(
            TrackerView { url, protocol: spec_protocol(scheme), socket_adr: None },
        ),
        None => None,
    }
}

/// Whether one of `trackers` has the URL text `url`.
pub open spec fn listed(trackers: Seq<TrackerView>, url: Seq<char>) -> bool {
    exists|i: int| 0 <= i < trackers.len() && (#[trigger] trackers[i]).url == url
}

/// The list after one more candidate: a URL text that a listed tracker
/// has already is skipped as a duplicate, a text that is no URL as
/// malformed, and any other joins the trackers at the end.
pub open spec fn spec_offer(list: TrackerListView, url: Seq<char>) -> TrackerListView {
    if listed(list.trackers, url) {
        TrackerListView {
            trackers: list.trackers,
            skipped: list.skipped.push(SkippedView { url, reason: SkipReason::Duplicate }),
        }
    } else {
        match spec_tracker(url) {
            Some(tracker) => TrackerListView {
                trackers: list.trackers.push(tracker),
                skipped: list.skipped,
            },
            None => TrackerListView {
                trackers: list.trackers,
                skipped: list.skipped.push(SkippedView { url, reason: SkipReason::Malformed }),
            },
        }
    }
}

/// The list that a sequence of candidates gives, taken from first to last.
pub open spec fn spec_registry(candidates: Seq<Seq<char>>) -> TrackerListView
    decreases candidates.len(),
{
    if candidates.len() == 0 {
        TrackerListView { trackers: Seq::empty(), skipped: Seq::empty() }
    } else {
        spec_offer(spec_registry(candidates.drop_last()), candidates.last())
    }
}

/// The first URL of each tier that has one, in tier order.
pub open spec fn spec_tier_heads(tiers: Seq<Seq<Seq<char>>>) -> Seq<Seq<char>>
    decreases tiers.len(),
{
    if tiers.len() == 0 {
        Seq::empty()
    } else if tiers.last().len() == 0 {
        spec_tier_heads(tiers.drop_last())
    } else {
        spec_tier_heads(tiers.drop_last()).push(tiers.last()[0])
    }
}

/// The candidates of a descriptor: the primary URL, then the first URL of
/// each backup tier.
pub open spec fn spec_candidates(primary: Seq<char>, tiers: Seq<Seq<Seq<char>>>) -> Seq<
    Seq<char>,
> {
    seq![primary] + spec_tier_heads(tiers)
}

impl Tracker {
    /// The tracker for a URL text, or the text back where it is no URL.
    pub fn new(url: &String) -> (result: Result<Tracker, UrlParseError>)
        ensures
            spec_tracker(url@) matches Some(tracker) ==> (result matches Ok(t) && t@ == tracker),
            spec_tracker(url@) is None ==> (result matches Err(e) && e.url@ == url@),
    {
        match parse_scheme(url.as_str()) {
            Some(scheme) => Ok(
                Tracker {
                    url: url.clone(),
                    protocol: protocol_of_scheme(&scheme),
                    socket_adr: None,
                },
            ),
            None => Err(UrlParseError { url: url.clone() }),
        }
    }

    /// The trackers that a descriptor names: its primary URL first, then
    /// the first URL of each backup tier, in tier order. A tier without a
    /// URL adds nothing. A text that is no URL, or that a tracker in the
    /// list has already, is left out and reported with its reason; the
    /// rest of the list is built all the same.
    pub fn getTrackers(announce: &String, announce_list: &Vec<Vec<String>>) -> (list: TrackerList)
        ensures
            list@ == spec_registry(spec_candidates(announce@, tiers_view(announce_list@))),
    {
        let mut list = TrackerList { trackers: Vec::new(), skipped: Vec::new() };
        assert(list@ =~= spec_registry(Seq::<Seq<char>>::empty())) by {
            assert(list@.trackers =~= Seq::<TrackerView>::empty());
            assert(list@.skipped =~= Seq::<SkippedView>::empty());
        }
        list.offer(announce, Ghost(Seq::<Seq<char>>::empty()));
        let ghost tiers = tiers_view(announce_list@);
        assert(seq![announce@] =~= Seq::<Seq<char>>::empty().push(announce@));
        assert(tiers.take(0) =~= Seq::<Seq<Seq<char>>>::empty());
        let mut i: usize = 0;
        while i < announce_list.len()
            invariant
                i <= announce_list.len(),
                tiers == tiers_view(announce_list@),
                list@ == spec_registry(seq![announce@] + spec_tier_heads(tiers.take(i as int))),
            decreases announce_list.len() - i,
        {
            let tier = &announce_list[i];
            proof {
                let next = tiers.take(i + 1);
                assert(next.drop_last() =~= tiers.take(i as int));
                assert(next.last() == tiers[i as int]);
                assert(tiers[i as int].len() == tier@.len());
            }
            if tier.len() > 0 {
                let ghost before = seq![announce@] + spec_tier_heads(tiers.take(i as int));
                assert(tiers[i as int][0] == tier@[0]@);
                list.offer(&tier[0], Ghost(before));
                assert(before.push(tier@[0]@) =~= seq![announce@] + spec_tier_heads(
                    tiers.take(i + 1),
                ));
            }
            i += 1;
        }
        assert(tiers.take(i as int) =~= tiers);
        list
    }
}

impl TrackerList {
    /// Whether a tracker in the list has the URL text `url`.
    pub fn contains_url(&self, url: &String) -> (found: bool)
        ensures
            found == listed(self@.trackers, url@),
    {
        let mut i: usize = 0;
        while i < self.trackers.len()
            invariant
                i <= self.trackers.len(),
                forall|j: int| 0 <= j < i ==> self.trackers@[j].url@ != url@,
            decreases self.trackers.len() - i,
        {
            if self.trackers[i].url == *url {
                assert(self@.trackers[i as int].url == url@);
                return true;
            }
            i += 1;
        }
        false
    }

    /// Takes one more candidate into the list.
    fn offer(&mut self, url: &String, Ghost(seen): Ghost<Seq<Seq<char>>>)
        requires
            old(self)@ == spec_registry(seen),
        ensures
            final(self)@ == spec_registry(seen.push(url@)),
    {
        assert(seen.push(url@).drop_last() =~= seen);
        let ghost before = self@;
        if self.contains_url(url) {
            self.skipped.push(SkippedTracker { url: url.clone(), reason: SkipReason::Duplicate });
            assert(self@.trackers =~= before.trackers);
            assert(self@.skipped =~= before.skipped.push(
                SkippedView { url: url@, reason: SkipReason::Duplicate },
            ));
        } else {
            match Tracker::new(url) {
                Ok(tracker) => {
                    self.trackers.push(tracker);
                    assert(self@.trackers =~= before.trackers.push(tracker@));
                    assert(self@.skipped =~= before.skipped);
                },
                Err(_) => {
                    self.skipped.push(
                        SkippedTracker { url: url.clone(), reason: SkipReason::Malformed },
                    );
                    assert(self@.trackers =~= before.trackers);
                    assert(self@.skipped =~= before.skipped.push(
                        SkippedView { url: url@, reason: SkipReason::Malformed },
                    ));
                },
            }
        }
    }
}

/// Whether `url` is one of the candidates.
pub open spec fn offered(candidates: Seq<Seq<char>>, url: Seq<char>) -> bool {
    exists|i: int| 0 <= i < candidates.len() && #[trigger] candidates[i] == url
}

/// What holds of every tracker list: each candidate is a tracker or is
/// skipped, no two trackers have the same URL text, every tracker is the
/// tracker that its URL text stands for, and every skipped entry was a
/// candidate that is no URL or whose text a tracker has.
pub proof fn lemma_registry(candidates: Seq<Seq<char>>)
    ensures
        spec_registry(candidates).trackers.len() + spec_registry(candidates).skipped.len()
            == candidates.len(),
        forall|i: int, j: int|
            0 <= i < j < spec_registry(candidates).trackers.len() ==> (
            #[trigger] spec_registry(candidates).trackers[i]).url != (
            #[trigger] spec_registry(candidates).trackers[j]).url,
        forall|i: int|
            0 <= i < spec_registry(candidates).trackers.len() ==> offered(
                candidates,
                (#[trigger] spec_registry(candidates).trackers[i]).url,
            ) && spec_tracker(spec_registry(candidates).trackers[i].url) == Some(
                spec_registry(candidates).trackers[i],
            ),
        forall|i: int|
            0 <= i < spec_registry(candidates).skipped.len() ==> offered(
                candidates,
                (#[trigger] spec_registry(candidates).skipped[i]).url,
            ) && match spec_registry(candidates).skipped[i].reason {
                SkipReason::Malformed => url_scheme(spec_registry(candidates).skipped[i].url)
                    is None,
                SkipReason::Duplicate => listed(
                    spec_registry(candidates).trackers,
                    spec_registry(candidates).skipped[i].url,
                ),
            },
    decreases candidates.len(),
{
    if candidates.len() > 0 {
        let before = candidates.drop_last();
        let url = candidates.last();
        let list = spec_registry(before);
        let next = spec_registry(candidates);
        lemma_registry(before);
        assert(next == spec_offer(list, url));
        assert forall|u: Seq<char>| offered(before, u) implies offered(candidates, u) by {
            let i = choose|i: int| 0 <= i < before.len() && before[i] == u;
            assert(candidates[i] == u);
        }
        assert(candidates[candidates.len() - 1] == url);
        assert(offered(candidates, url));
        assert forall|i: int| 0 <= i < next.skipped.len() implies offered(
            candidates,
            (#[trigger] next.skipped[i]).url,
        ) && match next.skipped[i].reason {
            SkipReason::Malformed => url_scheme(next.skipped[i].url) is None,
            SkipReason::Duplicate => listed(next.trackers, next.skipped[i].url),
        } by {
            if i < list.skipped.len() {
                assert(next.skipped[i] == list.skipped[i]);
                assert(offered(before, list.skipped[i].url));
                if list.skipped[i].reason == SkipReason::Duplicate {
                    let k = choose|k: int|
                        0 <= k < list.trackers.len() && (#[trigger] list.trackers[k]).url
                            == list.skipped[i].url;
                    assert(next.trackers[k] == list.trackers[k]);
                }
            } else if listed(list.trackers, url) {
                let k = choose|k: int|
                    0 <= k < list.trackers.len() && (#[trigger] list.trackers[k]).url == url;
                assert(next.trackers[k] == list.trackers[k]);
            }
        }
        assert forall|i: int| 0 <= i < next.trackers.len() implies offered(
            candidates,
            (#[trigger] next.trackers[i]).url,
        ) && spec_tracker(next.trackers[i].url) == Some(next.trackers[i]) by {
            if i < list.trackers.len() {
                assert(next.trackers[i] == list.trackers[i]);
                assert(offered(before, list.trackers[i].url));
            }
        }
        assert forall|i: int, j: int| 0 <= i < j < next.trackers.len() implies (
        #[trigger] next.trackers[i]).url != (#[trigger] next.trackers[j]).url by {
            if j < list.trackers.len() {
                assert(next.trackers[i] == list.trackers[i]);
                assert(next.trackers[j] == list.trackers[j]);
            } else {
                assert(next.trackers[i] == list.trackers[i]);
                assert(!listed(list.trackers, url));
            }
        }
    }
}

/// The primary URL comes first: where it is a URL, it is the first
/// tracker of the list.
pub proof fn lemma_primary_first(primary: Seq<char>, tiers: Seq<Seq<Seq<char>>>)
    requires
        url_scheme(primary) is Some,
    ensures
        spec_registry(spec_candidates(primary, tiers)).trackers.len() >= 1,
        spec_registry(spec_candidates(primary, tiers)).trackers[0] == spec_tracker(primary)->0,
{
    lemma_first_candidate(spec_candidates(primary, tiers));
}

/// A first candidate that is a URL is the first tracker.
proof fn lemma_first_candidate(candidates: Seq<Seq<char>>)
    requires
        candidates.len() >= 1,
        url_scheme(candidates[0]) is Some,
    ensures
        spec_registry(candidates).trackers.len() >= 1,
        spec_registry(candidates).trackers[0] == spec_tracker(candidates[0])->0,
    decreases candidates.len(),
{
    let before = candidates.drop_last();
    assert(spec_registry(candidates) == spec_offer(spec_registry(before), candidates.last()));
    if candidates.len() == 1 {
        assert(spec_registry(before).trackers.len() == 0);
        assert(!listed(spec_registry(before).trackers, candidates[0]));
    } else {
        assert(before[0] == candidates[0]);
        lemma_first_candidate(before);
    }
}

} // verus!
