use url::Url;
use vstd::prelude::*;

use crate::text::str_eq;
use crate::tracker::TrackerError;

verus! {

/// The scheme that the `url` crate reads from a text, lower-cased and
/// without the `:`; `None` where the text is no absolute URL.
pub uninterp spec fn spec_url_scheme(text: Seq<char>) -> Option<Seq<char>>;

/// The text that the `url` crate writes a URL back as; `None` where the
/// text is no absolute URL.
pub uninterp spec fn spec_url_text(text: Seq<char>) -> Option<Seq<char>>;

/// Calls `Url::parse` and `Url::scheme` of the `url` crate. Trusted: what
/// comes back depends on the text alone.
#[verifier::external_body]
pub(crate) fn url_scheme(text: &str) -> (r: Option<String>)
    ensures
        match r {
            Some(scheme) => spec_url_scheme(text@) == Some(scheme@),
            None => spec_url_scheme(text@) is None,
        },
{
    match Url::parse(text) {
        Ok(url) => Some(url.scheme().to_string()),
        Err(_) => None,
    }
}

/// Calls `Url::parse` and `Url::as_str` of the `url` crate. Trusted: what
/// comes back depends on the text alone.
#[verifier::external_body]
pub(crate) fn url_text(text: &str) -> (r: Option<String>)
    ensures
        match r {
            Some(serialization) => spec_url_text(text@) == Some(serialization@),
            None => spec_url_text(text@) is None,
        },
{
    match Url::parse(text) {
        Ok(url) => Some(url.as_str().to_string()),
        Err(_) => None,
    }
}

/// How a tracker is spoken to.
#[derive(Clone, Copy, Debug, PartialEq, Eq, Structural)]
pub enum UrlProtocol {
    UDP,
    HTTP,
}

/// A tracker: its URL as the `url` crate writes it, and its protocol.
#[derive(Debug)]
pub struct Tracker {
    pub url: String,
    pub protocol: UrlProtocol,
}

/// The mathematical content of a [`Tracker`].
pub struct TrackerView {
    pub url: Seq<char>,
    pub protocol: UrlProtocol,
}

impl View for Tracker {
    type V = TrackerView;

    open spec fn view(&self) -> TrackerView {
        TrackerView { url: self.url@, protocol: self.protocol }
    }
}

/// The protocol that a scheme stands for: HTTP for `http` and `https`, UDP
/// for `udp`, none for any other.
pub open spec fn spec_protocol(scheme: Seq<char>) -> Option<UrlProtocol> {
    if scheme == "http"@ || scheme == "https"@ {
        Some(UrlProtocol::HTTP)
    } else if scheme == "udp"@ {
        Some(UrlProtocol::UDP)
    } else {
        None
    }
}

/// The protocol that `scheme` stands for.
pub fn protocol_of_scheme(scheme: &str) -> (r: Option<UrlProtocol>)
    ensures
        r == spec_protocol(scheme@),
{
    if str_eq(scheme, "http") || str_eq(scheme, "https") {
        Some(UrlProtocol::HTTP)
    } else if str_eq(scheme, "udp") {
        Some(UrlProtocol::UDP)
    } else {
        None
    }
}

/// The tracker that a URL text names, or why it names none.
pub open spec fn tracker_of(text: Seq<char>) -> Result<TrackerView, TrackerError> {
    match spec_url_scheme(text) {
        None => Err(TrackerError::InvalidUrl),
        Some(scheme) => match spec_protocol(scheme) {
            None => Err(TrackerError::UnknownTrackerProtocol),
            Some(protocol) => match spec_url_text(text) {
                Some(url) => Ok(TrackerView { url, protocol }),
                None => Err(TrackerError::InvalidUrl),
            },
        },
    }
}

impl Tracker {
    /// The tracker at `url`. The text must be an absolute URL whose scheme
    /// is `http`, `https` or `udp`.
    pub fn new(url: &str) -> (r: Result<Self, TrackerError>)
        ensures
            match tracker_of(url@) {
                Ok(tracker) => r matches Ok(t) && t@ == tracker,
                Err(e) => r matches Err(err) && err == e,
            },
    {
        let scheme = match url_scheme(url) {
            Some(s) => s,
            None => {
                return Err(TrackerError::InvalidUrl);
            },
        };
        let protocol = match protocol_of_scheme(scheme.as_str()) {
            Some(p) => p,
            None => {
                return Err(TrackerError::UnknownTrackerProtocol);
            },
        };
        match url_text(url) {
            Some(url) => Ok(Self { url, protocol }),
            None => Err(TrackerError::InvalidUrl),
        }
    }
}

/// The URLs of the tiers of an announce list, tier after tier.
pub open spec fn flat_urls(tiers: Seq<Seq<Seq<char>>>) -> Seq<Seq<char>>
    decreases tiers.len(),
{
    if tiers.len() == 0 {
        Seq::empty()
    } else {
        flat_urls(tiers.drop_last()) + tiers.last()
    }
}

/// The trackers that the texts name, in order, without the texts that name
/// none.
pub open spec fn trackers_of(urls: Seq<Seq<char>>) -> Seq<TrackerView>
    decreases urls.len(),
{
    if urls.len() == 0 {
        Seq::empty()
    } else {
        match tracker_of(urls.last()) {
            Ok(tracker) => trackers_of(urls.drop_last()).push(tracker),
            Err(_) => trackers_of(urls.drop_last()),
        }
    }
}

/// The views of a list of trackers.
pub open spec fn trackers_view(trackers: Seq<Tracker>) -> Seq<TrackerView> {
    Seq::new(trackers.len(), |i: int| trackers[i]@)
}

/// Adds the tracker that `url` names to `list`, if it names one.
fn push_tracker(list: &mut Vec<Tracker>, url: &str, Ghost(urls): Ghost<Seq<Seq<char>>>)
    requires
        trackers_view(old(list)@) == trackers_of(urls),
    ensures
        trackers_view(final(list)@) == trackers_of(urls.push(url@)),
{
    assert(urls.push(url@).drop_last() =~= urls);
    match Tracker::new(url) {
        Ok(tracker) => {
            let ghost before = list@;
            list.push(tracker);
            assert(trackers_view(list@) =~= trackers_view(before).push(tracker@));
        },
        Err(_) => {},
    }
}

/// The trackers of a torrent: those of the announce list, tier after tier,
/// and the primary one last. A URL that does not parse, or whose scheme is
/// none of `http`, `https` and `udp`, is left out.
pub fn get_tracker_list(announce: String, announce_list: Vec<Vec<String>>) -> (r: Vec<Tracker>)
    ensures
        trackers_view(r@) == trackers_of(
            flat_urls(crate::util::tiers_view(announce_list@)).push(announce@),
        ),
{
    let ghost tiers = crate::util::tiers_view(announce_list@);
    let mut vec: Vec<Tracker> = Vec::new();
    let mut i: usize = 0;
    assert(tiers.subrange(0, 0) =~= Seq::<Seq<Seq<char>>>::empty());
    assert(trackers_view(vec@) =~= trackers_of(flat_urls(tiers.subrange(0, 0))));
    while i < announce_list.len()
        invariant
            i <= announce_list.len(),
            tiers == crate::util::tiers_view(announce_list@),
            trackers_view(vec@) == trackers_of(flat_urls(tiers.subrange(0, i as int))),
        decreases announce_list.len() - i,
    {
        let tier = &announce_list[i];
        let ghost done = flat_urls(tiers.subrange(0, i as int));
        let mut j: usize = 0;
        assert(done + tiers[i as int].subrange(0, 0) =~= done);
        while j < tier.len()
            invariant
                j <= tier.len(),
                i < announce_list.len(),
                tier == &announce_list@[i as int],
                tiers == crate::util::tiers_view(announce_list@),
                done == flat_urls(tiers.subrange(0, i as int)),
                trackers_view(vec@) == trackers_of(done + tiers[i as int].subrange(0, j as int)),
            decreases tier.len() - j,
        {
            let ghost urls = done + tiers[i as int].subrange(0, j as int);
            push_tracker(&mut vec, tier[j].as_str(), Ghost(urls));
            assert(urls.push(tier@[j as int]@) =~= done + tiers[i as int].subrange(0, j + 1));
            j = j + 1;
        }
        assert(tiers[i as int].subrange(0, tier.len() as int) =~= tiers[i as int]);
        assert(tiers.subrange(0, i + 1).drop_last() =~= tiers.subrange(0, i as int));
        assert(tiers.subrange(0, i + 1).last() == tiers[i as int]);
        i = i + 1;
    }
    assert(tiers.subrange(0, tiers.len() as int) =~= tiers);
    push_tracker(&mut vec, announce.as_str(), Ghost(flat_urls(tiers)));
    vec
}

} // verus!
