use hyperblow::tracker::{protocol_of_scheme, SkipReason, Tracker, TrackerProtocol};

fn s(text: &str) -> String {
    text.to_string()
}

#[test]
fn tracker_classification() {
    let list = Tracker::getTrackers(
        &s("udp://a.example:80/announce"),
        &vec![vec![s("udp://a.example:80/announce")], vec![s("http://b.example/ann")]],
    );
    assert_eq!(list.trackers.len(), 2);
    assert_eq!(list.trackers[0].url, "udp://a.example:80/announce");
    assert_eq!(list.trackers[0].protocol, TrackerProtocol::UDP);
    assert!(list.trackers[0].socket_adr.is_none());
    assert_eq!(list.trackers[1].url, "http://b.example/ann");
    assert_eq!(list.trackers[1].protocol, TrackerProtocol::HTTP);
    assert_eq!(list.skipped.len(), 1);
    assert_eq!(list.skipped[0].url, "udp://a.example:80/announce");
    assert_eq!(list.skipped[0].reason, SkipReason::Duplicate);
}

#[test]
fn malformed_entry_is_skipped_and_the_rest_is_built() {
    let list = Tracker::getTrackers(
        &s("not a url"),
        &vec![
            vec![s("https://c.example/announce"), s("udp://never.example:1")],
            vec![],
            vec![s("://broken")],
            vec![s("udp://d.example:6969")],
        ],
    );
    let urls: Vec<&str> = list.trackers.iter().map(|t| t.url.as_str()).collect();
    assert_eq!(urls, vec!["https://c.example/announce", "udp://d.example:6969"]);
    assert_eq!(list.trackers[0].protocol, TrackerProtocol::HTTP);
    assert_eq!(list.trackers[1].protocol, TrackerProtocol::UDP);
    let skipped: Vec<(&str, SkipReason)> =
        list.skipped.iter().map(|k| (k.url.as_str(), k.reason)).collect();
    assert_eq!(
        skipped,
        vec![("not a url", SkipReason::Malformed), ("://broken", SkipReason::Malformed)]
    );
}

#[test]
fn only_the_first_url_of_a_tier_is_taken() {
    let list = Tracker::getTrackers(
        &s("http://p.example/"),
        &vec![vec![s("udp://one.example:1"), s("udp://two.example:2")]],
    );
    let urls: Vec<&str> = list.trackers.iter().map(|t| t.url.as_str()).collect();
    assert_eq!(urls, vec!["http://p.example/", "udp://one.example:1"]);
    assert!(list.skipped.is_empty());
}

#[test]
fn new_tells_urls_from_other_text() {
    let udp = Tracker::new(&s("udp://a.example:80/announce")).expect("a URL");
    assert_eq!(udp.protocol, TrackerProtocol::UDP);
    assert_eq!(udp.url, "udp://a.example:80/announce");
    let upper = Tracker::new(&s("UDP://a.example:80/announce")).expect("a URL");
    assert_eq!(upper.protocol, TrackerProtocol::UDP);
    let other = Tracker::new(&s("wss://a.example/announce")).expect("a URL");
    assert_eq!(other.protocol, TrackerProtocol::HTTP);
    let error = Tracker::new(&s("tracker.example/announce")).expect_err("no scheme");
    assert_eq!(error.url, "tracker.example/announce");
    assert!(Tracker::new(&s("")).is_err());
}

#[test]
fn scheme_selects_the_protocol() {
    assert_eq!(protocol_of_scheme(&s("udp")), TrackerProtocol::UDP);
    assert_eq!(protocol_of_scheme(&s("http")), TrackerProtocol::HTTP);
    assert_eq!(protocol_of_scheme(&s("https")), TrackerProtocol::HTTP);
    assert_eq!(protocol_of_scheme(&s("udp4")), TrackerProtocol::HTTP);
    assert_eq!(protocol_of_scheme(&s("")), TrackerProtocol::HTTP);
}
