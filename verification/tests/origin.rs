use capsule_runtime::origin::{
    from_wire, stamp_for_completion, stamp_for_peer, TaskOrigin, TaskProvenance, TrustClass,
};

const ALL_ORIGINS: [TaskOrigin; 6] = [
    TaskOrigin::User,
    TaskOrigin::Peer,
    TaskOrigin::Schedule,
    TaskOrigin::Event,
    TaskOrigin::Completion,
    TaskOrigin::System,
];

#[test]
fn origin_round_trips_through_its_wire_spelling() {
    for origin in ALL_ORIGINS {
        assert_eq!(TaskOrigin::parse(origin.as_str()), Some(origin));
    }
    assert_eq!(TaskOrigin::parse("User"), None);
    assert_eq!(TaskOrigin::parse("not-an-origin"), None);
    assert_eq!(TaskOrigin::parse(""), None);
}

#[test]
fn trust_round_trips_through_its_wire_spelling() {
    for trust in [TrustClass::Trusted, TrustClass::Untrusted] {
        assert_eq!(TrustClass::parse(trust.as_str()), Some(trust));
    }
    assert_eq!(TrustClass::parse("Trusted"), None);
    assert_eq!(TrustClass::parse("maybe"), None);
}

/// The full derivation table: six origins crossed with every inherited value.
#[test]
fn derive_covers_every_origin_and_inherited_pair() {
    let cases: [(TaskOrigin, Option<TrustClass>, TrustClass); 18] = [
        (TaskOrigin::User, None, TrustClass::Trusted),
        (
            TaskOrigin::User,
            Some(TrustClass::Trusted),
            TrustClass::Trusted,
        ),
        (
            TaskOrigin::User,
            Some(TrustClass::Untrusted),
            TrustClass::Trusted,
        ),
        (TaskOrigin::Schedule, None, TrustClass::Trusted),
        (
            TaskOrigin::Schedule,
            Some(TrustClass::Trusted),
            TrustClass::Trusted,
        ),
        (
            TaskOrigin::Schedule,
            Some(TrustClass::Untrusted),
            TrustClass::Trusted,
        ),
        (TaskOrigin::System, None, TrustClass::Trusted),
        (
            TaskOrigin::System,
            Some(TrustClass::Trusted),
            TrustClass::Trusted,
        ),
        (
            TaskOrigin::System,
            Some(TrustClass::Untrusted),
            TrustClass::Trusted,
        ),
        (TaskOrigin::Event, None, TrustClass::Untrusted),
        (
            TaskOrigin::Event,
            Some(TrustClass::Trusted),
            TrustClass::Untrusted,
        ),
        (
            TaskOrigin::Event,
            Some(TrustClass::Untrusted),
            TrustClass::Untrusted,
        ),
        (TaskOrigin::Peer, None, TrustClass::Untrusted),
        (
            TaskOrigin::Peer,
            Some(TrustClass::Trusted),
            TrustClass::Trusted,
        ),
        (
            TaskOrigin::Peer,
            Some(TrustClass::Untrusted),
            TrustClass::Untrusted,
        ),
        (TaskOrigin::Completion, None, TrustClass::Untrusted),
        (
            TaskOrigin::Completion,
            Some(TrustClass::Trusted),
            TrustClass::Trusted,
        ),
        (
            TaskOrigin::Completion,
            Some(TrustClass::Untrusted),
            TrustClass::Untrusted,
        ),
    ];
    for (origin, inherited, expected) in cases {
        let provenance = TaskProvenance::derive(origin, inherited);
        assert_eq!(
            provenance.trust(),
            expected,
            "{origin:?} with {inherited:?} should be {expected:?}"
        );
        assert_eq!(provenance.origin(), origin);
    }
}

#[test]
fn wire_accepts_only_peer_and_completion() {
    for accepted in ["peer", "completion"] {
        let provenance = from_wire(Some(accepted), Some("trusted"));
        assert_eq!(provenance.origin(), TaskOrigin::parse(accepted).unwrap());
        assert_eq!(provenance.trust(), TrustClass::Trusted);
    }
}

#[test]
fn wire_refuses_locally_only_and_unrecognised_origins() {
    for refused in ["user", "schedule", "event", "system", "not-an-origin", ""] {
        let provenance = from_wire(Some(refused), Some("trusted"));
        assert_eq!(
            provenance.origin(),
            TaskOrigin::Event,
            "{refused:?} must not be accepted from the wire"
        );
        assert_eq!(provenance.trust(), TrustClass::Untrusted);
    }
}

#[test]
fn wire_without_an_origin_header_is_an_untrusted_event() {
    let provenance = from_wire(None, Some("trusted"));
    assert_eq!(provenance.origin(), TaskOrigin::Event);
    assert_eq!(provenance.trust(), TrustClass::Untrusted);
}

#[test]
fn wire_trust_defaults_to_untrusted_when_absent_or_unparseable() {
    for trust_header in [None, Some("Trusted"), Some("yes"), Some("")] {
        let provenance = from_wire(Some("peer"), trust_header);
        assert_eq!(provenance.origin(), TaskOrigin::Peer);
        assert_eq!(
            provenance.trust(),
            TrustClass::Untrusted,
            "trust header {trust_header:?} must not resolve to trusted"
        );
    }
}

#[test]
fn stamp_for_peer_carries_the_senders_class_and_defaults_untrusted() {
    assert_eq!(stamp_for_peer(None).origin(), TaskOrigin::Peer);
    assert_eq!(stamp_for_peer(None).trust(), TrustClass::Untrusted);
    for (sender, expected) in [
        (TaskOrigin::User, TrustClass::Trusted),
        (TaskOrigin::Event, TrustClass::Untrusted),
    ] {
        let stamped = stamp_for_peer(Some(TaskProvenance::derive(sender, None)));
        assert_eq!(stamped.origin(), TaskOrigin::Peer);
        assert_eq!(stamped.trust(), expected);
    }
}

/// A completion inherits the delegating task's class and decides nothing of its own.
#[test]
fn stamp_for_completion_carries_the_delegating_tasks_class() {
    assert_eq!(stamp_for_completion(None).origin(), TaskOrigin::Completion);
    assert_eq!(stamp_for_completion(None).trust(), TrustClass::Untrusted);
    for trust in [TrustClass::Trusted, TrustClass::Untrusted] {
        let stamped = stamp_for_completion(Some(trust));
        assert_eq!(stamped.origin(), TaskOrigin::Completion);
        assert_eq!(stamped.trust(), trust);
    }
}

#[test]
fn wire_untrusted_peer_stays_untrusted() {
    let provenance = from_wire(Some("peer"), Some("untrusted"));
    assert_eq!(provenance.origin(), TaskOrigin::Peer);
    assert_eq!(provenance.trust(), TrustClass::Untrusted);
}
