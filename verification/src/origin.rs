//! Why a task woke the capsule, and how far its content is trusted.
//!
//! An origin is set by whoever enqueued the task. A trust class is derived from that origin and,
//! for the two origins that cross a capsule boundary, from the trust of the sending capsule's own
//! current task. No sender declares its trust class.

use crate::text;
use vstd::prelude::*;

verus! {

/// Header carrying the sending runtime's origin claim on an inter-capsule request.
pub const PEER_ORIGIN_HEADER: &'static str = "x-murmur-task-origin";

/// Header carrying the trust class of the sending capsule's own current task.
pub const PEER_TRUST_HEADER: &'static str = "x-murmur-task-trust";

/// Why the runtime woke the capsule.
#[derive(Debug, Clone, Copy, PartialEq, Eq, Structural)]
pub enum TaskOrigin {
    /// A person handed the capsule an instruction.
    User,
    /// A message from another capsule, carrying that capsule's own trust class.
    Peer,
    /// A timer fired.
    Schedule,
    /// A webhook, chat message or PR comment: third-party text, so never trusted.
    Event,
    /// A sub-capsule or detached shell reporting that its work finished.
    Completion,
    /// The runtime enqueued this for itself.
    System,
}

impl TaskOrigin {
    /// The wire spelling.
    pub open spec fn word(self) -> Seq<char> {
        match self {
            TaskOrigin::User => "user"@,
            TaskOrigin::Peer => "peer"@,
            TaskOrigin::Schedule => "schedule"@,
            TaskOrigin::Event => "event"@,
            TaskOrigin::Completion => "completion"@,
            TaskOrigin::System => "system"@,
        }
    }

    /// The origin a wire spelling names.
    pub open spec fn named(word: Seq<char>) -> Option<TaskOrigin> {
        if word == "user"@ {
            Some(TaskOrigin::User)
        } else if word == "peer"@ {
            Some(TaskOrigin::Peer)
        } else if word == "schedule"@ {
            Some(TaskOrigin::Schedule)
        } else if word == "event"@ {
            Some(TaskOrigin::Event)
        } else if word == "completion"@ {
            Some(TaskOrigin::Completion)
        } else if word == "system"@ {
            Some(TaskOrigin::System)
        } else {
            None
        }
    }

    /// The lower-case wire spelling, as it appears in a header value and in a trace record.
    pub fn as_str(&self) -> (r: &'static str)
        ensures
            r@ == self.word(),
            self is User ==> r@ == "user"@,
            self is Peer ==> r@ == "peer"@,
            self is Schedule ==> r@ == "schedule"@,
            self is Event ==> r@ == "event"@,
            self is Completion ==> r@ == "completion"@,
            self is System ==> r@ == "system"@,
    {
        match self {
            TaskOrigin::User => "user",
            TaskOrigin::Peer => "peer",
            TaskOrigin::Schedule => "schedule",
            TaskOrigin::Event => "event",
            TaskOrigin::Completion => "completion",
            TaskOrigin::System => "system",
        }
    }

    /// The origin with exactly this wire spelling: no aliases and no case folding.
    pub fn parse(value: &str) -> (r: Option<Self>)
        ensures
            r == TaskOrigin::named(value@),
            r == Some(TaskOrigin::User) <==> value@ == "user"@,
            r == Some(TaskOrigin::Peer) <==> value@ == "peer"@,
            r == Some(TaskOrigin::Schedule) <==> value@ == "schedule"@,
            r == Some(TaskOrigin::Event) <==> value@ == "event"@,
            r == Some(TaskOrigin::Completion) <==> value@ == "completion"@,
            r == Some(TaskOrigin::System) <==> value@ == "system"@,
    {
        proof {
            origins_round_trip(TaskOrigin::User);
            origins_round_trip(TaskOrigin::Peer);
            origins_round_trip(TaskOrigin::Schedule);
            origins_round_trip(TaskOrigin::Event);
            origins_round_trip(TaskOrigin::Completion);
            origins_round_trip(TaskOrigin::System);
        }
        if text::same(value, "user") {
            Some(TaskOrigin::User)
        } else if text::same(value, "peer") {
            Some(TaskOrigin::Peer)
        } else if text::same(value, "schedule") {
            Some(TaskOrigin::Schedule)
        } else if text::same(value, "event") {
            Some(TaskOrigin::Event)
        } else if text::same(value, "completion") {
            Some(TaskOrigin::Completion)
        } else if text::same(value, "system") {
            Some(TaskOrigin::System)
        } else {
            None
        }
    }
}

/// How far the content of a task is trusted.
#[derive(Debug, Clone, Copy, PartialEq, Eq, Structural)]
pub enum TrustClass {
    Trusted,
    Untrusted,
}

impl TrustClass {
    /// The wire spelling.
    pub open spec fn word(self) -> Seq<char> {
        match self {
            TrustClass::Trusted => "trusted"@,
            TrustClass::Untrusted => "untrusted"@,
        }
    }

    /// The trust class a wire spelling names.
    pub open spec fn named(word: Seq<char>) -> Option<TrustClass> {
        if word == "trusted"@ {
            Some(TrustClass::Trusted)
        } else if word == "untrusted"@ {
            Some(TrustClass::Untrusted)
        } else {
            None
        }
    }

    /// The lower-case wire spelling.
    pub fn as_str(&self) -> (r: &'static str)
        ensures
            r@ == self.word(),
            self is Trusted ==> r@ == "trusted"@,
            self is Untrusted ==> r@ == "untrusted"@,
    {
        match self {
            TrustClass::Trusted => "trusted",
            TrustClass::Untrusted => "untrusted",
        }
    }

    /// The trust class with exactly this wire spelling.
    pub fn parse(value: &str) -> (r: Option<Self>)
        ensures
            r == TrustClass::named(value@),
            r == Some(TrustClass::Trusted) <==> value@ == "trusted"@,
            r == Some(TrustClass::Untrusted) <==> value@ == "untrusted"@,
    {
        proof {
            trust_round_trips(TrustClass::Trusted);
            trust_round_trips(TrustClass::Untrusted);
        }
        if text::same(value, "trusted") {
            Some(TrustClass::Trusted)
        } else if text::same(value, "untrusted") {
            Some(TrustClass::Untrusted)
        } else {
            None
        }
    }
}

/// The trust class that follows from an origin and from what the sender's own task was given.
pub open spec fn derived_trust(origin: TaskOrigin, inherited: Option<TrustClass>) -> TrustClass {
    match origin {
        TaskOrigin::User | TaskOrigin::Schedule | TaskOrigin::System => TrustClass::Trusted,
        TaskOrigin::Event => TrustClass::Untrusted,
        TaskOrigin::Peer | TaskOrigin::Completion => match inherited {
            Some(trust) => trust,
            None => TrustClass::Untrusted,
        },
    }
}

/// An origin paired with the trust class derived from it. Both fields are private and the only
/// constructor is [`TaskProvenance::derive`].
#[derive(Debug, Clone, Copy, PartialEq, Eq, Structural)]
pub struct TaskProvenance {
    origin: TaskOrigin,
    trust: TrustClass,
}

impl TaskProvenance {
    /// The origin, for contracts.
    pub closed spec fn spec_origin(self) -> TaskOrigin {
        self.origin
    }

    /// The trust class, for contracts.
    pub closed spec fn spec_trust(self) -> TrustClass {
        self.trust
    }

    /// The trust class of every provenance follows from its origin.
    #[verifier::type_invariant]
    spec fn follows(self) -> bool {
        exists|inherited: Option<TrustClass>| self.trust == #[trigger]
            derived_trust(self.origin, inherited)
    }

    /// Derives the trust class for `origin`. `inherited` is the trust of the sending capsule's own
    /// current task, and counts only for the two origins that cross a capsule boundary; an absent
    /// claim is not a trusted one.
    pub fn derive(origin: TaskOrigin, inherited: Option<TrustClass>) -> (r: Self)
        ensures
            r.spec_origin() == origin,
            r.spec_trust() == derived_trust(origin, inherited),
            origin is User || origin is Schedule || origin is System ==> r.spec_trust() is Trusted,
            origin is Event ==> r.spec_trust() is Untrusted,
            (origin is Peer || origin is Completion) && inherited is None ==> r.spec_trust()
                is Untrusted,
            (origin is Peer || origin is Completion) && inherited is Some ==> r.spec_trust()
                == inherited->0,
    {
        let trust = match origin {
            TaskOrigin::User | TaskOrigin::Schedule | TaskOrigin::System => TrustClass::Trusted,
            TaskOrigin::Event => TrustClass::Untrusted,
            TaskOrigin::Peer | TaskOrigin::Completion => match inherited {
                Some(trust) => trust,
                None => TrustClass::Untrusted,
            },
        };
        proof {
            assert(trust == derived_trust(origin, inherited));
        }
        TaskProvenance { origin, trust }
    }

    /// Why the task woke the capsule.
    pub fn origin(&self) -> (r: TaskOrigin)
        ensures
            r == self.spec_origin(),
    {
        self.origin
    }

    /// How far the task is trusted. A task that crossed no capsule boundary has the class its
    /// origin alone gives it.
    pub fn trust(&self) -> (r: TrustClass)
        ensures
            r == self.spec_trust(),
            exists|inherited: Option<TrustClass>|
                r == #[trigger] derived_trust(self.spec_origin(), inherited),
    {
        proof {
            use_type_invariant(self);
        }
        self.trust
    }
}

/// The origin a task arriving over the peer door gets: what it claims, when that is one of the two
/// origins that cross a capsule boundary, else an event.
pub open spec fn wire_origin(origin_header: Option<Seq<char>>) -> TaskOrigin {
    match origin_header {
        Some(word) => match TaskOrigin::named(word) {
            Some(TaskOrigin::Peer) => TaskOrigin::Peer,
            Some(TaskOrigin::Completion) => TaskOrigin::Completion,
            _ => TaskOrigin::Event,
        },
        None => TaskOrigin::Event,
    }
}

/// The trust class a trust header claims.
pub open spec fn wire_trust(trust_header: Option<Seq<char>>) -> Option<TrustClass> {
    match trust_header {
        Some(word) => TrustClass::named(word),
        None => None,
    }
}

/// Classifies a task arriving over the peer door from the two request headers. Only `peer` and
/// `completion` are accepted from the wire; every other claim is an untrusted event, and its trust
/// header is not read.
pub fn from_wire(origin_header: Option<&str>, trust_header: Option<&str>) -> (r: TaskProvenance)
    ensures
        r.spec_origin() == wire_origin(text::opt_str(origin_header)),
        r.spec_trust() == derived_trust(
            wire_origin(text::opt_str(origin_header)),
            wire_trust(text::opt_str(trust_header)),
        ),
        r.spec_origin() is Peer <==> origin_header is Some && origin_header->0@ == "peer"@,
        r.spec_origin() is Completion <==> origin_header is Some && origin_header->0@
            == "completion"@,
        r.spec_origin() is Peer || r.spec_origin() is Completion || r.spec_origin() is Event,
        r.spec_trust() is Trusted <==> !(r.spec_origin() is Event) && trust_header is Some
            && trust_header->0@ == "trusted"@,
{
    let origin = match origin_header {
        Some(value) => TaskOrigin::parse(value),
        None => None,
    };
    let claimed = match trust_header {
        Some(value) => TrustClass::parse(value),
        None => None,
    };
    match origin {
        Some(TaskOrigin::Peer) => TaskProvenance::derive(TaskOrigin::Peer, claimed),
        Some(TaskOrigin::Completion) => TaskProvenance::derive(TaskOrigin::Completion, claimed),
        _ => TaskProvenance::derive(TaskOrigin::Event, None),
    }
}

/// The provenance a runtime stamps on an outbound peer message, given its own current task: always
/// `peer`, with the sending task's own trust class, and untrusted when no task is in scope.
pub fn stamp_for_peer(sender_task: Option<TaskProvenance>) -> (r: TaskProvenance)
    ensures
        r.spec_origin() == TaskOrigin::Peer,
        r.spec_trust() == (match sender_task {
            Some(task) => task.spec_trust(),
            None => TrustClass::Untrusted,
        }),
{
    let inherited = match sender_task {
        Some(task) => Some(task.trust()),
        None => None,
    };
    TaskProvenance::derive(TaskOrigin::Peer, inherited)
}

/// The provenance a runtime stamps on a completion it posts to the capsule that delegated to it:
/// the class of the delegating task, and untrusted when there is none.
pub fn stamp_for_completion(inherited: Option<TrustClass>) -> (r: TaskProvenance)
    ensures
        r.spec_origin() == TaskOrigin::Completion,
        r.spec_trust() == (match inherited {
            Some(trust) => trust,
            None => TrustClass::Untrusted,
        }),
{
    TaskProvenance::derive(TaskOrigin::Completion, inherited)
}

// ── Laws ─────────────────────────────────────────────────────────────────────

/// Every origin reads back from its own wire spelling.
pub proof fn origins_round_trip(origin: TaskOrigin)
    ensures
        TaskOrigin::named(origin.word()) == Some(origin),
{
    reveal_strlit("user");
    reveal_strlit("peer");
    reveal_strlit("schedule");
    reveal_strlit("event");
    reveal_strlit("completion");
    reveal_strlit("system");
    assert("user"@[0] == 'u' && "peer"@[0] == 'p');
    assert("user"@.len() == 4 && "peer"@.len() == 4 && "schedule"@.len() == 8);
    assert("event"@.len() == 5 && "completion"@.len() == 10 && "system"@.len() == 6);
}

/// Both trust classes read back from their own wire spelling.
pub proof fn trust_round_trips(trust: TrustClass)
    ensures
        TrustClass::named(trust.word()) == Some(trust),
{
    reveal_strlit("trusted");
    reveal_strlit("untrusted");
    assert("trusted"@.len() != "untrusted"@.len());
}

/// Untrust survives a hop: what a runtime stamps on a message it sends is what the receiving
/// runtime reads off the wire.
pub proof fn a_stamp_survives_the_wire(origin: TaskOrigin, trust: TrustClass)
    requires
        origin == TaskOrigin::Peer || origin == TaskOrigin::Completion,
    ensures
        wire_origin(Some(origin.word())) == origin,
        derived_trust(wire_origin(Some(origin.word())), wire_trust(Some(trust.word()))) == trust,
{
    origins_round_trip(origin);
    trust_round_trips(trust);
}

/// No claim made over the wire is trusted unless it names one of the two origins that cross a
/// capsule boundary together with the trusted class.
pub proof fn the_wire_trusts_only_a_full_claim(
    origin_header: Option<Seq<char>>,
    trust_header: Option<Seq<char>>,
)
    ensures
        derived_trust(wire_origin(origin_header), wire_trust(trust_header)) == TrustClass::Trusted
            <==> (origin_header == Some("peer"@) || origin_header == Some("completion"@))
            && trust_header == Some("trusted"@),
{
    origins_round_trip(TaskOrigin::Peer);
    origins_round_trip(TaskOrigin::Completion);
    trust_round_trips(TrustClass::Trusted);
}

} // verus!
