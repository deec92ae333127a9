//! Per-guest execution limits: deadlines in epoch ticks and store resource caps.

use crate::text;
use vstd::prelude::*;
use wasmtime::ResourceLimiter;

verus! {

/// How often the engine epoch advances, in milliseconds. Also the granularity of every deadline.
pub const EPOCH_TICK_MS: u64 = 100;

/// Default cap on guest linear-memory growth: 512 MiB.
pub const DEFAULT_MEMORY_BYTES: usize = 536870912;

/// Default cap on guest table growth, in elements.
pub const DEFAULT_TABLE_ELEMENTS: usize = 100_000;

/// Default cap on instances a single store may create.
pub const DEFAULT_INSTANCES: usize = 1_000;

/// Default wall-clock budget for a single guest invocation, in seconds.
pub const DEFAULT_DEADLINE_SECONDS: u64 = 600;

/// A manifest's `capabilities.limits` block.
#[derive(Debug, Clone, Copy, PartialEq, Eq, Structural)]
pub struct ResourceLimits {
    pub memory_bytes: Option<usize>,
    pub table_elements: Option<usize>,
    pub instances: Option<usize>,
    pub deadline_seconds: Option<u64>,
}

/// Fully resolved execution limits for one session's guests.
#[derive(Debug, Clone, Copy, PartialEq, Eq, Structural)]
pub struct ExecutionLimits {
    /// Cap on linear-memory growth, in bytes.
    pub memory_bytes: usize,
    /// Cap on table growth, in elements.
    pub table_elements: usize,
    /// Cap on instances a single store may create.
    pub instances: usize,
    /// Wall-clock budget for a single guest invocation, in seconds.
    pub deadline_seconds: u64,
}

/// The limits of a silent manifest.
pub open spec fn default_limits() -> ExecutionLimits {
    ExecutionLimits {
        memory_bytes: DEFAULT_MEMORY_BYTES,
        table_elements: DEFAULT_TABLE_ELEMENTS,
        instances: DEFAULT_INSTANCES,
        deadline_seconds: DEFAULT_DEADLINE_SECONDS,
    }
}

/// What was declared, else what stands in its place.
pub open spec fn declared_or<T>(declared: Option<T>, fallback: T) -> T {
    match declared {
        Some(v) => v,
        None => fallback,
    }
}

/// The limits of a manifest: the default for each field it left out.
pub open spec fn resolved(declared: Option<ResourceLimits>) -> ExecutionLimits {
    let defaults = default_limits();
    match declared {
        None => defaults,
        Some(d) => ExecutionLimits {
            memory_bytes: declared_or(d.memory_bytes, defaults.memory_bytes),
            table_elements: declared_or(d.table_elements, defaults.table_elements),
            instances: declared_or(d.instances, defaults.instances),
            deadline_seconds: declared_or(d.deadline_seconds, defaults.deadline_seconds),
        },
    }
}

/// A budget of `seconds` in whole epoch ticks, and never none. The budget in milliseconds stops at
/// the largest 64-bit number.
pub open spec fn ticks(seconds: u64) -> int {
    let ms = if seconds * 1000 > u64::MAX {
        u64::MAX as int
    } else {
        seconds * 1000
    };
    if ms / 100 < 1 {
        1
    } else {
        ms / 100
    }
}

impl Default for ExecutionLimits {
    fn default() -> (r: Self)
        ensures
            r == default_limits(),
    {
        ExecutionLimits {
            memory_bytes: DEFAULT_MEMORY_BYTES,
            table_elements: DEFAULT_TABLE_ELEMENTS,
            instances: DEFAULT_INSTANCES,
            deadline_seconds: DEFAULT_DEADLINE_SECONDS,
        }
    }
}

impl ExecutionLimits {
    /// Resolves a manifest's block, substituting the default for each field it left out.
    pub fn resolve(declared: Option<&ResourceLimits>) -> (r: Self)
        ensures
            r == resolved(
                match declared {
                    Some(d) => Some(*d),
                    None => None,
                },
            ),
            r.memory_bytes == (if declared is Some && declared->0.memory_bytes is Some {
                declared->0.memory_bytes->0
            } else {
                536870912
            }),
            r.table_elements == (if declared is Some && declared->0.table_elements is Some {
                declared->0.table_elements->0
            } else {
                100000
            }),
            r.instances == (if declared is Some && declared->0.instances is Some {
                declared->0.instances->0
            } else {
                1000
            }),
            r.deadline_seconds == (if declared is Some && declared->0.deadline_seconds is Some {
                declared->0.deadline_seconds->0
            } else {
                600
            }),
    {
        let d = match declared {
            None => return ExecutionLimits::default(),
            Some(d) => d,
        };
        ExecutionLimits {
            memory_bytes: match d.memory_bytes {
                Some(v) => v,
                None => DEFAULT_MEMORY_BYTES,
            },
            table_elements: match d.table_elements {
                Some(v) => v,
                None => DEFAULT_TABLE_ELEMENTS,
            },
            instances: match d.instances {
                Some(v) => v,
                None => DEFAULT_INSTANCES,
            },
            deadline_seconds: match d.deadline_seconds {
                Some(v) => v,
                None => DEFAULT_DEADLINE_SECONDS,
            },
        }
    }

    /// This budget in epoch ticks: rounded down, but never to zero.
    pub fn deadline_ticks(&self) -> (r: u64)
        ensures
            r == ticks(self.deadline_seconds),
            r >= 1,
            0 < self.deadline_seconds && self.deadline_seconds * 1000 <= u64::MAX ==> r * 100
                == self.deadline_seconds * 1000,
            self.deadline_seconds == 0 ==> r == 1,
            self.deadline_seconds * 1000 > u64::MAX ==> r == u64::MAX / 100,
    {
        let ms: u64 = match self.deadline_seconds.checked_mul(1000) {
            Some(ms) => ms,
            None => u64::MAX,
        };
        let whole: u64 = ms / EPOCH_TICK_MS;
        if whole < 1 {
            1
        } else {
            whole
        }
    }

    /// The limiter that enforces these limits.
    pub fn limiter(&self) -> (r: ExecutionLimiter)
        ensures
            r.limits == *self,
            r.denial is None,
    {
        ExecutionLimiter { limits: *self, denial: None }
    }
}

/// Whether a growth to `desired` stays within the cap and within the guest's own declared maximum.
pub open spec fn within(desired: usize, cap: usize, maximum: Option<usize>) -> bool {
    desired <= cap && match maximum {
        Some(max) => desired <= max,
        None => true,
    }
}

/// Trusted: `wasmtime::StoreLimits::memory_growing`, built without trapping, never fails and allows
/// a growth that stays within the memory cap and within the guest's own maximum.
#[verifier::external_body]
fn memory_allowed(cap: usize, current: usize, desired: usize, maximum: Option<usize>) -> (r: bool)
    ensures
        r == within(desired, cap, maximum),
{
    let mut inner = wasmtime::StoreLimitsBuilder::new()
        .memory_size(cap)
        .trap_on_grow_failure(false)
        .build();
    inner.memory_growing(current, desired, maximum).unwrap_or(false)
}

/// Trusted: `wasmtime::StoreLimits::table_growing`, built without trapping, never fails and allows
/// a growth that stays within the table cap and within the guest's own maximum.
#[verifier::external_body]
fn table_allowed(cap: usize, current: usize, desired: usize, maximum: Option<usize>) -> (r: bool)
    ensures
        r == within(desired, cap, maximum),
{
    let mut inner = wasmtime::StoreLimitsBuilder::new()
        .table_elements(cap)
        .trap_on_grow_failure(false)
        .build();
    inner.table_growing(current, desired, maximum).unwrap_or(false)
}

/// The limiter of one store: it refuses growth past a cap, names the manifest field responsible,
/// and remembers that it did.
#[derive(Debug, PartialEq, Eq)]
pub struct ExecutionLimiter {
    pub limits: ExecutionLimits,
    /// The words of the first growth request this limiter denied.
    pub denial: Option<String>,
}

/// How a denied memory growth reads.
pub open spec fn memory_denial(desired: usize, cap: usize) -> Seq<char> {
    "linear memory growth to "@ + text::decimal(desired as nat)
        + " bytes exceeds capabilities.limits.memory_bytes ("@ + text::decimal(cap as nat) + ")"@
}

/// How a denied table growth reads.
pub open spec fn table_denial(desired: usize, cap: usize) -> Seq<char> {
    "table growth to "@ + text::decimal(desired as nat)
        + " elements exceeds capabilities.limits.table_elements ("@ + text::decimal(cap as nat)
        + ")"@
}

/// Whether a growth request was answered as `allowed`, with the words of the denial recorded when
/// it was not and none was recorded before.
pub open spec fn answered(
    before: ExecutionLimiter,
    after: ExecutionLimiter,
    allowed: bool,
    words: Seq<char>,
    r: Result<bool, String>,
) -> bool {
    &&& after.limits == before.limits
    &&& if allowed {
        r == Ok::<bool, String>(true) && after.denial == before.denial
    } else {
        &&& r is Err
        &&& r->Err_0@ == words
        &&& text::opt_text(after.denial) == match before.denial {
            Some(earlier) => Some(earlier@),
            None => Some(words),
        }
    }
}

impl ExecutionLimiter {
    /// Answers a request to grow linear memory.
    pub fn memory_growing(
        &mut self,
        current: usize,
        desired: usize,
        maximum: Option<usize>,
    ) -> (r: Result<bool, String>)
        ensures
            answered(
                *old(self),
                *final(self),
                within(desired, old(self).limits.memory_bytes, maximum),
                memory_denial(desired, old(self).limits.memory_bytes),
                r,
            ),
            r is Ok <==> desired <= old(self).limits.memory_bytes && (maximum is Some ==> desired
                <= maximum->0),
            r is Ok ==> r->Ok_0 && *final(self) == *old(self),
            final(self).limits == old(self).limits,
            r is Err ==> final(self).denial is Some,
            old(self).denial is Some ==> final(self).denial is Some && final(self).denial->0@
                == old(self).denial->0@,
            r is Err && old(self).denial is None ==> final(self).denial->0@ == r->Err_0@,
            r is Err ==> ("linear memory growth to "@ + text::decimal(desired as nat)).is_prefix_of(
                r->Err_0@,
            ),
            r is Err ==> ("("@ + text::decimal(old(self).limits.memory_bytes as nat)
                + ")"@).is_suffix_of(r->Err_0@),
    {
        proof {
            reveal_strlit("(");
            reveal_strlit(" bytes exceeds capabilities.limits.memory_bytes (");
        }
        if memory_allowed(self.limits.memory_bytes, current, desired, maximum) {
            return Ok(true);
        }
        let message = text::cat5(
            "linear memory growth to ",
            text::decimal_of(desired as u64).as_str(),
            " bytes exceeds capabilities.limits.memory_bytes (",
            text::decimal_of(self.limits.memory_bytes as u64).as_str(),
            ")",
        );
        if self.denial.is_none() {
            self.denial = Some(message.clone());
        }
        Err(message)
    }

    /// Answers a request to grow a table.
    pub fn table_growing(
        &mut self,
        current: usize,
        desired: usize,
        maximum: Option<usize>,
    ) -> (r: Result<bool, String>)
        ensures
            answered(
                *old(self),
                *final(self),
                within(desired, old(self).limits.table_elements, maximum),
                table_denial(desired, old(self).limits.table_elements),
                r,
            ),
            r is Ok <==> desired <= old(self).limits.table_elements && (maximum is Some ==> desired
                <= maximum->0),
            r is Ok ==> r->Ok_0 && *final(self) == *old(self),
            final(self).limits == old(self).limits,
            r is Err ==> final(self).denial is Some,
            old(self).denial is Some ==> final(self).denial is Some && final(self).denial->0@
                == old(self).denial->0@,
            r is Err && old(self).denial is None ==> final(self).denial->0@ == r->Err_0@,
            r is Err ==> ("table growth to "@ + text::decimal(desired as nat)).is_prefix_of(
                r->Err_0@,
            ),
            r is Err ==> ("("@ + text::decimal(old(self).limits.table_elements as nat)
                + ")"@).is_suffix_of(r->Err_0@),
    {
        proof {
            reveal_strlit("(");
            reveal_strlit(" elements exceeds capabilities.limits.table_elements (");
        }
        if table_allowed(self.limits.table_elements, current, desired, maximum) {
            return Ok(true);
        }
        let message = text::cat5(
            "table growth to ",
            text::decimal_of(desired as u64).as_str(),
            " elements exceeds capabilities.limits.table_elements (",
            text::decimal_of(self.limits.table_elements as u64).as_str(),
            ")",
        );
        if self.denial.is_none() {
            self.denial = Some(message.clone());
        }
        Err(message)
    }

    /// The limits this limiter enforces.
    pub fn limits(&self) -> (r: ExecutionLimits)
        ensures
            r == self.limits,
    {
        self.limits
    }

    /// The words of the first growth request this limiter denied.
    pub fn denial(&self) -> (r: Option<&str>)
        ensures
            text::opt_str(r) == text::opt_text(self.denial),
    {
        match &self.denial {
            Some(message) => Some(message.as_str()),
            None => None,
        }
    }
}

/// Why a guest invocation failed.
#[derive(Debug, PartialEq, Eq)]
pub enum GuestFailure {
    /// The guest ran longer than `deadline_seconds`.
    DeadlineExceeded { seconds: u64 },
    /// The store's limiter denied a growth request.
    ResourceLimit { message: String },
    /// Anything else: a guest panic, `unreachable`, a host error.
    Other,
}

/// What a [`GuestFailure`] stands for.
pub enum FailureView {
    DeadlineExceeded { seconds: u64 },
    ResourceLimit { message: Seq<char> },
    Other,
}

impl View for GuestFailure {
    type V = FailureView;

    open spec fn view(&self) -> FailureView {
        match *self {
            GuestFailure::DeadlineExceeded { seconds } => FailureView::DeadlineExceeded { seconds },
            GuestFailure::ResourceLimit { message } => FailureView::ResourceLimit {
                message: message@,
            },
            GuestFailure::Other => FailureView::Other,
        }
    }
}

/// The class of a failure: a recorded denial wins over any trap, an interrupt is the deadline.
pub open spec fn class_of(interrupted: bool, limiter: ExecutionLimiter) -> FailureView {
    match text::opt_text(limiter.denial) {
        Some(message) => FailureView::ResourceLimit { message },
        None => if interrupted {
            FailureView::DeadlineExceeded { seconds: limiter.limits.deadline_seconds }
        } else {
            FailureView::Other
        },
    }
}

/// The class of a failure, given whether it was an interrupt.
pub fn classify(interrupted: bool, limiter: &ExecutionLimiter) -> (r: GuestFailure)
    ensures
        r@ == class_of(interrupted, *limiter),
        r is ResourceLimit <==> limiter.denial is Some,
        r is ResourceLimit ==> r->message@ == limiter.denial->0@,
        r is DeadlineExceeded <==> limiter.denial is None && interrupted,
        r is DeadlineExceeded ==> r->seconds == limiter.limits.deadline_seconds,
{
    match &limiter.denial {
        Some(message) => GuestFailure::ResourceLimit { message: message.clone() },
        None => if interrupted {
            GuestFailure::DeadlineExceeded { seconds: limiter.limits.deadline_seconds }
        } else {
            GuestFailure::Other
        },
    }
}

/// `wasmtime`'s own error type.
#[verifier::external_type_specification]
#[verifier::external_body]
pub struct ExError(wasmtime::Error);

/// Whether an error is the interrupt trap.
pub uninterp spec fn interrupts(error: wasmtime::Error) -> bool;

/// Trusted: whether `wasmtime::Error::downcast_ref` finds the interrupt trap depends on the error
/// alone. Nothing is said of which errors those are.
#[verifier::external_body]
fn is_interrupt(error: &wasmtime::Error) -> (r: bool)
    ensures
        r == interrupts(*error),
{
    matches!(error.downcast_ref::<wasmtime::Trap>(), Some(wasmtime::Trap::Interrupt))
}

/// Trusted: `to_string` of a `wasmtime::Error` gives some words. Nothing is said of what they are:
/// an error may hold any type, and displays as that type pleases.
#[verifier::external_body]
fn error_words(error: &wasmtime::Error) -> (r: String) {
    error.to_string()
}

/// The single classification point for every failed guest invocation. A recorded denial is
/// authoritative; otherwise the class depends only on whether the error is an interrupt.
pub fn classify_guest_failure(error: &wasmtime::Error, limiter: &ExecutionLimiter) -> (r:
    GuestFailure)
    ensures
        r@ == class_of(interrupts(*error), *limiter),
{
    classify(is_interrupt(error), limiter)
}

/// How a failure reads. `error` is the text of the error, used only where no limit was hit.
pub open spec fn failure_text(f: FailureView, subject: Seq<char>, error: Seq<char>) -> Seq<char> {
    match f {
        FailureView::DeadlineExceeded { seconds } => subject + " exceeded its "@ + text::decimal(
            seconds as nat,
        ) + "s execution deadline (capabilities.limits.deadline_seconds) and was interrupted"@,
        FailureView::ResourceLimit { message } => subject
            + " exceeded its configured resource limits: "@ + message,
        FailureView::Other => subject + " trapped: "@ + error,
    }
}

impl GuestFailure {
    /// How this failure reads, given the text of the error.
    pub fn describe(&self, subject: &str, error: &str) -> (r: String)
        ensures
            r@ == failure_text(self@, subject@, error@),
            subject@.is_prefix_of(r@),
            self is Other ==> error@.is_suffix_of(r@),
            self is ResourceLimit ==> self->message@.is_suffix_of(r@),
            self is DeadlineExceeded ==> (subject@ + " exceeded its "@ + text::decimal(
                self->seconds as nat,
            ) + "s"@).is_prefix_of(r@),
    {
        proof {
            reveal_strlit("s");
            reveal_strlit(
                "s execution deadline (capabilities.limits.deadline_seconds) and was interrupted",
            );
        }
        match self {
            GuestFailure::DeadlineExceeded { seconds } => text::cat4(
                subject,
                " exceeded its ",
                text::decimal_of(*seconds).as_str(),
                "s execution deadline (capabilities.limits.deadline_seconds) and was interrupted",
            ),
            GuestFailure::ResourceLimit { message } => text::cat3(
                subject,
                " exceeded its configured resource limits: ",
                message.as_str(),
            ),
            GuestFailure::Other => text::cat3(subject, " trapped: ", error),
        }
    }

    /// How this failure reads: what [`GuestFailure::describe`] gives for whatever words the error
    /// has of itself.
    pub fn message(&self, subject: &str, error: &wasmtime::Error) -> (r: String)
        ensures
            exists|words: Seq<char>| r@ == #[trigger] failure_text(self@, subject@, words),
    {
        self.describe(subject, error_words(error).as_str())
    }
}

// ── Laws ─────────────────────────────────────────────────────────────────────

/// A silent manifest means defaults, never unlimited; a declared field is kept whatever the others
/// are.
pub proof fn each_field_resolves_on_its_own(d: ResourceLimits)
    ensures
        resolved(None) == default_limits(),
        d.memory_bytes is Some ==> resolved(Some(d)).memory_bytes == d.memory_bytes->0,
        d.memory_bytes is None ==> resolved(Some(d)).memory_bytes == DEFAULT_MEMORY_BYTES,
        d.deadline_seconds is Some ==> resolved(Some(d)).deadline_seconds
            == d.deadline_seconds->0,
        d.deadline_seconds is None ==> resolved(Some(d)).deadline_seconds
            == DEFAULT_DEADLINE_SECONDS,
        d.table_elements is Some ==> resolved(Some(d)).table_elements == d.table_elements->0,
        d.table_elements is None ==> resolved(Some(d)).table_elements == DEFAULT_TABLE_ELEMENTS,
        d.instances is Some ==> resolved(Some(d)).instances == d.instances->0,
        d.instances is None ==> resolved(Some(d)).instances == DEFAULT_INSTANCES,
{
}

/// The first denial decides: whatever is asked of the limiter afterwards, and whatever the guest's
/// error is, the failure names the growth that was denied first.
pub proof fn the_first_denial_decides(
    fresh: ExecutionLimiter,
    denied: ExecutionLimiter,
    later: ExecutionLimiter,
    first: Seq<char>,
    refused: Result<bool, String>,
    allowed: bool,
    second: Seq<char>,
    answer: Result<bool, String>,
    interrupted: bool,
)
    requires
        fresh.denial is None,
        answered(fresh, denied, false, first, refused),
        answered(denied, later, allowed, second, answer),
    ensures
        class_of(interrupted, denied) == (FailureView::ResourceLimit { message: first }),
        class_of(interrupted, later) == (FailureView::ResourceLimit { message: first }),
{
}

/// A deadline is never zero ticks, and a longer budget never gets fewer of them.
pub proof fn deadlines_are_positive_and_monotone(a: u64, b: u64)
    requires
        a <= b,
    ensures
        1 <= ticks(a) <= ticks(b),
{
}

} // verus!
