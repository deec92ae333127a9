use capsule_runtime::limits::{
    classify_guest_failure, ExecutionLimits, GuestFailure, ResourceLimits, DEFAULT_INSTANCES,
    DEFAULT_TABLE_ELEMENTS,
};

#[test]
fn resolve_uses_defaults_when_manifest_is_silent() {
    assert_eq!(ExecutionLimits::resolve(None), ExecutionLimits::default());
}

#[test]
fn resolve_fills_each_omitted_field_independently() {
    let declared = ResourceLimits {
        memory_bytes: Some(1024),
        table_elements: None,
        instances: None,
        deadline_seconds: Some(5),
    };
    let limits = ExecutionLimits::resolve(Some(&declared));

    assert_eq!(limits.memory_bytes, 1024);
    assert_eq!(limits.deadline_seconds, 5);
    assert_eq!(limits.table_elements, DEFAULT_TABLE_ELEMENTS);
    assert_eq!(limits.instances, DEFAULT_INSTANCES);
}

#[test]
fn deadline_ticks_converts_seconds_and_never_yields_zero() {
    let limits = ExecutionLimits {
        deadline_seconds: 1,
        ..ExecutionLimits::default()
    };
    // 1s / 100ms per tick.
    assert_eq!(limits.deadline_ticks(), 10);
    assert_eq!(ExecutionLimits::default().deadline_ticks(), 6_000);
}

/// A limiter that has denied a growth request classifies as `ResourceLimit` even though
/// the resulting error is a plain message with no `Trap` to downcast to — the case the
/// recorded-denial design exists to cover.
#[test]
fn classify_reports_resource_limit_after_a_denial() {
    let limits = ExecutionLimits {
        memory_bytes: 1024,
        ..ExecutionLimits::default()
    };
    let mut limiter = limits.limiter();
    let error = wasmtime::Error::msg(
        limiter
            .memory_growing(0, 4096, None)
            .expect_err("growth past memory_bytes must be denied"),
    );

    match classify_guest_failure(&error, &limiter) {
        GuestFailure::ResourceLimit { message } => {
            assert!(message.contains("capabilities.limits.memory_bytes"));
        }
        other => panic!("expected ResourceLimit, got {other:?}"),
    }
}

#[test]
fn classify_reports_deadline_for_an_interrupt_trap() {
    let limits = ExecutionLimits {
        deadline_seconds: 7,
        ..ExecutionLimits::default()
    };
    let limiter = limits.limiter();
    let error = wasmtime::Error::from(wasmtime::Trap::Interrupt);

    assert_eq!(
        classify_guest_failure(&error, &limiter),
        GuestFailure::DeadlineExceeded { seconds: 7 }
    );
}

/// An ordinary guest panic must stay in the generic bucket.
#[test]
fn classify_reports_other_for_an_unrelated_trap() {
    let limiter = ExecutionLimits::default().limiter();
    let error = wasmtime::Error::from(wasmtime::Trap::UnreachableCodeReached);

    let failure = classify_guest_failure(&error, &limiter);
    assert_eq!(failure, GuestFailure::Other);
    assert!(failure
        .message("tool 'echo'", &error)
        .starts_with("tool 'echo' trapped: "));
}

#[test]
fn limiter_allows_growth_within_the_cap() {
    let limits = ExecutionLimits {
        memory_bytes: 4096,
        ..ExecutionLimits::default()
    };
    let mut limiter = limits.limiter();

    assert!(limiter.memory_growing(0, 4096, None).unwrap());
    assert!(limiter.denial().is_none());
}

#[test]
fn table_growth_is_denied_past_its_cap_and_recorded() {
    let limits = ExecutionLimits {
        table_elements: 10,
        ..ExecutionLimits::default()
    };
    let mut limiter = limits.limiter();
    assert_eq!(limiter.table_growing(0, 10, None), Ok(true));
    assert_eq!(limiter.denial(), None);
    let denied = limiter.table_growing(10, 11, None).unwrap_err();
    assert!(denied.contains("capabilities.limits.table_elements"), "{denied}");
    assert_eq!(limiter.denial(), Some(denied.as_str()));
}

#[test]
fn the_first_denial_is_the_one_that_is_kept() {
    let limits = ExecutionLimits {
        memory_bytes: 1024,
        table_elements: 10,
        ..ExecutionLimits::default()
    };
    let mut limiter = limits.limiter();
    let first = limiter.memory_growing(0, 4096, None).unwrap_err();
    let second = limiter.table_growing(0, 11, None).unwrap_err();
    assert_ne!(first, second);
    assert_eq!(limiter.memory_growing(0, 512, None), Ok(true));
    assert_eq!(limiter.denial(), Some(first.as_str()));
}

#[test]
fn growth_past_a_module_maximum_is_denied() {
    let mut limiter = ExecutionLimits::default().limiter();
    assert!(limiter.memory_growing(0, 4096, Some(1024)).is_err());
    assert!(limiter.denial().is_some());
}

#[test]
fn a_longer_budget_never_gets_fewer_ticks() {
    let mut last = 0;
    for seconds in [0, 1, 2, 600, u64::MAX] {
        let limits = ExecutionLimits {
            deadline_seconds: seconds,
            ..ExecutionLimits::default()
        };
        let ticks = limits.deadline_ticks();
        assert!(ticks >= 1 && ticks >= last, "{seconds}");
        last = ticks;
    }
    assert_eq!(last, u64::MAX / 100);
}

#[test]
fn a_failure_reads_by_its_class() {
    let deadline = GuestFailure::DeadlineExceeded { seconds: 7 };
    assert_eq!(
        deadline.describe("tool 'echo'", "ignored"),
        "tool 'echo' exceeded its 7s execution deadline (capabilities.limits.deadline_seconds) \
         and was interrupted"
    );
    let limit = GuestFailure::ResourceLimit {
        message: "too big".to_string(),
    };
    assert_eq!(
        limit.describe("hook 'h'", "ignored"),
        "hook 'h' exceeded its configured resource limits: too big"
    );
    assert_eq!(
        GuestFailure::Other.describe("hook 'h'", "boom"),
        "hook 'h' trapped: boom"
    );
}
