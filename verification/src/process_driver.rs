//! Loading a process driver: the artifact a `transport: process` manifest names under
//! `inference.driver`, which knows how to drive one harness CLI.
//!
//! A process driver is pure translation and is granted nothing. What it exports, what it says it
//! needs and how its calls fail are judged here.

use crate::errors::RuntimeError;
use crate::limits;
use crate::limits::GuestFailure;
use crate::text;
use vstd::prelude::*;

verus! {

/// The instance name every process driver exports.
pub const PROCESS_DRIVER_IFACE: &'static str = "murmur:driver/process@0.1.0";

/// Every version of the process interface starts with this.
pub const PROCESS_DRIVER_IFACE_PREFIX: &'static str = "murmur:driver/process@";

/// What a component imports and exports.
#[derive(Debug, PartialEq, Eq)]
pub struct WitContracts {
    pub exports: Vec<String>,
    pub imports: Vec<String>,
}

/// What a process driver says of itself.
#[derive(Debug, PartialEq, Eq)]
pub struct Description {
    pub harness: String,
    pub binary: String,
    pub version_args: Vec<String>,
    pub tested_versions: Vec<String>,
    pub required_env: Vec<String>,
    pub streams_text: bool,
}

// ── Exports ──────────────────────────────────────────────────────────────────

/// The exports that are some version of the process interface.
pub open spec fn process_exports(exports: Seq<Seq<char>>) -> Seq<Seq<char>>
    decreases exports.len(),
{
    if exports.len() == 0 {
        Seq::empty()
    } else if PROCESS_DRIVER_IFACE_PREFIX@.is_prefix_of(exports.last()) {
        process_exports(exports.drop_last()).push(exports.last())
    } else {
        process_exports(exports.drop_last())
    }
}

/// What a driver exports; one whose exports could not be read exports nothing.
pub open spec fn exports_of(contracts: Option<WitContracts>) -> Seq<Seq<char>> {
    match contracts {
        Some(c) => text::texts(c.exports@),
        None => Seq::empty(),
    }
}

/// Whether a result is the verdict on a driver's exports under a transport. Under `process` they
/// must hold the process interface under its exact name; under `http` they must hold no version of
/// it. Any other transport passes.
pub open spec fn judges_exports(
    transport: Seq<char>,
    driver: (Seq<char>, Seq<char>),
    exports: Seq<Seq<char>>,
    r: Result<(), RuntimeError>,
) -> bool {
    if transport == "process"@ && !exports.contains(PROCESS_DRIVER_IFACE@) {
        match r {
            Err(
                RuntimeError::ProcessDriverInterfaceMissing { name, version, expected, found },
            ) => {
                &&& (name@, version@) == driver
                &&& expected@ == PROCESS_DRIVER_IFACE@
                &&& text::texts(found@) == process_exports(exports)
            },
            _ => false,
        }
    } else if transport == "http"@ && process_exports(exports).len() > 0 {
        match r {
            Err(RuntimeError::HttpDriverExportsProcessInterface { name, version, exported }) => {
                &&& (name@, version@) == driver
                &&& text::texts(exported@) == process_exports(exports)
            },
            _ => false,
        }
    } else {
        r is Ok
    }
}

fn find_process_exports(exports: &[String]) -> (r: Vec<String>)
    ensures
        text::texts(r@) == process_exports(text::texts(exports@)),
{
    let ghost all = text::texts(exports@);
    let mut out: Vec<String> = Vec::new();
    let mut i: usize = 0;
    proof {
        assert(text::texts(out@) =~= process_exports(all.take(0)));
    }
    while i < exports.len()
        invariant
            i <= exports@.len(),
            all == text::texts(exports@),
            text::texts(out@) == process_exports(all.take(i as int)),
        decreases exports@.len() - i,
    {
        proof {
            assert(all.take(i + 1).drop_last() =~= all.take(i as int));
            assert(all.take(i + 1).last() == exports@[i as int]@);
        }
        if text::starts_with(exports[i].as_str(), PROCESS_DRIVER_IFACE_PREFIX) {
            let ghost before = out@;
            out.push(exports[i].clone());
            proof {
                assert(text::texts(out@) =~= text::texts(before).push(exports@[i as int]@));
            }
        }
        i += 1;
    }
    proof {
        assert(all.take(all.len() as int) =~= all);
    }
    out
}

/// The process interface's name is among the exports exactly when it is among those that are some
/// version of it.
proof fn lemma_exact_name(exports: Seq<Seq<char>>)
    ensures
        process_exports(exports).contains(PROCESS_DRIVER_IFACE@) <==> exports.contains(
            PROCESS_DRIVER_IFACE@,
        ),
    decreases exports.len(),
{
    let name = PROCESS_DRIVER_IFACE@;
    assert(PROCESS_DRIVER_IFACE_PREFIX@.is_prefix_of(name)) by {
        reveal_strlit("murmur:driver/process@0.1.0");
        reveal_strlit("murmur:driver/process@");
    }
    if exports.len() > 0 {
        let front = exports.drop_last();
        let kept = process_exports(front);
        let all = process_exports(exports);
        lemma_exact_name(front);
        if exports.contains(name) {
            let i = choose|i: int| 0 <= i < exports.len() && exports[i] == name;
            if i < front.len() {
                assert(front[i] == name);
                let k = choose|k: int| 0 <= k < kept.len() && kept[k] == name;
                assert(all[k] == name);
            } else {
                assert(all[kept.len() as int] == name);
            }
        }
        if all.contains(name) {
            let k = choose|k: int| 0 <= k < all.len() && all[k] == name;
            if k < kept.len() {
                assert(kept[k] == name);
                let i = choose|i: int| 0 <= i < front.len() && front[i] == name;
                assert(exports[i] == name);
            } else {
                assert(exports[exports.len() - 1] == name);
            }
        }
    }
}

/// Checks the inference driver's exports against the transport that names it. `contracts` is what
/// was read out of the driver's wasm; nothing when it could not be read.
pub fn check_driver_interface(
    transport: &str,
    name: &str,
    version: &str,
    contracts: Option<&WitContracts>,
) -> (r: Result<(), RuntimeError>)
    ensures
        judges_exports(
            transport@,
            (name@, version@),
            exports_of(
                match contracts {
                    Some(c) => Some(*c),
                    None => None,
                },
            ),
            r,
        ),
        transport@ == "process"@ ==> (r is Ok <==> contracts is Some && text::texts(
            contracts->0.exports@,
        ).contains("murmur:driver/process@0.1.0"@)),
        transport@ == "http"@ ==> (r is Ok <==> contracts is None || forall|i: int|
            0 <= i < contracts->0.exports@.len() ==> !"murmur:driver/process@"@.is_prefix_of(
                (#[trigger] contracts->0.exports@[i])@,
            )),
        transport@ != "process"@ && transport@ != "http"@ ==> r is Ok,
{
    let found = match contracts {
        Some(c) => find_process_exports(c.exports.as_slice()),
        None => {
            let none: Vec<String> = Vec::new();
            proof {
                assert(text::texts(none@) =~= Seq::<Seq<char>>::empty());
            }
            none
        },
    };
    let ghost exports = exports_of(
        match contracts {
            Some(c) => Some(*c),
            None => None,
        },
    );
    proof {
        lemma_exact_name(exports);
        lemma_some_version(exports);
        if contracts is Some {
            assert(forall|i: int|
                0 <= i < exports.len() ==> (#[trigger] exports[i]) == contracts->0.exports@[i]@);
            assert(forall|i: int|
                0 <= i < exports.len() ==> exports[i] == (#[trigger] contracts->0.exports@[i])@);
        }
        assert(text::texts(found@) == process_exports(exports));
        reveal_strlit("process");
        reveal_strlit("http");
        assert("process"@.len() != "http"@.len());
    }
    if text::same(transport, "process") {
        if text::list_contains(found.as_slice(), PROCESS_DRIVER_IFACE) {
            return Ok(());
        }
        return Err(
            RuntimeError::ProcessDriverInterfaceMissing {
                name: name.to_owned(),
                version: version.to_owned(),
                expected: PROCESS_DRIVER_IFACE.to_owned(),
                found,
            },
        );
    }
    if text::same(transport, "http") && found.len() > 0 {
        return Err(
            RuntimeError::HttpDriverExportsProcessInterface {
                name: name.to_owned(),
                version: version.to_owned(),
                exported: found,
            },
        );
    }
    Ok(())
}

// ── The environment a driver requires ────────────────────────────────────────

/// The names that are not allowed, each once, in their order.
pub open spec fn undeclared(required: Seq<Seq<char>>, allowed: Seq<Seq<char>>) -> Seq<Seq<char>>
    decreases required.len(),
{
    if required.len() == 0 {
        Seq::empty()
    } else {
        let before = undeclared(required.drop_last(), allowed);
        if allowed.contains(required.last()) || before.contains(required.last()) {
            before
        } else {
            before.push(required.last())
        }
    }
}

/// Whether a result refuses exactly when a required name is not allowed, and lists every such name.
pub open spec fn judges_env(
    driver: (Seq<char>, Seq<char>),
    required: Seq<Seq<char>>,
    allowed: Seq<Seq<char>>,
    r: Result<(), RuntimeError>,
) -> bool {
    if undeclared(required, allowed).len() == 0 {
        r is Ok
    } else {
        match r {
            Err(RuntimeError::ProcessDriverRequiredEnvNotAllowed { name, version, missing }) => {
                &&& (name@, version@) == driver
                &&& text::texts(missing@) == undeclared(required, allowed)
            },
            _ => false,
        }
    }
}

/// Checks that every variable the driver requires is declared in `capabilities.env.allow`, given
/// as `env_allow`. Names match exactly.
pub fn check_required_env(
    name: &str,
    version: &str,
    description: &Description,
    env_allow: &[String],
) -> (r: Result<(), RuntimeError>)
    ensures
        judges_env(
            (name@, version@),
            text::texts(description.required_env@),
            text::texts(env_allow@),
            r,
        ),
        r is Ok <==> forall|i: int|
            0 <= i < description.required_env@.len() ==> text::texts(env_allow@).contains(
                (#[trigger] description.required_env@[i])@,
            ),
{
    proof {
        lemma_declared(text::texts(description.required_env@), text::texts(env_allow@));
        assert(forall|i: int|
            0 <= i < description.required_env@.len() ==> text::texts(description.required_env@)[i]
                == (#[trigger] description.required_env@[i])@);
        assert(forall|i: int|
            0 <= i < description.required_env@.len() ==> (#[trigger] text::texts(
                description.required_env@,
            )[i]) == description.required_env@[i]@);
    }
    let required = description.required_env.as_slice();
    let ghost all = text::texts(required@);
    let ghost allowed = text::texts(env_allow@);
    let mut missing: Vec<String> = Vec::new();
    let mut i: usize = 0;
    proof {
        assert(text::texts(missing@) =~= undeclared(all.take(0), allowed));
    }
    while i < required.len()
        invariant
            i <= required@.len(),
            all == text::texts(required@),
            allowed == text::texts(env_allow@),
            text::texts(missing@) == undeclared(all.take(i as int), allowed),
        decreases required@.len() - i,
    {
        proof {
            assert(all.take(i + 1).drop_last() =~= all.take(i as int));
            assert(all.take(i + 1).last() == required@[i as int]@);
        }
        if !text::list_contains(env_allow, required[i].as_str()) && !text::list_contains(
            missing.as_slice(),
            required[i].as_str(),
        ) {
            let ghost before = missing@;
            missing.push(required[i].clone());
            proof {
                assert(text::texts(missing@) =~= text::texts(before).push(required@[i as int]@));
            }
        }
        i += 1;
    }
    proof {
        assert(all.take(all.len() as int) =~= all);
        assert(text::texts(missing@).len() == missing@.len());
    }
    if missing.len() == 0 {
        Ok(())
    } else {
        Err(
            RuntimeError::ProcessDriverRequiredEnvNotAllowed {
                name: name.to_owned(),
                version: version.to_owned(),
                missing,
            },
        )
    }
}

/// Whether a name can be set as an environment variable.
pub open spec fn usable_name(name: Seq<char>) -> bool {
    name.len() > 0 && !name.contains('=') && !name.contains('\0')
}

/// The first name that cannot be set as an environment variable.
pub open spec fn first_unusable(names: Seq<Seq<char>>) -> Option<Seq<char>>
    decreases names.len(),
{
    if names.len() == 0 {
        None
    } else if usable_name(names[0]) {
        first_unusable(names.drop_first())
    } else {
        Some(names[0])
    }
}

/// The first required name that could not be set as an environment variable, if any. A name
/// carrying `=` would set a second variable, and one carrying NUL truncates it.
pub fn unusable_env_name(description: &Description) -> (r: Option<&str>)
    ensures
        text::opt_str(r) == first_unusable(text::texts(description.required_env@)),
{
    let ghost all = text::texts(description.required_env@);
    let mut i: usize = 0;
    proof {
        assert(all.skip(0) =~= all);
        reveal_strlit("");
    }
    while i < description.required_env.len()
        invariant
            i <= description.required_env@.len(),
            all == text::texts(description.required_env@),
            ""@.len() == 0,
            first_unusable(all.skip(i as int)) == first_unusable(all),
        decreases description.required_env@.len() - i,
    {
        let name = description.required_env[i].as_str();
        proof {
            assert(all.skip(i as int)[0] == name@);
            assert(all.skip(i as int).drop_first() =~= all.skip(i + 1));
            if name@.len() == 0 {
                assert(name@ =~= ""@);
            }
        }
        if text::same(name, "") || text::contains_char(name, '=') || text::contains_char(
            name,
            '\0',
        ) {
            return Some(name);
        }
        i += 1;
    }
    None
}

// ── Calls ────────────────────────────────────────────────────────────────────

/// How a call into a driver failed, with the words of the error.
#[derive(Debug, PartialEq, Eq)]
pub struct CallFailure {
    pub failure: GuestFailure,
    pub error: String,
}

/// How a failed call reads behind its name.
pub open spec fn call_text(failure: limits::FailureView, error: Seq<char>) -> Seq<char> {
    match failure {
        limits::FailureView::DeadlineExceeded { seconds } => "exceeded its "@ + text::decimal(
            seconds as nat,
        ) + "s deadline and was interrupted"@,
        limits::FailureView::ResourceLimit { message } => "exceeded its resource limits: "@
            + message,
        limits::FailureView::Other => "trapped: "@ + error,
    }
}

fn failed_call(failure: &CallFailure) -> (r: String)
    ensures
        r@ == call_text(failure.failure@, failure.error@),
{
    match &failure.failure {
        GuestFailure::DeadlineExceeded { seconds } => text::cat3(
            "exceeded its ",
            text::decimal_of(*seconds).as_str(),
            "s deadline and was interrupted",
        ),
        GuestFailure::ResourceLimit { message } => text::cat2(
            "exceeded its resource limits: ",
            message.as_str(),
        ),
        GuestFailure::Other => text::cat2("trapped: ", failure.error.as_str()),
    }
}

/// One process driver, as errors name it.
#[derive(Debug, PartialEq, Eq)]
pub struct ProcessDriver {
    pub name: String,
    pub version: String,
}

/// Whether an error says that a driver could not be loaded, and why.
pub open spec fn is_load_error(e: RuntimeError, driver: ProcessDriver, why: Seq<char>) -> bool {
    match e {
        RuntimeError::ProcessDriverLoad { name, version, message } => {
            &&& name@ == driver.name@
            &&& version@ == driver.version@
            &&& message@ == why
        },
        _ => false,
    }
}

impl ProcessDriver {
    /// The error for a driver that could not be loaded.
    pub fn load_error(&self, message: String) -> (r: RuntimeError)
        ensures
            is_load_error(r, *self, message@),
    {
        RuntimeError::ProcessDriverLoad {
            name: self.name.clone(),
            version: self.version.clone(),
            message,
        }
    }

    /// Judges what the driver's `describe` came to. A failed call, or a required variable whose
    /// name is not usable, is a driver that could not be loaded.
    pub fn describe(&self, outcome: Result<Description, CallFailure>) -> (r: Result<
        Description,
        RuntimeError,
    >)
        ensures
            match outcome {
                Err(failure) => r is Err && is_load_error(
                    r->Err_0,
                    *self,
                    "describe() "@ + call_text(failure.failure@, failure.error@),
                ),
                Ok(description) => match first_unusable(text::texts(description.required_env@)) {
                    Some(bad) => r is Err && is_load_error(
                        r->Err_0,
                        *self,
                        "describe() names "@ + text::debug_text(bad)
                            + " in required-env, which is not a usable variable name"@,
                    ),
                    None => r == Ok::<Description, RuntimeError>(description),
                },
            },
            r is Ok <==> outcome is Ok && forall|i: int|
                0 <= i < outcome->Ok_0.required_env@.len() ==> {
                    let name = (#[trigger] outcome->Ok_0.required_env@[i])@;
                    name.len() > 0 && !name.contains('=') && !name.contains('\0')
                },
            r is Ok ==> r->Ok_0 == outcome->Ok_0,
    {
        proof {
            if outcome is Ok {
                let names = text::texts(outcome->Ok_0.required_env@);
                lemma_first_unusable(names);
                assert(forall|i: int|
                    0 <= i < names.len() ==> names[i] == (
                    #[trigger] outcome->Ok_0.required_env@[i])@);
                assert(forall|i: int|
                    0 <= i < names.len() ==> (#[trigger] names[i])
                        == outcome->Ok_0.required_env@[i]@);
            }
        }
        match outcome {
            Err(failure) => Err(
                self.load_error(text::cat2("describe() ", failed_call(&failure).as_str())),
            ),
            Ok(description) => {
                let refusal = match unusable_env_name(&description) {
                    Some(bad) => Some(
                        text::cat3(
                            "describe() names ",
                            text::debug_of(bad).as_str(),
                            " in required-env, which is not a usable variable name",
                        ),
                    ),
                    None => None,
                };
                match refusal {
                    Some(message) => Err(self.load_error(message)),
                    None => Ok(description),
                }
            },
        }
    }

    /// The error for a call other than `describe` that failed.
    pub fn call_error(&self, call: &str, failure: &CallFailure) -> (r: RuntimeError)
        ensures
            match r {
                RuntimeError::ProcessDriverCallFailed { name, version, call: called, message } => {
                    &&& name@ == self.name@
                    &&& version@ == self.version@
                    &&& called@ == call@
                    &&& message@ == call_text(failure.failure@, failure.error@)
                },
                _ => false,
            },
    {
        RuntimeError::ProcessDriverCallFailed {
            name: self.name.clone(),
            version: self.version.clone(),
            call: call.to_owned(),
            message: failed_call(failure),
        }
    }
}

// ── Laws ─────────────────────────────────────────────────────────────────────

/// A refusal of required variables lists every undeclared name, nothing else, and none twice.
pub proof fn every_undeclared_name_is_listed_once(
    required: Seq<Seq<char>>,
    allowed: Seq<Seq<char>>,
)
    ensures
        forall|name: Seq<char>|
            #![trigger undeclared(required, allowed).contains(name)]
            undeclared(required, allowed).contains(name) <==> required.contains(name)
                && !allowed.contains(name),
        undeclared(required, allowed).no_duplicates(),
    decreases required.len(),
{
    let listed = undeclared(required, allowed);
    if required.len() > 0 {
        let front = required.drop_last();
        let before = undeclared(front, allowed);
        let last = required.last();
        every_undeclared_name_is_listed_once(front, allowed);
        assert forall|name: Seq<char>|
            #![trigger listed.contains(name)]
            listed.contains(name) <==> required.contains(name) && !allowed.contains(name) by {
            if listed.contains(name) {
                let k = choose|k: int| 0 <= k < listed.len() && listed[k] == name;
                if k < before.len() {
                    assert(before[k] == name);
                    assert(before.contains(name));
                    let i = choose|i: int| 0 <= i < front.len() && front[i] == name;
                    assert(required[i] == name);
                } else {
                    assert(required[required.len() - 1] == name);
                }
            }
            if required.contains(name) && !allowed.contains(name) {
                let i = choose|i: int| 0 <= i < required.len() && required[i] == name;
                if i < front.len() {
                    assert(front[i] == name);
                    assert(front.contains(name));
                    assert(before.contains(name));
                }
                if before.contains(name) {
                    let k = choose|k: int| 0 <= k < before.len() && before[k] == name;
                    assert(listed[k] == name);
                } else {
                    assert(name == last);
                    assert(listed[before.len() as int] == name);
                }
            }
        }
    }
}

/// No driver is taken by both transports: what `process` takes, `http` refuses.
pub proof fn no_driver_serves_both_transports(
    exports: Seq<Seq<char>>,
    driver: (Seq<char>, Seq<char>),
    process: Result<(), RuntimeError>,
    http: Result<(), RuntimeError>,
)
    requires
        judges_exports("process"@, driver, exports, process),
        judges_exports("http"@, driver, exports, http),
    ensures
        !(process is Ok && http is Ok),
{
    reveal_strlit("process");
    reveal_strlit("http");
    lemma_exact_name(exports);
    if exports.contains(PROCESS_DRIVER_IFACE@) {
        assert(process_exports(exports).len() > 0);
    }
    assert("process"@.len() != "http"@.len());
}

proof fn lemma_some_version(exports: Seq<Seq<char>>)
    ensures
        process_exports(exports).len() == 0 <==> forall|i: int|
            0 <= i < exports.len() ==> !PROCESS_DRIVER_IFACE_PREFIX@.is_prefix_of(
                #[trigger] exports[i],
            ),
    decreases exports.len(),
{
    if exports.len() > 0 {
        let front = exports.drop_last();
        lemma_some_version(front);
        assert(forall|i: int| 0 <= i < front.len() ==> #[trigger] front[i] == exports[i]);
        if process_exports(exports).len() == 0 {
            assert forall|i: int|
                0 <= i < exports.len() implies !PROCESS_DRIVER_IFACE_PREFIX@.is_prefix_of(
                #[trigger] exports[i],
            ) by {
                if i < front.len() {
                    assert(front[i] == exports[i]);
                }
            }
        } else if forall|i: int|
            0 <= i < exports.len() ==> !PROCESS_DRIVER_IFACE_PREFIX@.is_prefix_of(
                #[trigger] exports[i],
            ) {
            assert(!PROCESS_DRIVER_IFACE_PREFIX@.is_prefix_of(exports[exports.len() - 1]));
        }
    }
}

proof fn lemma_declared(required: Seq<Seq<char>>, allowed: Seq<Seq<char>>)
    ensures
        undeclared(required, allowed).len() == 0 <==> forall|i: int|
            0 <= i < required.len() ==> allowed.contains(#[trigger] required[i]),
{
    every_undeclared_name_is_listed_once(required, allowed);
    let listed = undeclared(required, allowed);
    if listed.len() > 0 {
        assert(listed.contains(listed[0]));
        let i = choose|i: int| 0 <= i < required.len() && required[i] == listed[0];
        assert(!allowed.contains(required[i]));
    } else {
        assert forall|i: int| 0 <= i < required.len() implies allowed.contains(
            #[trigger] required[i],
        ) by {
            assert(required.contains(required[i]));
            assert(!listed.contains(required[i]));
        }
    }
}

proof fn lemma_first_unusable(names: Seq<Seq<char>>)
    ensures
        first_unusable(names) is None <==> forall|i: int|
            0 <= i < names.len() ==> usable_name(#[trigger] names[i]),
    decreases names.len(),
{
    if names.len() > 0 {
        let rest = names.drop_first();
        lemma_first_unusable(rest);
        if first_unusable(names) is None {
            assert forall|i: int| 0 <= i < names.len() implies usable_name(#[trigger] names[i]) by {
                if i > 0 {
                    assert(rest[i - 1] == names[i]);
                }
            }
        }
        if forall|i: int| 0 <= i < names.len() ==> usable_name(#[trigger] names[i]) {
            assert(usable_name(names[0]));
            assert forall|i: int| 0 <= i < rest.len() implies usable_name(#[trigger] rest[i]) by {
                assert(rest[i] == names[i + 1]);
            }
        }
    }
}

/// The process interfaces of a driver are those of its exports that carry the prefix, in order.
pub proof fn process_interfaces_add_up(
    front: Seq<Seq<char>>,
    back: Seq<Seq<char>>,
    export: Seq<char>,
)
    ensures
        process_exports(front + back) == process_exports(front) + process_exports(back),
        process_exports(seq![export]) == (if "murmur:driver/process@"@.is_prefix_of(export) {
            seq![export]
        } else {
            Seq::empty()
        }),
    decreases back.len(),
{
    let one = seq![export];
    assert(one.drop_last() =~= Seq::empty());
    assert(one.last() == export);
    assert(process_exports(one.drop_last()) =~= Seq::<Seq<char>>::empty());
    assert(process_exports(one) =~= (if "murmur:driver/process@"@.is_prefix_of(export) {
        seq![export]
    } else {
        Seq::empty()
    }));
    if back.len() == 0 {
        assert(front + back =~= front);
        assert(process_exports(front) + process_exports(back) =~= process_exports(front));
    } else {
        process_interfaces_add_up(front, back.drop_last(), export);
        assert((front + back).drop_last() =~= front + back.drop_last());
        assert(process_exports(front + back) =~= process_exports(front) + process_exports(back));
    }
}

/// Undeclared names are listed in the order in which they are required.
pub proof fn undeclared_names_come_in_order(
    required: Seq<Seq<char>>,
    name: Seq<char>,
    allowed: Seq<Seq<char>>,
)
    ensures
        undeclared(required.push(name), allowed) == (if allowed.contains(name)
            || required.contains(name) {
            undeclared(required, allowed)
        } else {
            undeclared(required, allowed).push(name)
        }),
{
    every_undeclared_name_is_listed_once(required, allowed);
    assert(required.push(name).drop_last() =~= required);
    assert(undeclared(required, allowed).contains(name) <==> required.contains(name)
        && !allowed.contains(name));
}

/// The unusable name that is reported is the first one.
pub proof fn the_first_unusable_name_is_reported(names: Seq<Seq<char>>, i: int)
    requires
        0 <= i <= names.len(),
        forall|j: int|
            0 <= j < i ==> (#[trigger] names[j]).len() > 0 && !names[j].contains('=')
                && !names[j].contains('\0'),
    ensures
        i == names.len() ==> first_unusable(names) is None,
        i < names.len() && (names[i].len() == 0 || names[i].contains('=') || names[i].contains(
            '\0',
        )) ==> first_unusable(names) == Some(names[i]),
    decreases names.len(),
{
    if i > 0 {
        let rest = names.drop_first();
        assert(usable_name(names[0]));
        assert forall|j: int| 0 <= j < i - 1 implies (#[trigger] rest[j]).len() > 0
            && !rest[j].contains('=') && !rest[j].contains('\0') by {
            assert(rest[j] == names[j + 1]);
        }
        the_first_unusable_name_is_reported(rest, i - 1);
    }
}

} // verus!
