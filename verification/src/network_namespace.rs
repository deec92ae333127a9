//! The capsule's own network namespace: which host can give one, what the forked child does to
//! build it, and how the messages it exchanges with the kernel and its parent are read. The
//! system calls themselves are somebody else's.

use crate::errors::RuntimeError;
use crate::text;
use vstd::prelude::*;

verus! {

// ── Blockers ─────────────────────────────────────────────────────────────────

/// Why this host cannot give a capsule its own network namespace. Two variants, because they are
/// the two things an operator can act on.
#[derive(Debug, Clone, Copy, PartialEq, Eq, Hash, Structural)]
pub enum EgressNamespaceBlocker {
    /// The kernel has the mechanism, but this host withholds it from this binary.
    CapabilityGrantMissing,
    /// The kernel does not provide the mechanism at all.
    KernelSupportMissing,
}

/// The AppArmor profile that grants the mechanism, as the refusal names it.
#[derive(Debug, PartialEq, Eq)]
pub struct AppArmorProfile {
    pub name: String,
    pub path: String,
}

/// The refusal of a blocker: the missing mechanism and the exact remediation.
pub open spec fn blocker_text(
    blocker: EgressNamespaceBlocker,
    name: Seq<char>,
    path: Seq<char>,
) -> Seq<char> {
    match blocker {
        EgressNamespaceBlocker::CapabilityGrantMissing =>
            "this host refused unshare(CLONE_NEWUSER | CLONE_NEWNET) to the mur binary. On an AppArmor host (Ubuntu 23.10+ and derivatives) this is the unprivileged-userns restriction: install and load the profile shipped with mur, `sudo install -m 644 packaging/apparmor/"@
            + name + " "@ + path + " && sudo apparmor_parser -r "@ + path
            + "` (or re-run the mur installer as root), then re-run. Inside a container it is a missing capability: add `--cap-add SYS_ADMIN` to the container invocation, or create the network namespace outside the container and run mur inside it. The runtime will not fall back to the retired seccomp connect/sendto interception \u{2014} that mechanism was removed as unsound, not demoted to a fallback."@,
        EgressNamespaceBlocker::KernelSupportMissing =>
            "this kernel does not provide unprivileged user namespaces, which a capsule's network namespace has to be created inside (CONFIG_USER_NS=n, or user.max_user_namespaces=0). Raise `sudo sysctl -w user.max_user_namespaces=10000` if the sysctl is merely zeroed, otherwise run on a kernel built with CONFIG_USER_NS=y. The runtime will not fall back to the retired seccomp connect/sendto interception \u{2014} that mechanism was removed as unsound, not demoted to a fallback."@,
    }
}

impl EgressNamespaceBlocker {
    /// Every variant.
    pub fn all() -> (r: Vec<EgressNamespaceBlocker>)
        ensures
            r@ == seq![
                EgressNamespaceBlocker::CapabilityGrantMissing,
                EgressNamespaceBlocker::KernelSupportMissing,
            ],
    {
        let r = vec![
            EgressNamespaceBlocker::CapabilityGrantMissing,
            EgressNamespaceBlocker::KernelSupportMissing,
        ];
        proof {
            assert(r@ =~= seq![
                EgressNamespaceBlocker::CapabilityGrantMissing,
                EgressNamespaceBlocker::KernelSupportMissing,
            ]);
        }
        r
    }

    /// One sentence naming the missing mechanism, plus the exact remediation.
    pub fn reason(self, profile: &AppArmorProfile) -> (r: String)
        ensures
            r@ == blocker_text(self, profile.name@, profile.path@),
    {
        match self {
            EgressNamespaceBlocker::CapabilityGrantMissing => text::cat7(
                "this host refused unshare(CLONE_NEWUSER | CLONE_NEWNET) to the mur binary. On an AppArmor host (Ubuntu 23.10+ and derivatives) this is the unprivileged-userns restriction: install and load the profile shipped with mur, `sudo install -m 644 packaging/apparmor/",
                profile.name.as_str(),
                " ",
                profile.path.as_str(),
                " && sudo apparmor_parser -r ",
                profile.path.as_str(),
                "` (or re-run the mur installer as root), then re-run. Inside a container it is a missing capability: add `--cap-add SYS_ADMIN` to the container invocation, or create the network namespace outside the container and run mur inside it. The runtime will not fall back to the retired seccomp connect/sendto interception \u{2014} that mechanism was removed as unsound, not demoted to a fallback.",
            ),
            EgressNamespaceBlocker::KernelSupportMissing =>
                "this kernel does not provide unprivileged user namespaces, which a capsule's network namespace has to be created inside (CONFIG_USER_NS=n, or user.max_user_namespaces=0). Raise `sudo sysctl -w user.max_user_namespaces=10000` if the sysctl is merely zeroed, otherwise run on a kernel built with CONFIG_USER_NS=y. The runtime will not fall back to the retired seccomp connect/sendto interception \u{2014} that mechanism was removed as unsound, not demoted to a fallback.".to_owned(),
        }
    }
}

// ── The probe ────────────────────────────────────────────────────────────────

/// What rehearsing a launch in a forked child did.
#[derive(Debug, Clone, Copy, PartialEq, Eq, Structural)]
pub enum EgressNamespaceProbe {
    /// Created, owned and configured.
    Works,
    /// Creating it was refused.
    Denied,
    /// Created, but owning it was refused.
    MapDenied,
    /// Created and owned, but configuring it failed.
    ConfigDenied,
    /// The kernel does not implement it, or the probe could not run at all.
    Unsupported,
}

/// Everything the host probe learned, apart from the decision that uses it.
#[derive(Debug, Clone, Copy, PartialEq, Eq, Structural)]
pub struct EgressNamespaceSupport {
    /// AppArmor does not stand between this binary and an unprivileged user namespace.
    pub apparmor_permits_userns: bool,
    pub namespace: EgressNamespaceProbe,
}

/// The blocker a probe comes to. A host that is not Linux is never refused for a mechanism it never
/// had, and AppArmor is blamed before the namespace outcome, which is then only a consequence.
pub open spec fn blocker_of(is_linux: bool, support: EgressNamespaceSupport) -> Option<
    EgressNamespaceBlocker,
> {
    if !is_linux {
        None
    } else if !support.apparmor_permits_userns {
        Some(EgressNamespaceBlocker::CapabilityGrantMissing)
    } else {
        match support.namespace {
            EgressNamespaceProbe::Works => None,
            EgressNamespaceProbe::Unsupported => Some(
                EgressNamespaceBlocker::KernelSupportMissing,
            ),
            _ => Some(EgressNamespaceBlocker::CapabilityGrantMissing),
        }
    }
}

/// Which blocker to name, given the probe; `None` when this host can give a capsule its namespace.
pub fn egress_namespace_blocker(is_linux: bool, support: EgressNamespaceSupport) -> (r: Option<
    EgressNamespaceBlocker,
>)
    ensures
        r == blocker_of(is_linux, support),
        r is None <==> !is_linux || (support.apparmor_permits_userns && support.namespace is Works),
        r == Some(EgressNamespaceBlocker::KernelSupportMissing) <==> is_linux
            && support.apparmor_permits_userns && support.namespace is Unsupported,
{
    if !is_linux {
        return None;
    }
    if !support.apparmor_permits_userns {
        return Some(EgressNamespaceBlocker::CapabilityGrantMissing);
    }
    match support.namespace {
        EgressNamespaceProbe::Works => None,
        EgressNamespaceProbe::Denied | EgressNamespaceProbe::MapDenied
        | EgressNamespaceProbe::ConfigDenied => Some(
            EgressNamespaceBlocker::CapabilityGrantMissing,
        ),
        EgressNamespaceProbe::Unsupported => Some(EgressNamespaceBlocker::KernelSupportMissing),
    }
}

/// Which blocker stands between this host and a capsule network namespace. `probed` is what the
/// probe of a Linux host learned; no other host is probed.
pub fn detect_egress_namespace_blocker(probed: Option<EgressNamespaceSupport>) -> (r: Option<
    EgressNamespaceBlocker,
>)
    ensures
        r == (match probed {
            Some(support) => blocker_of(true, support),
            None => None,
        }),
{
    match probed {
        Some(support) => egress_namespace_blocker(true, support),
        None => egress_namespace_blocker(
            false,
            EgressNamespaceSupport {
                apparmor_permits_userns: false,
                namespace: EgressNamespaceProbe::Unsupported,
            },
        ),
    }
}

/// The line with which something that needs a namespace stands down on this host; `None` when it
/// need not.
pub fn skip_without_egress_namespace(
    name: &str,
    blocker: Option<EgressNamespaceBlocker>,
    profile: &AppArmorProfile,
) -> (r: Option<String>)
    ensures
        text::opt_text(r) == (match blocker {
            Some(b) => Some(
                "[SKIP-HOST] "@ + name@ + ": "@ + blocker_text(b, profile.name@, profile.path@),
            ),
            None => None,
        }),
{
    match blocker {
        Some(b) => Some(text::cat4("[SKIP-HOST] ", name, ": ", b.reason(profile).as_str())),
        None => None,
    }
}

/// Whether a result refuses the launch exactly when it has to: when the capsule can spawn
/// subprocesses and the host has a blocker, whatever network the capsule asked for.
pub open spec fn refuses_launch(
    can_spawn_subprocess: bool,
    blocker: Option<EgressNamespaceBlocker>,
    profile: AppArmorProfile,
    r: Result<(), RuntimeError>,
) -> bool {
    match (can_spawn_subprocess, blocker) {
        (true, Some(b)) => match r {
            Err(RuntimeError::EgressNamespaceUnavailable { blocker, reason }) => blocker == b
                && reason@ == blocker_text(b, profile.name@, profile.path@),
            _ => false,
        },
        _ => r is Ok,
    }
}

/// Refuses the launch of a capsule that can spawn subprocesses on a host that cannot give them a
/// network namespace. An empty allowlist does not exempt: without the namespace it would mean
/// unrestricted egress.
pub fn check_egress_namespace(
    can_spawn_subprocess: bool,
    blocker: Option<EgressNamespaceBlocker>,
    profile: &AppArmorProfile,
) -> (r: Result<(), RuntimeError>)
    ensures
        refuses_launch(can_spawn_subprocess, blocker, *profile, r),
        r is Err <==> can_spawn_subprocess && blocker is Some,
{
    if !can_spawn_subprocess {
        return Ok(());
    }
    match blocker {
        None => Ok(()),
        Some(b) => Err(
            RuntimeError::EgressNamespaceUnavailable { blocker: b, reason: b.reason(profile) },
        ),
    }
}

/// The exit code with which the probe child reports a step that failed, or none.
pub const PROBE_OK: i32 = 0;

/// Creating the namespace was refused.
pub const PROBE_UNSHARE_DENIED: i32 = 1;

/// Creating the namespace failed otherwise.
pub const PROBE_UNSHARE_UNSUPPORTED: i32 = 2;

/// Owning the namespace was refused.
pub const PROBE_MAP_DENIED: i32 = 3;

/// Configuring the namespace failed.
pub const PROBE_CONFIG_DENIED: i32 = 4;

/// What a probe child's exit says; `exit` is `None` when it did not exit by itself.
pub open spec fn probe_of(exit: Option<i32>) -> EgressNamespaceProbe {
    match exit {
        Some(code) => if code == PROBE_OK {
            EgressNamespaceProbe::Works
        } else if code == PROBE_UNSHARE_DENIED {
            EgressNamespaceProbe::Denied
        } else if code == PROBE_MAP_DENIED {
            EgressNamespaceProbe::MapDenied
        } else if code == PROBE_CONFIG_DENIED {
            EgressNamespaceProbe::ConfigDenied
        } else {
            EgressNamespaceProbe::Unsupported
        },
        None => EgressNamespaceProbe::Unsupported,
    }
}

/// What a probe child's exit says.
pub fn probe_from_exit(exit: Option<i32>) -> (r: EgressNamespaceProbe)
    ensures
        r == probe_of(exit),
        r is Works <==> exit == Some(0i32),
        r is Denied <==> exit == Some(1i32),
        r is MapDenied <==> exit == Some(3i32),
        r is ConfigDenied <==> exit == Some(4i32),
{
    match exit {
        Some(code) => if code == PROBE_OK {
            EgressNamespaceProbe::Works
        } else if code == PROBE_UNSHARE_DENIED {
            EgressNamespaceProbe::Denied
        } else if code == PROBE_MAP_DENIED {
            EgressNamespaceProbe::MapDenied
        } else if code == PROBE_CONFIG_DENIED {
            EgressNamespaceProbe::ConfigDenied
        } else {
            EgressNamespaceProbe::Unsupported
        },
        None => EgressNamespaceProbe::Unsupported,
    }
}

// ── The plan ─────────────────────────────────────────────────────────────────

/// The resolved description of the namespace the forked child will build.
#[derive(Debug, PartialEq, Eq)]
pub struct CapsuleNetnsPlan {
    /// TCP ports to listen on inside the namespace. May be empty.
    pub tcp_ports: Vec<u16>,
    pub uid: u32,
    pub gid: u32,
}

/// One thing the forked child does.
#[derive(Debug, Clone, Copy, PartialEq, Eq, Structural)]
pub enum NetnsStep {
    /// Create the user and network namespaces.
    Unshare,
    /// Write the identity maps for this user and group.
    WriteMaps(u32, u32),
    /// Bring the loopback interface up.
    BringLoopbackUp,
    /// Install the local default route.
    AddLocalRoute,
    /// Listen on a TCP port.
    Listen(u16),
    /// Bind the resolver socket.
    BindResolver,
    /// Hand the sockets to the parent in one message.
    SendSockets,
}

/// What is said when a step fails.
pub open spec fn step_failure(step: NetnsStep) -> Seq<char> {
    match step {
        NetnsStep::Unshare => "egress-netns: unshare(CLONE_NEWUSER | CLONE_NEWNET) failed"@,
        NetnsStep::WriteMaps(_, _) => "egress-netns: writing uid_map/gid_map failed"@,
        NetnsStep::BringLoopbackUp => "egress-netns: bringing lo up failed"@,
        NetnsStep::AddLocalRoute => "egress-netns: installing the local default route failed"@,
        NetnsStep::Listen(_) =>
            "egress-netns: binding a TCP listener inside the namespace failed"@,
        NetnsStep::BindResolver => "egress-netns: binding UDP 53 inside the namespace failed"@,
        NetnsStep::SendSockets =>
            "egress-netns: handing the namespace sockets to the runtime failed"@,
    }
}

impl NetnsStep {
    /// What is said when this step fails.
    pub fn failure(&self) -> (r: &'static str)
        ensures
            r@ == step_failure(*self),
    {
        match self {
            NetnsStep::Unshare => "egress-netns: unshare(CLONE_NEWUSER | CLONE_NEWNET) failed",
            NetnsStep::WriteMaps(_, _) => "egress-netns: writing uid_map/gid_map failed",
            NetnsStep::BringLoopbackUp => "egress-netns: bringing lo up failed",
            NetnsStep::AddLocalRoute => "egress-netns: installing the local default route failed",
            NetnsStep::Listen(_) =>
                "egress-netns: binding a TCP listener inside the namespace failed",
            NetnsStep::BindResolver => "egress-netns: binding UDP 53 inside the namespace failed",
            NetnsStep::SendSockets =>
                "egress-netns: handing the namespace sockets to the runtime failed",
        }
    }
}

/// A listener per port, in order.
pub open spec fn listen_steps(ports: Seq<u16>) -> Seq<NetnsStep> {
    ports.map_values(|p: u16| NetnsStep::Listen(p))
}

/// What the forked child does, in order: own the namespaces, configure them, bind one listener per
/// port and then the resolver, and hand the sockets over.
pub open spec fn steps_of(plan: CapsuleNetnsPlan) -> Seq<NetnsStep> {
    seq![
        NetnsStep::Unshare,
        NetnsStep::WriteMaps(plan.uid, plan.gid),
        NetnsStep::BringLoopbackUp,
        NetnsStep::AddLocalRoute,
    ] + listen_steps(plan.tcp_ports@) + seq![NetnsStep::BindResolver, NetnsStep::SendSockets]
}

/// Whether a step makes a socket that is handed over.
pub open spec fn makes_socket(step: NetnsStep) -> bool {
    step is Listen || step is BindResolver
}

/// How many of the steps make a socket.
pub open spec fn sockets_made(steps: Seq<NetnsStep>) -> nat
    decreases steps.len(),
{
    if steps.len() == 0 {
        0
    } else if makes_socket(steps.last()) {
        sockets_made(steps.drop_last()) + 1
    } else {
        sockets_made(steps.drop_last())
    }
}

/// The most sockets that one message hands over, when an allowlist names at most `max_tcp_ports`
/// ports: one listener for each, and the resolver.
pub fn max_namespace_sockets(max_tcp_ports: u16) -> (r: usize)
    ensures
        r == max_tcp_ports + 1,
{
    max_tcp_ports as usize + 1
}

impl CapsuleNetnsPlan {
    /// How many descriptors the child will send: one per TCP port, plus the resolver socket.
    pub fn socket_count(&self) -> (r: usize)
        requires
            self.tcp_ports@.len() < usize::MAX,
        ensures
            r == self.tcp_ports@.len() + 1,
    {
        self.tcp_ports.len() + 1
    }

    /// What the forked child does, in order, all of it decided before the fork.
    pub fn steps(&self) -> (r: Vec<NetnsStep>)
        ensures
            r@ == steps_of(*self),
            r@.len() == self.tcp_ports@.len() + 6,
            r@[0] is Unshare && r@[1] == NetnsStep::WriteMaps(self.uid, self.gid) && r@[2]
                is BringLoopbackUp && r@[3] is AddLocalRoute,
            forall|i: int|
                0 <= i < self.tcp_ports@.len() ==> r@[i + 4] == NetnsStep::Listen(
                    #[trigger] self.tcp_ports@[i],
                ),
    {
        let mut out = vec![
            NetnsStep::Unshare,
            NetnsStep::WriteMaps(self.uid, self.gid),
            NetnsStep::BringLoopbackUp,
            NetnsStep::AddLocalRoute,
        ];
        let ghost head = out@;
        let ghost listeners = listen_steps(self.tcp_ports@);
        let mut i: usize = 0;
        proof {
            assert(head + listeners.take(0) =~= head);
        }
        while i < self.tcp_ports.len()
            invariant
                i <= self.tcp_ports@.len(),
                listeners == listen_steps(self.tcp_ports@),
                out@ == head + listeners.take(i as int),
            decreases self.tcp_ports@.len() - i,
        {
            out.push(NetnsStep::Listen(self.tcp_ports[i]));
            proof {
                assert(head + listeners.take(i + 1) =~= (head + listeners.take(i as int)).push(
                    listeners[i as int],
                ));
            }
            i += 1;
        }
        out.push(NetnsStep::BindResolver);
        out.push(NetnsStep::SendSockets);
        proof {
            assert(listeners.take(listeners.len() as int) =~= listeners);
            assert(out@ =~= steps_of(*self));
        }
        out
    }
}

/// Whether a result accepts the sockets the parent received: they came as descriptors, and as many
/// as the plan asked for.
pub open spec fn accepts_sockets(
    is_rights_message: bool,
    received: usize,
    expected: usize,
    r: Result<(), String>,
) -> bool {
    match r {
        Ok(_) => is_rights_message && received == expected,
        Err(e) => if !is_rights_message {
            e@
                == "egress-netns: the namespace sockets did not arrive as an SCM_RIGHTS message"@
        } else {
            received != expected && e@
                == "egress-netns: the runtime received a different number of namespace sockets than the launch plan asked for"@
        },
    }
}

/// Checks the message in which the parent receives the namespace's sockets. A count that does not
/// match the plan is an error, not a best-effort start.
pub fn receive_namespace_sockets(is_rights_message: bool, received: usize, expected: usize) -> (r:
    Result<(), String>)
    ensures
        accepts_sockets(is_rights_message, received, expected, r),
        r is Ok <==> is_rights_message && received == expected,
{
    if !is_rights_message {
        return Err(
            "egress-netns: the namespace sockets did not arrive as an SCM_RIGHTS message".to_owned(),
        );
    }
    if received != expected {
        return Err(
            "egress-netns: the runtime received a different number of namespace sockets than the launch plan asked for".to_owned(),
        );
    }
    Ok(())
}

// ── Netlink ──────────────────────────────────────────────────────────────────

/// Length of the request that installs the route: a message header, a route header and one
/// attribute.
pub const ROUTE_REQUEST_LEN: usize = 36;

/// The bytes of a 16-bit number in a byte order.
pub open spec fn bytes16(n: u16, little: bool) -> Seq<u8> {
    let low = (n % 256) as u8;
    let high = (n / 256) as u8;
    if little {
        seq![low, high]
    } else {
        seq![high, low]
    }
}

/// The bytes of a 32-bit number in a byte order.
pub open spec fn bytes32(n: u32, little: bool) -> Seq<u8> {
    let low = (n % 65536) as u16;
    let high = (n / 65536) as u16;
    if little {
        bytes16(low, little) + bytes16(high, little)
    } else {
        bytes16(high, little) + bytes16(low, little)
    }
}

/// `ip route add local default dev lo` as one netlink message: an `RTM_NEWROUTE` request (24) that
/// is to be acknowledged (0x605), and a route of type local (2), scope host (254), protocol boot
/// (3), table local (255) and family IPv4 (2), out of interface 1.
pub open spec fn route_message(little: bool) -> Seq<u8> {
    bytes32(36, little) + bytes16(24, little) + bytes16(0x605, little) + bytes32(1, little)
        + bytes32(0, little) + seq![2u8, 0, 0, 0, 255, 3, 254, 2] + bytes32(0, little) + bytes16(
        8,
        little,
    ) + bytes16(4, little) + bytes32(1, little)
}

fn push16(out: &mut Vec<u8>, n: u16, little: bool)
    ensures
        final(out)@ == old(out)@ + bytes16(n, little),
{
    let ghost before = out@;
    let low: u8 = (n % 256) as u8;
    let high: u8 = (n / 256) as u8;
    if little {
        out.push(low);
        out.push(high);
    } else {
        out.push(high);
        out.push(low);
    }
    proof {
        assert(out@ =~= before + bytes16(n, little));
    }
}

fn push32(out: &mut Vec<u8>, n: u32, little: bool)
    ensures
        final(out)@ == old(out)@ + bytes32(n, little),
{
    let ghost before = out@;
    let low: u16 = (n % 65536) as u16;
    let high: u16 = (n / 65536) as u16;
    if little {
        push16(out, low, little);
        push16(out, high, little);
    } else {
        push16(out, high, little);
        push16(out, low, little);
    }
    proof {
        assert(out@ =~= before + bytes32(n, little));
    }
}

/// The request that makes every address locally deliverable, in the host's byte order.
pub fn route_request(little: bool) -> (r: Vec<u8>)
    ensures
        r@ == route_message(little),
        r@.len() == ROUTE_REQUEST_LEN,
        r@[16] == 2 && r@[20] == 255 && r@[21] == 3 && r@[22] == 254 && r@[23] == 2,
        little ==> r@[0] == 36 && r@[4] == 24 && r@[6] == 5 && r@[7] == 6 && r@[28] == 8 && r@[30]
            == 4 && r@[32] == 1,
        !little ==> r@[3] == 36 && r@[5] == 24 && r@[6] == 6 && r@[7] == 5 && r@[29] == 8 && r@[31]
            == 4 && r@[35] == 1,
{
    let mut out: Vec<u8> = Vec::new();
    push32(&mut out, 36, little);
    push16(&mut out, 24, little);
    push16(&mut out, 0x605, little);
    push32(&mut out, 1, little);
    push32(&mut out, 0, little);
    let ghost head = out@;
    out.push(2);
    out.push(0);
    out.push(0);
    out.push(0);
    out.push(255);
    out.push(3);
    out.push(254);
    out.push(2);
    proof {
        assert(out@ =~= head + seq![2u8, 0, 0, 0, 255, 3, 254, 2]);
    }
    push32(&mut out, 0, little);
    push16(&mut out, 8, little);
    push16(&mut out, 4, little);
    push32(&mut out, 1, little);
    proof {
        assert(out@ =~= route_message(little));
    }
    out
}

/// Whether a netlink answer reports success: it is long enough to hold an answer, and not an error
/// message with a code other than zero.
pub open spec fn acknowledged(answer: Seq<u8>, little: bool) -> bool {
    answer.len() >= 20 && (answer.subrange(4, 6) != bytes16(2, little) || answer.subrange(16, 20)
        == seq![0u8, 0, 0, 0])
}

/// Whether the kernel accepted the route. Its answer spells a plain acknowledgement as an error
/// message that carries the code zero.
pub fn route_acknowledged(answer: &[u8], little: bool) -> (r: bool)
    ensures
        r == acknowledged(answer@, little),
        answer@.len() < 20 ==> !r,
        answer@.len() >= 20 && little && answer@[4] == 2 && answer@[5] == 0 ==> (r <==> answer@[16]
            == 0 && answer@[17] == 0 && answer@[18] == 0 && answer@[19] == 0),
        answer@.len() >= 20 && !little && answer@[4] == 0 && answer@[5] == 2 ==> (r <==> answer@[16]
            == 0 && answer@[17] == 0 && answer@[18] == 0 && answer@[19] == 0),
        answer@.len() >= 20 && little && !(answer@[4] == 2 && answer@[5] == 0) ==> r,
        answer@.len() >= 20 && !little && !(answer@[4] == 0 && answer@[5] == 2) ==> r,
{
    if answer.len() < 20 {
        return false;
    }
    let is_error = if little {
        answer[4] == 2 && answer[5] == 0
    } else {
        answer[4] == 0 && answer[5] == 2
    };
    proof {
        let kind = answer@.subrange(4, 6);
        let wanted = bytes16(2, little);
        assert(wanted.len() == 2);
        if is_error {
            assert(kind =~= wanted);
        } else {
            assert(kind[0] == answer@[4] && kind[1] == answer@[5]);
        }
    }
    if !is_error {
        return true;
    }
    let zero = answer[16] == 0 && answer[17] == 0 && answer[18] == 0 && answer[19] == 0;
    proof {
        let code = answer@.subrange(16, 20);
        let none = seq![0u8, 0, 0, 0];
        if zero {
            assert(code =~= none);
        } else {
            assert(code[0] == answer@[16] && code[1] == answer@[17] && code[2] == answer@[18]
                && code[3] == answer@[19]);
            assert(none[0] == 0 && none[1] == 0 && none[2] == 0 && none[3] == 0);
        }
    }
    zero
}

// ── Laws ─────────────────────────────────────────────────────────────────────

proof fn lemma_sockets_made(a: Seq<NetnsStep>, b: Seq<NetnsStep>)
    ensures
        sockets_made(a + b) == sockets_made(a) + sockets_made(b),
    decreases b.len(),
{
    if b.len() == 0 {
        assert(a + b =~= a);
    } else {
        assert((a + b).drop_last() =~= a + b.drop_last());
        lemma_sockets_made(a, b.drop_last());
    }
}

proof fn lemma_listeners_made(ports: Seq<u16>)
    ensures
        sockets_made(listen_steps(ports)) == ports.len(),
    decreases ports.len(),
{
    if ports.len() > 0 {
        assert(listen_steps(ports).drop_last() =~= listen_steps(ports.drop_last()));
        lemma_listeners_made(ports.drop_last());
    }
}

/// The child makes exactly the sockets the parent expects, one per port and the resolver last, and
/// a capsule without any port still gets the resolver.
pub proof fn the_child_makes_what_the_parent_expects(plan: CapsuleNetnsPlan)
    ensures
        sockets_made(steps_of(plan)) == plan.tcp_ports@.len() + 1,
        steps_of(plan).len() >= 2,
        steps_of(plan)[steps_of(plan).len() - 2] is BindResolver,
        steps_of(plan).last() is SendSockets,
{
    let head = seq![
        NetnsStep::Unshare,
        NetnsStep::WriteMaps(plan.uid, plan.gid),
        NetnsStep::BringLoopbackUp,
        NetnsStep::AddLocalRoute,
    ];
    let tail = seq![NetnsStep::BindResolver, NetnsStep::SendSockets];
    let listeners = listen_steps(plan.tcp_ports@);
    lemma_sockets_made(head + listeners, tail);
    lemma_sockets_made(head, listeners);
    lemma_listeners_made(plan.tcp_ports@);
    reveal_with_fuel(sockets_made, 5);
    assert(sockets_made(head) == 0);
    assert(sockets_made(tail) == 1);
}

/// Only a working namespace, or a host that has no such mechanism, is without a blocker; and a
/// launch without a subprocess is never refused.
pub proof fn a_blocker_is_named_exactly_when_there_is_one(support: EgressNamespaceSupport)
    ensures
        blocker_of(true, support) is None <==> support.apparmor_permits_userns
            && support.namespace is Works,
        blocker_of(false, support) is None,
        blocker_of(true, support) == Some(EgressNamespaceBlocker::KernelSupportMissing)
            <==> support.apparmor_permits_userns && support.namespace is Unsupported,
{
}

} // verus!
