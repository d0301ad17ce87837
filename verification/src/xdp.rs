//! Whether the kernel data plane may be attached: the configuration asks for
//! it and the process holds the capabilities that it needs.

use vstd::prelude::*;

verus! {

/// The capabilities that the probe asks for.
#[derive(Debug, Clone, Copy, PartialEq, Eq, Structural)]
pub enum Capability {
    CapBpf,
    CapNetAdmin,
    CapSysAdmin,
}

/// Which capabilities the probe accepted.
#[derive(Debug, Clone, Copy, PartialEq, Eq, Structural)]
pub enum CapMode {
    /// `CAP_BPF` with `CAP_NET_ADMIN`, on kernels that split the former out.
    BpfPlusNetAdmin,
    /// `CAP_SYS_ADMIN`, the only way on older kernels.
    SysAdmin,
}

/// The outcome of the capability probe.
#[derive(Debug)]
pub enum CapState {
    /// The capabilities suffice.
    Granted(CapMode),
    /// Neither `CAP_BPF` nor `CAP_SYS_ADMIN` is held.
    MissingBpfAndSysAdmin,
    /// `CAP_BPF` is held without `CAP_NET_ADMIN`, and `CAP_SYS_ADMIN` is not.
    MissingNetAdmin,
    /// The probe itself failed.
    ProbeError(String),
}

/// Whether a probe found its capability.
pub open spec fn held(probe: Result<bool, String>) -> bool {
    probe matches Ok(b) && b
}

/// Whether `CAP_NET_ADMIN` is asked for: only with `CAP_BPF`.
pub open spec fn asks_net_admin(bpf: Result<bool, String>) -> bool {
    held(bpf)
}

/// Whether `CAP_SYS_ADMIN` is asked for: without `CAP_BPF`, or when
/// `CAP_NET_ADMIN` is known to be missing.
pub open spec fn asks_sys_admin(bpf: Result<bool, String>, net: Result<bool, String>) -> bool {
    !held(bpf) || (net matches Ok(b) && !b)
}

/// Whether `state` is the outcome for these probe results. `CAP_BPF` with
/// `CAP_NET_ADMIN` is preferred and `CAP_SYS_ADMIN` is the fallback. A failed
/// probe of `CAP_BPF` counts as not held; a failed probe of another capability
/// surfaces.
pub open spec fn decides(
    bpf: Result<bool, String>,
    net: Result<bool, String>,
    sys: Result<bool, String>,
    state: CapState,
) -> bool {
    if held(bpf) {
        match net {
            Ok(true) => state matches CapState::Granted(m) && m == CapMode::BpfPlusNetAdmin,
            Ok(false) => match sys {
                Ok(true) => state matches CapState::Granted(m) && m == CapMode::SysAdmin,
                Ok(false) => state is MissingNetAdmin,
                Err(e) => state matches CapState::ProbeError(msg) && msg@ == e@,
            },
            Err(e) => state matches CapState::ProbeError(msg) && msg@ == e@,
        }
    } else {
        match sys {
            Ok(true) => state matches CapState::Granted(m) && m == CapMode::SysAdmin,
            Ok(false) => state is MissingBpfAndSysAdmin,
            Err(e) => state matches CapState::ProbeError(msg) && msg@ == match bpf {
                Err(b) => "cap_bpf probe failed ("@ + b@ + "); cap_sys_admin probe failed ("@ + e@
                    + ")"@,
                Ok(_) => e@,
            },
        }
    }
}

/// The message when both probes failed.
fn both_failed(bpf: &String, sys: &String) -> (msg: String)
    ensures
        msg@ == "cap_bpf probe failed ("@ + bpf@ + "); cap_sys_admin probe failed ("@ + sys@ + ")"@,
{
    let mut msg = String::new();
    msg.append("cap_bpf probe failed (");
    msg.append(bpf);
    msg.append("); cap_sys_admin probe failed (");
    msg.append(sys);
    msg.append(")");
    assert(Seq::<char>::empty() + "cap_bpf probe failed ("@ =~= "cap_bpf probe failed ("@);
    msg
}

/// The outcome of the probe, once every capability that it asks for was looked
/// up. A result that is not asked for does not matter.
pub fn decide_caps(
    bpf: &Result<bool, String>,
    net: &Result<bool, String>,
    sys: &Result<bool, String>,
) -> (state: CapState)
    ensures
        decides(*bpf, *net, *sys, state),
{
    let bpf_ok: bool = match bpf {
        Ok(b) => *b,
        Err(_) => false,
    };
    if bpf_ok {
        match net {
            Ok(true) => CapState::Granted(CapMode::BpfPlusNetAdmin),
            Ok(false) => match sys {
                Ok(true) => CapState::Granted(CapMode::SysAdmin),
                Ok(false) => CapState::MissingNetAdmin,
                Err(e) => CapState::ProbeError(e.clone()),
            },
            Err(e) => CapState::ProbeError(e.clone()),
        }
    } else {
        match sys {
            Ok(true) => CapState::Granted(CapMode::SysAdmin),
            Ok(false) => CapState::MissingBpfAndSysAdmin,
            Err(e) => match bpf {
                Err(b) => CapState::ProbeError(both_failed(b, e)),
                Ok(_) => CapState::ProbeError(e.clone()),
            },
        }
    }
}

/// Probes the capabilities through `check`, asking for each only when the
/// outcome depends on it.
pub fn probe_caps_with<F: Fn(Capability) -> Result<bool, String>>(check: F) -> (state: CapState)
    requires
        forall|c: Capability| call_requires(check, (c,)),
    ensures
        exists|bpf: Result<bool, String>, net: Result<bool, String>, sys: Result<bool, String>|
            {
                &&& call_ensures(check, (Capability::CapBpf,), bpf)
                &&& asks_net_admin(bpf) ==> call_ensures(check, (Capability::CapNetAdmin,), net)
                &&& asks_sys_admin(bpf, net) ==> call_ensures(check, (Capability::CapSysAdmin,), sys)
                &&& #[trigger] decides(bpf, net, sys, state)
            },
{
    let bpf = check(Capability::CapBpf);
    let bpf_ok: bool = match bpf {
        Ok(b) => b,
        Err(_) => false,
    };
    let net: Result<bool, String> = if bpf_ok { check(Capability::CapNetAdmin) } else { Ok(false) };
    let net_missing: bool = match net {
        Ok(b) => !b,
        Err(_) => false,
    };
    let sys: Result<bool, String> = if !bpf_ok || net_missing {
        check(Capability::CapSysAdmin)
    } else {
        Ok(false)
    };
    let state = decide_caps(&bpf, &net, &sys);
    assert(decides(bpf, net, sys, state));
    state
}

/// `caps::has_cap` on the effective set of this process. Whether the process
/// holds a capability, and whether the kernel answers at all, is up to the
/// machine, so nothing is claimed of the result; an error is its text.
#[verifier::external_body]
fn has_cap(capability: Capability) -> (r: Result<bool, String>)
{
    let cap = match capability {
        Capability::CapBpf => caps::Capability::CAP_BPF,
        Capability::CapNetAdmin => caps::Capability::CAP_NET_ADMIN,
        Capability::CapSysAdmin => caps::Capability::CAP_SYS_ADMIN,
    };
    caps::has_cap(None, caps::CapSet::Effective, cap).map_err(|e| e.to_string())
}

/// What the kernel answered for each capability. One that was not asked for
/// stands as not held.
#[derive(Debug)]
pub struct CapAnswers {
    pub bpf: Result<bool, String>,
    pub net: Result<bool, String>,
    pub sys: Result<bool, String>,
}

/// Probes the capabilities of this process: the outcome, and the answers that
/// it follows from. Each capability is asked for only when the outcome depends
/// on it.
pub fn probe_caps() -> (r: (CapState, CapAnswers))
    ensures
        decides(r.1.bpf, r.1.net, r.1.sys, r.0),
        !asks_net_admin(r.1.bpf) ==> r.1.net == Ok::<bool, String>(false),
        !asks_sys_admin(r.1.bpf, r.1.net) ==> r.1.sys == Ok::<bool, String>(false),
{
    let bpf = has_cap(Capability::CapBpf);
    let bpf_ok: bool = match bpf {
        Ok(b) => b,
        Err(_) => false,
    };
    let net: Result<bool, String> = if bpf_ok { has_cap(Capability::CapNetAdmin) } else { Ok(false) };
    let net_missing: bool = match net {
        Ok(b) => !b,
        Err(_) => false,
    };
    let sys: Result<bool, String> = if !bpf_ok || net_missing {
        has_cap(Capability::CapSysAdmin)
    } else {
        Ok(false)
    };
    (decide_caps(&bpf, &net, &sys), CapAnswers { bpf, net, sys })
}

/// The data plane attaches only with `CAP_SYS_ADMIN`, or with `CAP_BPF` and
/// `CAP_NET_ADMIN` together.
pub proof fn law_attach_needs_capabilities(
    bpf: Result<bool, String>,
    net: Result<bool, String>,
    sys: Result<bool, String>,
    state: CapState,
)
    requires
        decides(bpf, net, sys, state),
        state is Granted,
    ensures
        held(sys) || (held(bpf) && held(net)),
{
}

// ---------------------------------------------------------------------------
// Attaching
// ---------------------------------------------------------------------------

/// The attach mode that an operator asks for.
#[derive(Debug, Clone, Copy, PartialEq, Eq, Structural)]
pub enum XdpModeChoice {
    Auto,
    Native,
    Skb,
    Hw,
}

/// The attach mode that the loader understands.
#[derive(Debug, Clone, Copy, PartialEq, Eq, Structural)]
pub enum LoaderMode {
    Auto,
    Native,
    Skb,
    Hw,
}

/// The loader's name for a configured mode.
pub fn cfg_to_loader_mode(c: XdpModeChoice) -> (r: LoaderMode)
    ensures
        r == match c {
            XdpModeChoice::Auto => LoaderMode::Auto,
            XdpModeChoice::Native => LoaderMode::Native,
            XdpModeChoice::Skb => LoaderMode::Skb,
            XdpModeChoice::Hw => LoaderMode::Hw,
        },
{
    match c {
        XdpModeChoice::Auto => LoaderMode::Auto,
        XdpModeChoice::Native => LoaderMode::Native,
        XdpModeChoice::Skb => LoaderMode::Skb,
        XdpModeChoice::Hw => LoaderMode::Hw,
    }
}

/// What to do about the data plane before the capabilities are probed.
#[derive(Debug)]
pub enum XdpStart {
    /// The configuration does not ask for it.
    Disabled,
    /// It is asked for without an interface.
    NoInterface,
    /// Probe the capabilities, then attach to this interface.
    Probe(String),
}

/// What to do about the data plane before the capabilities are probed.
pub fn xdp_start(enabled: bool, interface: &Option<String>) -> (r: XdpStart)
    ensures
        match r {
            XdpStart::Disabled => !enabled,
            XdpStart::NoInterface => enabled && match *interface {
                Some(name) => name@.len() == 0,
                None => true,
            },
            XdpStart::Probe(name) => enabled && (*interface matches Some(i) && i@ == name@
                && i@.len() > 0),
        },
{
    if !enabled {
        return XdpStart::Disabled;
    }
    match interface {
        Some(name) => if name.as_str().unicode_len() == 0 {
            XdpStart::NoInterface
        } else {
            XdpStart::Probe(name.clone())
        },
        None => XdpStart::NoInterface,
    }
}

/// Whether to attach after the probe.
pub fn may_attach(state: &CapState) -> (r: bool)
    ensures
        r == (*state is Granted),
{
    match state {
        CapState::Granted(_) => true,
        CapState::MissingBpfAndSysAdmin => false,
        CapState::MissingNetAdmin => false,
        CapState::ProbeError(_) => false,
    }
}

/// When the data plane may be attached: exactly with the system administrator's
/// capability, or with both that for BPF and that for the network. A probe that
/// fails where its answer is needed is no grant, and is reported.
pub proof fn law_capabilities_decide(
    bpf: Result<bool, String>,
    net: Result<bool, String>,
    sys: Result<bool, String>,
    state: CapState,
    attach: bool,
)
    requires
        call_ensures(decide_caps, (&bpf, &net, &sys), state),
        call_ensures(may_attach, (&state,), attach),
    ensures
        bpf == Ok::<bool, String>(true) && net == Ok::<bool, String>(true) ==> attach && state
            == CapState::Granted(CapMode::BpfPlusNetAdmin),
        bpf != Ok::<bool, String>(true) && sys == Ok::<bool, String>(true) ==> attach && state
            == CapState::Granted(CapMode::SysAdmin),
        bpf == Ok::<bool, String>(true) && net == Ok::<bool, String>(false) && sys == Ok::<
            bool,
            String,
        >(true) ==> attach && state == CapState::Granted(CapMode::SysAdmin),
        bpf == Ok::<bool, String>(true) && net == Ok::<bool, String>(false) && sys == Ok::<
            bool,
            String,
        >(false) ==> !attach && state is MissingNetAdmin,
        bpf != Ok::<bool, String>(true) && sys == Ok::<bool, String>(false) ==> !attach
            && state is MissingBpfAndSysAdmin,
        bpf == Ok::<bool, String>(true) && net is Err ==> !attach && state is ProbeError
            && state->ProbeError_0@ == net->Err_0@,
        bpf == Ok::<bool, String>(true) && net == Ok::<bool, String>(false) && sys is Err ==> !attach
            && state is ProbeError && state->ProbeError_0@ == sys->Err_0@,
        bpf == Ok::<bool, String>(false) && sys is Err ==> !attach && state is ProbeError
            && state->ProbeError_0@ == sys->Err_0@,
        bpf is Err && sys is Err ==> !attach && state is ProbeError && state->ProbeError_0@
            == "cap_bpf probe failed ("@ + bpf->Err_0@ + "); cap_sys_admin probe failed ("@
            + sys->Err_0@ + ")"@,
{
}

/// When the capabilities are probed at all: exactly when the data plane is
/// enabled and an interface is named.
pub proof fn law_probe_needs_an_interface(enabled: bool, interface: Option<String>, r: XdpStart)
    requires
        call_ensures(xdp_start, (enabled, &interface), r),
    ensures
        r is Probe <==> enabled && interface is Some && interface->0@.len() > 0,
        r matches XdpStart::Probe(name) ==> name@ == interface->0@,
        r is Disabled <==> !enabled,
{
}

/// A mode of the configuration is the loader's mode of the same name, so two
/// modes never come to the same.
pub proof fn law_loader_modes(a: XdpModeChoice, b: XdpModeChoice, x: LoaderMode, y: LoaderMode)
    requires
        call_ensures(cfg_to_loader_mode, (a,), x),
        call_ensures(cfg_to_loader_mode, (b,), y),
    ensures
        x == y <==> a == b,
        x == LoaderMode::Auto <==> a == XdpModeChoice::Auto,
        x == LoaderMode::Native <==> a == XdpModeChoice::Native,
        x == LoaderMode::Skb <==> a == XdpModeChoice::Skb,
        x == LoaderMode::Hw <==> a == XdpModeChoice::Hw,
{
}

/// What is asked of the system: the capability for BPF first, that for the network
/// exactly when the first is held, and that of the system administrator exactly
/// when one of them is missing. What was not asked counts as not held.
pub proof fn law_capabilities_are_asked(r: (CapState, CapAnswers), again: CapState)
    requires
        call_ensures(probe_caps, (), r),
        call_ensures(decide_caps, (&r.1.bpf, &r.1.net, &r.1.sys), again),
    ensures
        r.1.bpf != Ok::<bool, String>(true) ==> r.1.net == Ok::<bool, String>(false),
        r.1.bpf == Ok::<bool, String>(true) && r.1.net == Ok::<bool, String>(true) ==> r.1.sys == Ok::<
            bool,
            String,
        >(false),
        r.0 is Granted <==> again is Granted,
        r.0 is Granted ==> r.0 == again,
        r.0 is ProbeError <==> again is ProbeError,
        r.0 is ProbeError ==> r.0->ProbeError_0@ == again->ProbeError_0@,
{
}

} // verus!
