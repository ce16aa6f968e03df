use vstd::prelude::*;

verus! {

/// A registration array accepted from a library: where it lives, how many
/// registrations it holds, and who owns its storage.
#[derive(Debug, Clone, Copy, PartialEq, Eq, Structural)]
pub struct LoadedArray {
    pub array_addr: usize,
    pub count: usize,
    /// True when the host synthesized the array around a single registration.
    pub host_owned: bool,
}

/// What the host observed at one step of probing a freshly opened library.
#[derive(Debug, Clone, Copy, PartialEq, Eq, Structural)]
pub enum ProbeEvent {
    /// The library was opened; nothing was looked up yet.
    Opened,
    /// The aggregated factory symbol is not exported.
    AggregateMissing,
    /// The aggregated factory returned an array (address 0 for null) whose
    /// header holds `count` and the address of its registrations.
    AggregateReturned { array_addr: usize, count: usize, registrations_addr: usize },
    /// The single-registration factory symbol is not exported.
    SingleMissing,
    /// The single-registration factory returned this registration (0 for null).
    SingleReturned { registration_addr: usize },
}

/// What the host must do next while probing a library.
#[derive(Debug, Clone, Copy, PartialEq, Eq, Structural)]
pub enum ProbeStep {
    /// Look up and call the aggregated factory.
    CallAggregate,
    /// Look up and call the single-registration factory.
    CallSingle,
    /// Keep the library with this plugin-owned array.
    Accept(LoadedArray),
    /// Synthesize a one-entry host-owned array around this registration.
    WrapSingle(usize),
    /// The library offers no registration for the trait: close it.
    Reject,
}

/// The loader's decision after each observation: the aggregated factory is
/// preferred and accepted only when it returns a non-empty array; otherwise the
/// single-registration factory is tried, and a null registration rejects.
pub open spec fn probe_step(ev: ProbeEvent) -> ProbeStep {
    match ev {
        ProbeEvent::Opened => ProbeStep::CallAggregate,
        ProbeEvent::AggregateMissing => ProbeStep::CallSingle,
        ProbeEvent::AggregateReturned { array_addr, count, registrations_addr } => {
            if array_addr != 0 && count > 0 && registrations_addr != 0 {
                ProbeStep::Accept(LoadedArray { array_addr, count, host_owned: false })
            } else {
                ProbeStep::CallSingle
            }
        },
        ProbeEvent::SingleMissing => ProbeStep::Reject,
        ProbeEvent::SingleReturned { registration_addr } => {
            if registration_addr != 0 {
                ProbeStep::WrapSingle(registration_addr)
            } else {
                ProbeStep::Reject
            }
        },
    }
}

/// Decides the next probing action from the last observation.
pub fn next_probe_step(ev: ProbeEvent) -> (r: ProbeStep)
    ensures
        r == probe_step(ev),
{
    match ev {
        ProbeEvent::Opened => ProbeStep::CallAggregate,
        ProbeEvent::AggregateMissing => ProbeStep::CallSingle,
        ProbeEvent::AggregateReturned { array_addr, count, registrations_addr } => {
            if array_addr != 0 && count > 0 && registrations_addr != 0 {
                ProbeStep::Accept(LoadedArray { array_addr, count, host_owned: false })
            } else {
                ProbeStep::CallSingle
            }
        },
        ProbeEvent::SingleMissing => ProbeStep::Reject,
        ProbeEvent::SingleReturned { registration_addr } => {
            if registration_addr != 0 {
                ProbeStep::WrapSingle(registration_addr)
            } else {
                ProbeStep::Reject
            }
        },
    }
}

impl LoadedArray {
    /// The array that the host synthesized, at `array_addr`, around one registration.
    pub fn host_single(array_addr: usize) -> (r: LoadedArray)
        ensures
            r == (LoadedArray { array_addr, count: 1, host_owned: true }),
    {
        LoadedArray { array_addr, count: 1, host_owned: true }
    }
}

} // verus!
