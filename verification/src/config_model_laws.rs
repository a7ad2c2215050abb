//! What the capacity model and the host's watch take from a run.
use crate::capacity_args::{HostArgs, WorkloadArgs, host_of_config, workload_of_config};
use crate::cli::{BandwidthPolicy, Encryption};
use crate::config::BenchConfig;
use crate::host_contention::{
    AdmissionOutcome, HostContentionMode, Pressure, admission_skipped, admission_step,
    admission_timeout_secs,
};
use crate::model::{
    BondMode, EncryptionMode, SocketBufferRequest, SrtBandwidthPolicy, effective_windows,
};
use crate::text::decimal;
use crate::verdict_laws::verdicts_mean_what_they_say;
use vstd::prelude::*;

verus! {

/// The model is given the workload that is run: the rate of the source, every connection,
/// and one stream for each pair and each connection outside of pairs.
pub proof fn models_are_given_the_workload(config: &BenchConfig, w: WorkloadArgs, streams: usize)
    requires
        call_ensures(workload_of_config, (config,), w),
        call_ensures(BenchConfig::logical_connection_count, (config,), streams),
    ensures
        w.source_bps_per_stream == config.source_bitrate_bps,
        w.physical_connections == config.connections,
        w.logical_streams == streams,
        w.source_streams == streams,
        w.payload_bytes == 1316,
        w.bond == BondMode::Unbonded <==> config.bond_mode == crate::cli::BondMode::Unbonded,
        w.bond == BondMode::Broadcast <==> config.bond_mode == crate::cli::BondMode::Broadcast,
        w.bond == BondMode::Backup <==> config.bond_mode == crate::cli::BondMode::Backup,
{
}

/// The model is told what was asked of the host and how many share a socket, and nothing
/// that only a run can show; on the loopback there is no card.
pub proof fn models_are_told_what_was_asked_of_the_host(
    config: &BenchConfig,
    h: HostArgs,
    peers: usize,
)
    requires
        call_ensures(host_of_config, (config,), h),
        call_ensures(BenchConfig::peers_per_socket, (config,), peers),
    ensures
        h.requested_socket_buffer_bytes == config.sock_buf_bytes,
        h.socket_fan_in == peers,
        h.workers == config.workers,
        h.cpu_allocation@ == decimal(config.cpus as nat),
        h.effective_receive_socket_buffer_bytes is Unknown,
        h.effective_send_socket_buffer_bytes is Unknown,
        h.host_pps_capacity is Unknown,
        config.host@ == "127.0.0.1"@ ==> h.nic_capacity_bps is NotApplicable,
        config.host@ == "localhost"@ ==> h.nic_capacity_bps is NotApplicable,
        config.host@ != "127.0.0.1"@ && config.host@ != "localhost"@ ==> h.nic_capacity_bps
            is Unknown,
{
}

/// The model's names for pacing and encryption are those of the run.
pub proof fn models_keep_pacing_and_encryption(
    policy: BandwidthPolicy,
    p: SrtBandwidthPolicy,
    encryption: Encryption,
    e: EncryptionMode,
)
    requires
        call_ensures(SrtBandwidthPolicy::of_config, (policy,), p),
        call_ensures(EncryptionMode::of_config, (encryption,), e),
    ensures
        p.text() == policy.text(),
        e.text() == encryption.text(),
{
}

/// Windows that are asked for within the bounds are what runs, and a receive window is never
/// larger than the flow window.
pub proof fn windows_are_kept_within_bounds(flow: u32, receive: u32, r: (u32, u32))
    requires
        call_ensures(effective_windows, (flow, receive), r),
    ensures
        32 <= r.1 <= r.0 <= 65536,
        32 <= flow <= 65536 ==> r.0 == flow,
        flow > 65536 ==> r.0 == 65536,
        32 <= receive <= r.0 ==> r.1 == receive,
        receive > r.0 ==> r.1 == r.0,
        receive < 32 ==> r.1 == 32,
{
}

/// A buffer of no bytes is left to the system, and any other is asked for.
pub proof fn no_bytes_are_left_to_the_system(bytes: u64, r: SocketBufferRequest)
    requires
        call_ensures(SocketBufferRequest::from_bytes, (bytes,), r),
    ensures
        r == SocketBufferRequest::SystemDefault <==> bytes == 0,
        bytes > 0 ==> r == SocketBufferRequest::Bytes(bytes),
{
}

/// Admission waits while a signal is seen and there is time, is over as soon as none is, and
/// gives up when the time is.
pub proof fn admission_waits_for_quiet(
    p: Pressure,
    expired: bool,
    secs: u64,
    r: Option<AdmissionOutcome>,
)
    requires
        call_ensures(admission_step, (p, expired, secs), r),
    ensures
        ({
            let seen = p.cpu_psi || p.cpu_stall || p.mem_psi || p.io_psi || p.steal;
            &&& !seen <==> r == Some(AdmissionOutcome::Quiet)
            &&& seen && !expired <==> r is None
            &&& seen && expired <==> r is Some && r->0 is Timeout
        }),
{
    verdicts_mean_what_they_say(HostContentionMode::Mark, true, p);
}

/// Admission is skipped where the operator opted out or nothing can be read, and nowhere
/// else.
pub proof fn admission_is_skipped_where_it_cannot_help(
    mode: HostContentionMode,
    readable: bool,
    r: Option<AdmissionOutcome>,
)
    requires
        call_ensures(admission_skipped, (mode, readable), r),
    ensures
        r is None <==> mode != HostContentionMode::Allow && readable,
        r is Some ==> r->0 is Skipped,
        mode == HostContentionMode::Allow ==> r->0->reason@ == "host-contention=allow"@,
        mode != HostContentionMode::Allow && !readable ==> r->0->reason@
            == "host pressure signals unavailable"@,
{
}

/// Only a run that may be refused waits as long as was configured.
pub proof fn only_refusal_waits_in_full(mode: HostContentionMode, configured: u64, r: u64)
    requires
        call_ensures(admission_timeout_secs, (mode, configured), r),
    ensures
        r <= configured,
        mode == HostContentionMode::Refuse ==> r == configured,
        mode == HostContentionMode::Mark ==> r <= 2,
        mode == HostContentionMode::Allow ==> r == 0,
{
}

} // verus!
