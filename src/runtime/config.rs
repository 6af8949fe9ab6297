//! Configuration of an instance: the services it provides, the clients it
//! requires, and its Service Discovery timings. Reading the file is left to
//! the caller.

use vstd::prelude::*;
use std::collections::HashMap;
use crate::sd::machine::SdTiming;
use crate::sd::options::{PROTO_TCP, PROTO_UDP};

verus! {

pub struct MulticastConfig {
    pub ip: String,
    pub port: u16,
}

pub struct ServiceConfig {
    pub service_id: u16,
    pub instance_id: u16,
    pub major_version: u8,
    pub minor_version: u32,
    pub port: Option<u16>,
    pub protocol: Option<String>,
    pub multicast: Option<MulticastConfig>,
}

pub struct ClientConfig {
    pub service_id: u16,
    pub instance_id: u16,
    pub major_version: u8,
    pub static_ip: Option<String>,
    pub static_port: Option<u16>,
}

/// Service Discovery settings; times in milliseconds, TTL in seconds.
pub struct SdConfig {
    pub multicast_ip: String,
    pub multicast_port: u16,
    pub initial_delay_min_ms: u64,
    pub initial_delay_max_ms: u64,
    pub repetition_base_delay_ms: u64,
    pub repetition_max: u32,
    pub cyclic_delay_ms: u64,
    pub ttl: u32,
    pub request_response_delay_min_ms: u64,
    pub request_response_delay_max_ms: u64,
    pub request_timeout_ms: u64,
}

pub struct InstanceConfig {
    pub ip: String,
    pub ip_version: u8,
    pub providing: HashMap<String, ServiceConfig>,
    pub required: HashMap<String, ClientConfig>,
    pub sd: SdConfig,
}

pub struct SystemConfig {
    pub instances: HashMap<String, InstanceConfig>,
}

/// The default IPv4 SD multicast group.
pub fn default_sd_multicast_ip() -> (r: String)
    ensures
        r@ == "224.0.0.1"@,
{
    proof {
        reveal_strlit("224.0.0.1");
    }
    "224.0.0.1".to_owned()
}

pub fn default_sd_multicast_port() -> (r: u16)
    ensures
        r == 30490,
{
    30490
}

pub fn default_initial_delay_min() -> (r: u64)
    ensures
        r == 10,
{
    10
}

pub fn default_initial_delay_max() -> (r: u64)
    ensures
        r == 100,
{
    100
}

pub fn default_repetition_base_delay() -> (r: u64)
    ensures
        r == 100,
{
    100
}

pub fn default_repetition_max() -> (r: u32)
    ensures
        r == 3,
{
    3
}

pub fn default_cyclic_delay() -> (r: u64)
    ensures
        r == 1000,
{
    1000
}

/// The largest 24-bit TTL.
pub fn default_ttl() -> (r: u32)
    ensures
        r == 0x00FF_FFFF,
{
    0x00FF_FFFF
}

pub fn default_request_response_delay_min() -> (r: u64)
    ensures
        r == 10,
{
    10
}

pub fn default_request_response_delay_max() -> (r: u64)
    ensures
        r == 100,
{
    100
}

pub fn default_request_timeout() -> (r: u64)
    ensures
        r == 2000,
{
    2000
}

pub fn default_ip_version() -> (r: u8)
    ensures
        r == 4,
{
    4
}

impl Default for SdConfig {
    fn default() -> (r: SdConfig)
        ensures
            r.multicast_ip@ == "224.0.0.1"@,
            r.multicast_port == 30490,
            r.initial_delay_min_ms == 10,
            r.initial_delay_max_ms == 100,
            r.repetition_base_delay_ms == 100,
            r.repetition_max == 3,
            r.cyclic_delay_ms == 1000,
            r.ttl == 0x00FF_FFFF,
            r.request_response_delay_min_ms == 10,
            r.request_response_delay_max_ms == 100,
            r.request_timeout_ms == 2000,
    {
        SdConfig {
            multicast_ip: default_sd_multicast_ip(),
            multicast_port: default_sd_multicast_port(),
            initial_delay_min_ms: default_initial_delay_min(),
            initial_delay_max_ms: default_initial_delay_max(),
            repetition_base_delay_ms: default_repetition_base_delay(),
            repetition_max: default_repetition_max(),
            cyclic_delay_ms: default_cyclic_delay(),
            ttl: default_ttl(),
            request_response_delay_min_ms: default_request_response_delay_min(),
            request_response_delay_max_ms: default_request_response_delay_max(),
            request_timeout_ms: default_request_timeout(),
        }
    }
}

impl SdConfig {
    /// The offer timings these settings give.
    pub fn sd_timing(&self) -> (r: SdTiming)
        ensures
            r == (SdTiming {
                initial_delay_min_ms: self.initial_delay_min_ms,
                initial_delay_max_ms: self.initial_delay_max_ms,
                repetition_base_delay_ms: self.repetition_base_delay_ms,
                repetition_max: self.repetition_max,
                cyclic_delay_ms: self.cyclic_delay_ms,
                ttl: self.ttl,
            }),
    {
        SdTiming {
            initial_delay_min_ms: self.initial_delay_min_ms,
            initial_delay_max_ms: self.initial_delay_max_ms,
            repetition_base_delay_ms: self.repetition_base_delay_ms,
            repetition_max: self.repetition_max,
            cyclic_delay_ms: self.cyclic_delay_ms,
            ttl: self.ttl,
        }
    }
}

/// What `str::to_lowercase` makes of a string.
pub uninterp spec fn lowercase_of(s: Seq<char>) -> Seq<char>;

/// Relies on `str::to_lowercase`: the result depends on the characters
/// alone.
#[verifier::external_body]
fn to_lowercase(s: &str) -> (r: String)
    ensures
        r@ == lowercase_of(s@),
{
    s.to_lowercase()
}

/// The SD protocol code of a configured protocol name: TCP (0x06) for
/// "tcp" in any case, UDP (0x11) otherwise.
pub fn l4_protocol_code(protocol: &str) -> (r: u8)
    ensures
        r == if lowercase_of(protocol@) == "tcp"@ { PROTO_TCP } else { PROTO_UDP },
{
    let lower = to_lowercase(protocol);
    let tcp: String = "tcp".to_owned();
    if lower == tcp {
        PROTO_TCP
    } else {
        PROTO_UDP
    }
}

} // verus!
