//! Verified core of a `/24` subnet scanner driven by Xray/V2Ray `geoip.dat` files.
use vstd::prelude::*;

pub mod geoip;
pub mod text;
pub mod sorting;
pub mod ipv4;
pub mod utils;
pub mod geoip_dat;
pub mod xray_geoip;
pub mod tcp_ping;
pub mod init;
pub mod probe;
pub mod subnet_probe;
pub mod scan_state;
pub mod scanner;
pub mod scan_loop;
pub mod ipinfo;
pub mod tui;
pub mod commands;
pub mod matrix;
pub mod finalize;
pub mod whitelist;

verus! {

} // verus!
