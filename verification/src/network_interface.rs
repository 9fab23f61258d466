//! The tunnel interface the multilink exposes to the host: its
//! configuration and the settings it is created with.

use vstd::prelude::*;
use crate::config::UserGroup;

verus! {

/// The tunnel interface to create: its name, addresses (as the four octets
/// of an IPv4 address), MTU and netmask.
#[derive(Debug, Clone)]
pub struct InterfaceConfig {
    pub name: String,
    pub local_ip: [u8; 4],
    pub remote_ip: [u8; 4],
    pub mtu: u32,
    pub netmask: [u8; 4],
}

/// Why the tunnel interface cannot be set up.
#[derive(Debug, Clone, Copy, PartialEq, Eq, Structural)]
pub enum InterfaceError {
    /// The MTU does not fit the interface's signed 32 bit MTU.
    MtuOutOfRange,
}

/// The settings the tunnel device is built with: a layer 3 device without
/// packet information, up, with the broadcast address 255.255.255.255, and
/// owned by the configured user and group when the program runs as one.
#[derive(Debug)]
pub struct TunSettings {
    pub name: String,
    pub mtu: i32,
    pub local_ip: [u8; 4],
    pub remote_ip: [u8; 4],
    pub broadcast: [u8; 4],
    pub netmask: [u8; 4],
    pub owner: Option<(i32, i32)>,
}

/// Owner and group fit the device's signed ids.
pub open spec fn ids_fit(user: UserGroup) -> bool {
    match user {
        UserGroup::Regular { uid, gid } => uid <= i32::MAX && gid <= i32::MAX,
        UserGroup::Privileged => true,
    }
}

/// The settings of the tunnel device for `config`, run as `user`; fails if
/// the MTU does not fit.
pub fn tun_settings(config: &InterfaceConfig, user: UserGroup) -> (r: Result<TunSettings, InterfaceError>)
    requires
        ids_fit(user),
    ensures
        config.mtu > i32::MAX <==> r is Err,
        r matches Err(e) ==> e == InterfaceError::MtuOutOfRange,
        r matches Ok(t) ==> {
            &&& t.name@ == config.name@
            &&& t.mtu == config.mtu
            &&& t.local_ip@ == config.local_ip@
            &&& t.remote_ip@ == config.remote_ip@
            &&& t.netmask@ == config.netmask@
            &&& t.broadcast@ == seq![255u8, 255u8, 255u8, 255u8]
            &&& t.owner == match user {
                UserGroup::Regular { uid, gid } => Some((uid as i32, gid as i32)),
                UserGroup::Privileged => None,
            }
        },
{
    if config.mtu > 0x7fff_ffff {
        return Err(InterfaceError::MtuOutOfRange);
    }
    let owner = match user {
        UserGroup::Regular { uid, gid } => Some((uid as i32, gid as i32)),
        UserGroup::Privileged => None,
    };
    let broadcast: [u8; 4] = [255, 255, 255, 255];
    assert(broadcast@ =~= seq![255u8, 255u8, 255u8, 255u8]);
    Ok(TunSettings {
        name: config.name.clone(),
        mtu: config.mtu as i32,
        local_ip: config.local_ip,
        remote_ip: config.remote_ip,
        broadcast,
        netmask: config.netmask,
        owner,
    })
}

} // verus!
