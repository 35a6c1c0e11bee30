//! The TUN device: its settings, its MTU, and the packets read from it.

pub mod mtu;
pub mod route_laws;
pub mod routes;
pub mod windows;

use vstd::prelude::*;

use crate::platform::Platform;
use crate::text::opt_text;
use crate::tun::mtu::MtuSetter;
use bytes::BytesMut;
use vstd::slice::slice_subrange;

verus! {

/// Maximum IP packet size for the tunnel. Mesh fragmentation carries packets over smaller
/// paths.
pub const TUN_MTU: u16 = 1500;

/// IPv6's minimum link MTU, used when the device rejects the preferred one.
pub const MIN_TUN_MTU: u16 = 1280;

/// Bytes exposed for a single read: one packet of at most the tunnel's MTU, and a few bytes
/// of slack for a platform's packet-info header.
pub const READ_RESERVE: usize = 1504;

/// Interface name pattern on Linux; the kernel puts the lowest free index for `%d`.
pub const LINUX_TUN_NAME: &'static str = "rayfish%d";

/// Adapter name on Windows. Fixed, so a restart reattaches to the adapter this daemon
/// created.
pub const WINDOWS_TUN_NAME: &'static str = "rayfish";

/// What follows an attempt to set an MTU.
#[derive(Clone, Copy, Debug, PartialEq, Eq, Structural)]
pub enum MtuStep {
    /// The device has this MTU.
    Settled(u16),
    /// Try this MTU next.
    Retry(u16),
    /// The device takes no MTU the tunnel can work with.
    Failed,
}

/// What follows an attempt to set the MTU `tried`, which the device took or rejected.
pub fn next_mtu(tried: u16, accepted: bool) -> (r: MtuStep)
    ensures
        r == (if accepted {
            MtuStep::Settled(tried)
        } else if tried == TUN_MTU {
            MtuStep::Retry(MIN_TUN_MTU)
        } else {
            MtuStep::Failed
        }),
        accepted <==> r is Settled,
        r matches MtuStep::Settled(mtu) ==> mtu == tried,
        r matches MtuStep::Retry(mtu) ==> mtu == 1280 && tried == 1500,
        !accepted && tried == 1500 ==> r is Retry,
{
    if accepted {
        MtuStep::Settled(tried)
    } else if tried == TUN_MTU {
        MtuStep::Retry(MIN_TUN_MTU)
    } else {
        MtuStep::Failed
    }
}

/// Whether a call of `set` with `mtu` may have been answered as `outcome` says.
pub open spec fn answered<E, F: FnMut(u16) -> Result<(), E>>(
    set: F,
    mtu: u16,
    outcome: Result<(), E>,
) -> bool {
    call_ensures(set, (mtu,), outcome)
}

/// The attempts that lead to an outcome: the preferred MTU alone where the device took it,
/// else that and IPv6's minimum, which the device took or rejected.
pub open spec fn mtu_attempts<E>(r: Result<u16, E>) -> Seq<(u16, bool)> {
    if r matches Ok(m) && m == TUN_MTU {
        seq![(TUN_MTU, true)]
    } else {
        seq![(TUN_MTU, false), (MIN_TUN_MTU, r is Ok)]
    }
}

/// Sets the preferred MTU, or IPv6's minimum where the device rejects it. The MTU returned is
/// the last one the device was asked for, and it took it; nothing else is tried. A rejected
/// fallback is an error, the one the device gave for the fallback.
pub fn configure_mtu<E, F: FnMut(u16) -> Result<(), E>>(device: &mut MtuSetter<F>) -> (r: Result<
    u16,
    E,
>)
    requires
        call_requires(old(device).setter(), (TUN_MTU,)),
        call_requires(old(device).setter(), (MIN_TUN_MTU,)),
    ensures
        final(device).setter() == old(device).setter(),
        final(device).attempts() == old(device).attempts() + mtu_attempts(r),
        r matches Ok(m) ==> m == TUN_MTU || m == MIN_TUN_MTU,
        r matches Ok(m) ==> m == 1500 || m == 1280,
        r matches Ok(m) ==> exists|o: Result<(), E>|
            o is Ok && answered(old(device).setter(), m, o),
        !(r matches Ok(m) && m == TUN_MTU) ==> exists|o: Result<(), E>|
            o is Err && answered(old(device).setter(), TUN_MTU, o),
        r matches Err(e) ==> answered(old(device).setter(), MIN_TUN_MTU, Err::<(), E>(e)),
{
    let ghost before = device.attempts();
    let ghost given = device.setter();
    let first: Result<(), E> = device.set(TUN_MTU);
    assert(answered(given, TUN_MTU, first));
    match next_mtu(TUN_MTU, first.is_ok()) {
        MtuStep::Retry(mtu) => {
            let second: Result<(), E> = device.set(mtu);
            assert(answered(given, mtu, second));
            assert(device.attempts() =~= before + seq![(TUN_MTU, false), (mtu, second is Ok)]);
            match second {
                Ok(_) => Ok(mtu),
                Err(e) => Err(e),
            }
        },
        _ => {
            assert(device.attempts() =~= before + seq![(TUN_MTU, true)]);
            Ok(TUN_MTU)
        },
    }
}

/// How a TUN device is made.
pub struct DeviceSettings {
    /// Prefix length of the node's own address: the device gets that address and nothing
    /// else.
    pub prefix: u8,
    /// The MTU at creation. The minimum, so that a rejected preferred MTU cannot prevent the
    /// device from being made.
    pub mtu: u16,
    /// The IPv6 MTU, where it is set apart.
    pub mtu_v6: Option<u16>,
    /// The device's name, where it can be chosen.
    pub name: Option<String>,
    /// The adapter's description, where it has one.
    pub description: Option<String>,
}

/// How a TUN device is made on a platform.
pub fn device_settings(platform: Platform) -> (r: DeviceSettings)
    ensures
        r.prefix == 128,
        r.mtu == MIN_TUN_MTU,
        r.mtu == 1280,
        r.name is Some <==> platform == Platform::Linux || platform == Platform::Windows,
        r.mtu_v6 == (if platform == Platform::Windows {
            Some(MIN_TUN_MTU)
        } else {
            None
        }),
        opt_text(r.name) == (match platform {
            Platform::Linux => Some(LINUX_TUN_NAME@),
            Platform::Windows => Some(WINDOWS_TUN_NAME@),
            _ => None,
        }),
        opt_text(r.description) == (if platform == Platform::Windows {
            Some("Rayfish"@)
        } else {
            None
        }),
{
    match platform {
        Platform::Linux => DeviceSettings {
            prefix: 128,
            mtu: MIN_TUN_MTU,
            mtu_v6: None,
            name: Some(LINUX_TUN_NAME.to_owned()),
            description: None,
        },
        Platform::Windows => DeviceSettings {
            prefix: 128,
            mtu: MIN_TUN_MTU,
            mtu_v6: Some(MIN_TUN_MTU),
            name: Some(WINDOWS_TUN_NAME.to_owned()),
            description: Some("Rayfish".to_owned()),
        },
        _ => DeviceSettings {
            prefix: 128,
            mtu: MIN_TUN_MTU,
            mtu_v6: None,
            name: None,
            description: None,
        },
    }
}

/// `bytes::BytesMut`, a growable byte buffer.
#[verifier::external_type_specification]
#[verifier::external_body]
pub struct ExBytesMut(BytesMut);

/// The bytes a `BytesMut` holds.
pub uninterp spec fn buffered(b: BytesMut) -> Seq<u8>;

/// `BytesMut::len`: how many bytes the buffer holds.
pub assume_specification[ BytesMut::len ](buf: &BytesMut) -> (r: usize)
    ensures
        r == buffered(*buf).len(),
;

/// `BytesMut::extend_from_slice` puts the bytes of `extend` behind those in the buffer, as
/// long as they can be held in memory together. Whether the allocator has that memory is not
/// stated.
pub assume_specification[ BytesMut::extend_from_slice ](buf: &mut BytesMut, extend: &[u8])
    requires
        buffered(*old(buf)).len() + extend@.len() <= isize::MAX,
    ensures
        buffered(*final(buf)) == buffered(*old(buf)) + extend@,
;

/// Hands one packet on: the first `n` bytes that the device put into `scratch` go behind
/// those in the caller's pool. `None` where `n` is more than `scratch` holds, or the pool
/// would grow beyond what memory can address; the pool is then as it was.
///
/// The device reads into `scratch`, never into the pool, so a read that is cancelled leaves
/// the pool as it was.
pub fn commit_packet(buf: &mut BytesMut, scratch: &[u8], n: usize) -> (r: Option<usize>)
    ensures
        r == (if n <= scratch@.len() && buffered(*old(buf)).len() + n <= isize::MAX {
            Some(n)
        } else {
            None
        }),
        buffered(*final(buf)) == (if r is Some {
            buffered(*old(buf)) + scratch@.take(n as int)
        } else {
            buffered(*old(buf))
        }),
        buffered(*final(buf)).take(buffered(*old(buf)).len() as int) == buffered(*old(buf)),
        r matches Some(taken) ==> taken == n && buffered(*final(buf)).len() == buffered(
            *old(buf),
        ).len() + n && forall|i: int|
            0 <= i < n ==> buffered(*final(buf))[buffered(*old(buf)).len() + i]
                == #[trigger] scratch@[i],
{
    let most: usize = isize::MAX as usize;
    let held: usize = buf.len();
    if n > scratch.len() || held > most || n > most - held {
        return None;
    }
    let packet: &[u8] = slice_subrange(scratch, 0, n);
    assert(packet@ =~= scratch@.take(n as int));
    buf.extend_from_slice(packet);
    Some(n)
}

/// Write side of a packet interface: what it says of the packets it takes.
pub trait TunWrite {
    /// Largest IP packet this interface can accept.
    fn mtu(&self) -> (r: u16)
        default_ensures
            r == TUN_MTU,
    {
        TUN_MTU
    }
}

/// What a device is called when it cannot tell.
pub fn device_name(name: Option<String>) -> (r: String)
    ensures
        r@ == (match name {
            Some(n) => n@,
            None => "unknown"@,
        }),
{
    match name {
        Some(n) => n,
        None => "unknown".to_owned(),
    }
}

} // verus!
