//! Random choices: network ids and spawn points, from the system's random
//! source.
use vstd::prelude::*;
use crate::map_loader::SpawnPoints;

verus! {

/// The little-endian value of eight bytes, as `u64::from_le_bytes` reads
/// them.
pub open spec fn le_u64(b: [u8; 8]) -> u64 {
    (b[0] as int + b[1] as int * 0x100 + b[2] as int * 0x1_0000 + b[3] as int * 0x100_0000
        + b[4] as int * 0x1_0000_0000 + b[5] as int * 0x100_0000_0000 + b[6] as int
        * 0x1_0000_0000_0000 + b[7] as int * 0x100_0000_0000_0000) as u64
}

/// `u64::from_le_bytes`.
pub fn u64_from_le_bytes(b: [u8; 8]) -> (v: u64)
    ensures
        v == le_u64(b),
        v as int == b[0] as int + b[1] as int * 0x100 + b[2] as int * 0x1_0000 + b[3] as int
            * 0x100_0000 + b[4] as int * 0x1_0000_0000 + b[5] as int * 0x100_0000_0000 + b[6] as int
            * 0x1_0000_0000_0000 + b[7] as int * 0x100_0000_0000_0000,
{
    (b[0] as u64) + (b[1] as u64) * 0x100 + (b[2] as u64) * 0x1_0000 + (b[3] as u64) * 0x100_0000
        + (b[4] as u64) * 0x1_0000_0000 + (b[5] as u64) * 0x100_0000_0000 + (b[6] as u64)
        * 0x1_0000_0000_0000 + (b[7] as u64) * 0x100_0000_0000_0000
}

/// `getrandom::fill` on eight bytes: whether the system's random source
/// filled them. Nothing is claimed of the bytes, which are random, nor of
/// their contents when the call fails.
#[verifier::external_body]
fn fill_random(buf: &mut [u8; 8]) -> (ok: bool) {
    getrandom::fill(buf).is_ok()
}

/// A fresh random network id; `None` when the system's random source
/// failed. Any `u64` can come out.
pub fn generate_client_id() -> (id: Option<u64>) {
    let mut buf = [0u8; 8];
    if fill_random(&mut buf) {
        Some(u64_from_le_bytes(buf))
    } else {
        None
    }
}

/// The spawn point chosen by the random value `random` among `len`
/// points.
pub fn spawn_index(random: u64, len: usize) -> (i: usize)
    requires
        len > 0,
    ensures
        i as int == random as int % len as int,
        i < len,
{
    (random % (len as u64)) as usize
}

/// The spawn point that the random value `random` picks: entry
/// `random % len` of the points.
pub fn spawn_point_at<T: Copy>(points: &Vec<T>, random: u64) -> (p: T)
    requires
        points@.len() > 0,
    ensures
        p == points@[(random as int % points@.len() as int)],
{
    let i = spawn_index(random, points.len());
    points[i]
}

/// A random element of `points`; `fallback` when there are none. When the
/// random source fails, the element chosen by whatever the buffer holds is
/// taken.
pub fn pick_spawn_point<T: Copy>(spawn_points: &SpawnPoints<T>, fallback: T) -> (p: T)
    ensures
        spawn_points.0@.len() == 0 ==> p == fallback,
        spawn_points.0@.len() > 0 ==> spawn_points.0@.contains(p),
{
    let points = &spawn_points.0;
    if points.len() == 0 {
        return fallback;
    }
    let mut buf = [0u8; 8];
    let _ = fill_random(&mut buf);
    spawn_point_at(points, u64_from_le_bytes(buf))
}

} // verus!
