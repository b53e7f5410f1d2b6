//! The operating system's anonymous memory maps, as far as the buffers use
//! them. Nothing in this file is proved: each function hands its arguments to
//! the `memmap` crate or to `std`, and its contract says what that function
//! is relied on to do.

use memmap::{Mmap, MmapMut};
use std::ops::{Deref, DerefMut};
use vstd::prelude::*;

verus! {

/// `memmap::MmapMut`, a memory map that can be written. What is inside it
/// is not looked at here.
#[verifier::external_type_specification]
#[verifier::external_body]
pub struct ExMmapMut(MmapMut);

/// `memmap::Mmap`, a memory map that cannot be written. What is inside it
/// is not looked at here.
#[verifier::external_type_specification]
#[verifier::external_body]
pub struct ExMmap(Mmap);

/// `std::io::Error`, with which the system refuses a request. What is
/// inside it is not looked at here.
#[verifier::external_type_specification]
#[verifier::external_body]
pub struct ExIoError(std::io::Error);

/// The bytes of a writable map, from its first to its last.
pub uninterp spec fn writable_bytes(map: MmapMut) -> Seq<u8>;

/// The bytes of a map that is not writable, from its first to its last.
pub uninterp spec fn mapped_bytes(map: Mmap) -> Seq<u8>;

/// `MmapMut::map_anon`: asks the system for a new anonymous map. Whether one
/// is granted is the system's decision; a map that is granted is `length`
/// bytes long.
#[verifier::external_body]
pub(crate) fn map_anon(length: usize) -> (granted: Result<MmapMut, std::io::Error>)
    ensures
        granted matches Ok(map) ==> writable_bytes(map).len() == length,
{
    MmapMut::map_anon(length)
}

/// `MmapMut::make_exec`: asks the system to make the map readable and
/// executable. Whether it does is the system's decision; where it does, the
/// map that comes back is the same memory and holds the same bytes.
#[verifier::external_body]
pub(crate) fn make_exec(map: MmapMut) -> (flipped: Result<Mmap, std::io::Error>)
    ensures
        flipped matches Ok(executable) ==> mapped_bytes(executable) == writable_bytes(map),
{
    map.make_exec()
}

/// `Mmap::make_mut`: asks the system to make the map readable and writable.
/// Whether it does is the system's decision; where it does, the map that
/// comes back is the same memory and holds the same bytes.
#[verifier::external_body]
pub(crate) fn make_mut(map: Mmap) -> (flipped: Result<MmapMut, std::io::Error>)
    ensures
        flipped matches Ok(writable) ==> writable_bytes(writable) == mapped_bytes(map),
{
    map.make_mut()
}

/// `MmapMut::deref`: the bytes of the map as a slice.
#[verifier::external_body]
pub(crate) fn writable_slice(map: &MmapMut) -> (bytes: &[u8])
    ensures
        bytes@ == writable_bytes(*map),
{
    map.deref()
}

/// `MmapMut::deref_mut`: the bytes of the map as a slice to write through.
/// What the slice holds when the caller lets go of it is what the map then
/// holds; a slice cannot change its length.
#[verifier::external_body]
pub(crate) fn writable_slice_mut(map: &mut MmapMut) -> (bytes: &mut [u8])
    ensures
        bytes@ == writable_bytes(*old(map)),
        final(bytes)@ == writable_bytes(*final(map)),
        final(bytes)@.len() == bytes@.len(),
    no_unwind
{
    map.deref_mut()
}

/// `<[u8]>::index_mut` with the range `..length`: the first `length` bytes of
/// a slice, to write through. The bytes behind them stay as they are.
#[verifier::external_body]
pub(crate) fn leading_mut(bytes: &mut [u8], length: usize) -> (leading: &mut [u8])
    requires
        length <= old(bytes)@.len(),
    ensures
        leading@ == old(bytes)@.take(length as int),
        final(leading)@.len() == length,
        final(bytes)@ == final(leading)@ + old(bytes)@.skip(length as int),
    no_unwind
{
    &mut bytes[..length]
}

/// `Mmap::deref`: the bytes of the map as a slice.
#[verifier::external_body]
pub(crate) fn mapped_slice(map: &Mmap) -> (bytes: &[u8])
    ensures
        bytes@ == mapped_bytes(*map),
{
    map.deref()
}

/// `<[u8]>::as_ptr`: the address of the first byte of a slice, as a number.
/// Which address that is the contract leaves open. The pointer of a slice
/// is never null, and a slice lies within the address space, so its last
/// byte has an address too.
#[verifier::external_body]
pub(crate) fn slice_address(bytes: &[u8]) -> (address: usize)
    ensures
        address != 0,
        address + bytes@.len() <= usize::MAX,
{
    bytes.as_ptr() as usize
}

} // verus!
