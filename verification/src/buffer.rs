//! Buffers that are backed by an anonymous memory map, and that are either
//! writable or executable. A buffer of size 0 has no map behind it and never
//! asks the system for anything.

use crate::cache_management::{invalidate_icache_lines, invalidate_pipeline};
use crate::error::BufferError;
use crate::mapping;
use memmap::{Mmap, MmapMut};
use vstd::prelude::*;

verus! {

/// A place in a buffer, counted in bytes from its start.
#[derive(Clone, Copy, Debug, PartialEq, Eq, PartialOrd, Ord, Hash)]
pub struct AssemblyOffset(pub usize);

/// What changing a buffer over keeps: every byte of the memory, and how many
/// of them are in use.
pub open spec fn carried_over(
    backing: Seq<u8>,
    used: nat,
    backing_after: Seq<u8>,
    used_after: nat,
) -> bool {
    backing_after == backing && used_after == used
}

/// A buffer of writable memory. It derefs to the bytes that are in use, which
/// can be written through `deref_mut`.
#[derive(Debug)]
pub struct MutableBuffer {
    // how much of the buffer is in use
    length: usize,
    // the map behind the buffer, unless its size is 0
    buffer: Option<MmapMut>,
}

impl View for MutableBuffer {
    type V = Seq<u8>;

    /// The bytes of the buffer that are in use.
    open spec fn view(&self) -> Seq<u8> {
        self.backing().take(self.used() as int)
    }
}

impl MutableBuffer {
    /// Every byte of the memory behind the buffer.
    pub closed spec fn backing(&self) -> Seq<u8> {
        match self.buffer {
            Some(map) => mapping::writable_bytes(map),
            None => Seq::empty(),
        }
    }

    /// How many bytes of the buffer are in use.
    pub closed spec fn used(&self) -> nat {
        self.length as nat
    }

    #[verifier::type_invariant]
    spec fn well_formed(&self) -> bool {
        &&& self.used() <= self.backing().len()
        &&& self.buffer is None <==> self.backing().len() == 0
    }

    /// What `size` returns.
    pub open spec fn spec_size(&self) -> usize {
        self.backing().len() as usize
    }

    /// A buffer around the outcome of a request for a new map. A map that
    /// was granted becomes the memory of the buffer, none of it in use. A
    /// refusal is handed on as the cause of an `AllocationFailure`.
    pub fn allocated(granted: Result<MmapMut, std::io::Error>) -> (made: Result<
        MutableBuffer,
        BufferError,
    >)
        ensures
            match granted {
                Ok(map) => made matches Ok(buffer) && buffer.backing() == mapping::writable_bytes(
                    map,
                ) && buffer.used() == 0,
                Err(refusal) => made == Err::<MutableBuffer, BufferError>(
                    BufferError::AllocationFailure(refusal),
                ),
            },
    {
        match granted {
            Ok(map) => {
                if mapping::writable_slice(&map).len() == 0 {
                    assert(mapping::writable_bytes(map) =~= Seq::empty());
                    Ok(MutableBuffer { length: 0, buffer: None })
                } else {
                    Ok(MutableBuffer { length: 0, buffer: Some(map) })
                }
            },
            Err(refusal) => Err(BufferError::AllocationFailure(refusal)),
        }
    }

    /// Creates a writable buffer of `size` bytes, none of them in use. A
    /// buffer of size 0 is made without a request to the system, and always.
    pub fn new(size: usize) -> (made: Result<MutableBuffer, BufferError>)
        ensures
            size == 0 ==> made is Ok,
            made matches Ok(buffer) ==> buffer.backing().len() == size && buffer.used() == 0,
            made matches Err(failure) ==> failure is AllocationFailure,
    {
        if size == 0 {
            Ok(MutableBuffer { length: 0, buffer: None })
        } else {
            MutableBuffer::allocated(mapping::map_anon(size))
        }
    }

    /// The size of the memory behind the buffer, in bytes. No more bytes
    /// than that are in use.
    #[verifier::when_used_as_spec(spec_size)]
    pub fn size(&self) -> (size: usize)
        ensures
            size == self.backing().len(),
            size == self.spec_size(),
            self.used() <= size,
    {
        proof {
            use_type_invariant(self);
        }
        match &self.buffer {
            Some(map) => mapping::writable_slice(map).len(),
            None => 0,
        }
    }

    /// A writable buffer around the outcome of a request to make a map
    /// writable, with `length` bytes in use. A map that was made writable
    /// becomes the memory of the buffer. A refusal is handed on as the cause
    /// of a `ProtectionTransitionFailure`.
    pub fn made_writable(length: usize, flipped: Result<MmapMut, std::io::Error>) -> (made: Result<
        MutableBuffer,
        BufferError,
    >)
        requires
            flipped matches Ok(map) ==> length <= mapping::writable_bytes(map).len(),
        ensures
            match flipped {
                Ok(map) => made matches Ok(buffer) && buffer.backing() == mapping::writable_bytes(
                    map,
                ) && buffer.used() == length,
                Err(refusal) => made == Err::<MutableBuffer, BufferError>(
                    BufferError::ProtectionTransitionFailure(refusal),
                ),
            },
    {
        match flipped {
            Ok(map) => {
                if mapping::writable_slice(&map).len() == 0 {
                    assert(mapping::writable_bytes(map) =~= Seq::empty());
                    Ok(MutableBuffer { length, buffer: None })
                } else {
                    Ok(MutableBuffer { length, buffer: Some(map) })
                }
            },
            Err(refusal) => Err(BufferError::ProtectionTransitionFailure(refusal)),
        }
    }

    /// Changes this buffer into an executable buffer with the same bytes, as
    /// many of them in use. A buffer of size 0 is changed over without a
    /// request to the system, and always. Where the system refuses, the
    /// memory is given back to it with the refusal, and nothing is left of
    /// the buffer.
    ///
    /// The system is asked to make the memory executable, and then
    /// `cache_management` is called on the bytes in use. That is all there
    /// is to do where the instruction cache follows the data path by itself.
    /// Where it does not, the code is not ready to run when this returns:
    /// the caller has to run a `LineSweep` over the bytes in use and carry
    /// out what it hands out, and then to synchronise the pipeline, before
    /// control goes into the buffer.
    pub fn make_exec(self) -> (made: Result<ExecutableBuffer, BufferError>)
        ensures
            self.backing().len() == 0 ==> made is Ok,
            made matches Ok(executable) ==> carried_over(
                self.backing(),
                self.used(),
                executable.backing(),
                executable.used(),
            ),
            made matches Err(failure) ==> failure is ProtectionTransitionFailure,
    {
        proof {
            use_type_invariant(&self);
        }
        let length = self.length;
        match self.buffer {
            Some(map) => {
                match ExecutableBuffer::made_executable(length, mapping::make_exec(map)) {
                    Ok(executable) => {
                        invalidate_icache_lines(std::ops::Deref::deref(&executable));
                        invalidate_pipeline();
                        Ok(executable)
                    },
                    Err(error) => Err(error),
                }
            },
            None => Ok(ExecutableBuffer { length, buffer: None }),
        }
    }

    /// Sets how many bytes of the buffer are in use: no more than its size.
    pub fn set_len(&mut self, length: usize)
        requires
            length <= old(self).backing().len(),
        ensures
            final(self).used() == length,
            final(self).backing() == old(self).backing(),
    {
        proof {
            use_type_invariant(&*self);
        }
        self.length = length;
    }
}

impl std::ops::Deref for MutableBuffer {
    type Target = [u8];

    /// The bytes of the buffer that are in use.
    fn deref(&self) -> (bytes: &[u8])
        ensures
            bytes@ == self@,
            bytes@.len() == self.used(),
    {
        proof {
            use_type_invariant(self);
        }
        match &self.buffer {
            Some(map) => vstd::slice::slice_subrange(mapping::writable_slice(map), 0, self.length),
            None => {
                let empty: &[u8] = &[];
                empty
            },
        }
    }
}

impl std::ops::DerefMut for MutableBuffer {
    /// The bytes of the buffer that are in use, to write through. The bytes
    /// behind them stay as they are.
    fn deref_mut(&mut self) -> (bytes: &mut [u8])
        ensures
            bytes@ == old(self)@,
            final(bytes)@.len() == old(self).used(),
            final(self)@ == final(bytes)@,
            final(self).used() == old(self).used(),
            final(self).backing() == final(bytes)@ + old(self).backing().skip(
                old(self).used() as int,
            ),
    {
        proof {
            use_type_invariant(&*self);
        }
        leading_bytes_mut(&mut self.buffer, self.length)
    }
}

/// The bytes of a map, if there is one.
spec fn bytes_behind(buffer: Option<MmapMut>) -> Seq<u8> {
    match buffer {
        Some(map) => mapping::writable_bytes(map),
        None => Seq::empty(),
    }
}

/// The first `length` bytes of the map, to write through.
fn leading_bytes_mut(buffer: &mut Option<MmapMut>, length: usize) -> (bytes: &mut [u8])
    requires
        length <= bytes_behind(*old(buffer)).len(),
    ensures
        bytes@ == bytes_behind(*old(buffer)).take(length as int),
        final(bytes)@.len() == length,
        bytes_behind(*final(buffer)) == final(bytes)@ + bytes_behind(*old(buffer)).skip(
            length as int,
        ),
        *final(buffer) is None <==> *old(buffer) is None,
    no_unwind
{
    match buffer {
        Some(map) => {
            mapping::leading_mut(mapping::writable_slice_mut(map), length)
        },
        None => {
            let empty: &mut [u8] = &mut [];
            empty
        },
    }
}

impl Default for MutableBuffer {
    /// The buffer of size 0.
    fn default() -> (buffer: MutableBuffer)
        ensures
            buffer.backing() == Seq::<u8>::empty(),
            buffer.used() == 0,
    {
        MutableBuffer { length: 0, buffer: None }
    }
}

/// A buffer of executable memory. It derefs to the bytes that are in use.
#[derive(Debug)]
pub struct ExecutableBuffer {
    // how much of the buffer is in use
    length: usize,
    // the map behind the buffer, unless its size is 0
    buffer: Option<Mmap>,
}

impl View for ExecutableBuffer {
    type V = Seq<u8>;

    /// The bytes of the buffer that are in use.
    open spec fn view(&self) -> Seq<u8> {
        self.backing().take(self.used() as int)
    }
}

impl ExecutableBuffer {
    /// Every byte of the memory behind the buffer.
    pub closed spec fn backing(&self) -> Seq<u8> {
        match self.buffer {
            Some(map) => mapping::mapped_bytes(map),
            None => Seq::empty(),
        }
    }

    /// How many bytes of the buffer are in use.
    pub closed spec fn used(&self) -> nat {
        self.length as nat
    }

    #[verifier::type_invariant]
    spec fn well_formed(&self) -> bool {
        &&& self.used() <= self.backing().len()
        &&& self.buffer is None <==> self.backing().len() == 0
    }

    /// What `size` returns.
    pub open spec fn spec_size(&self) -> usize {
        self.backing().len() as usize
    }

    /// An executable buffer around the outcome of a request to make a map
    /// executable, with `length` bytes in use. A map that was made
    /// executable becomes the memory of the buffer. A refusal is handed on as
    /// the cause of a `ProtectionTransitionFailure`.
    pub fn made_executable(length: usize, flipped: Result<Mmap, std::io::Error>) -> (made: Result<
        ExecutableBuffer,
        BufferError,
    >)
        requires
            flipped matches Ok(map) ==> length <= mapping::mapped_bytes(map).len(),
        ensures
            match flipped {
                Ok(map) => made matches Ok(buffer) && buffer.backing() == mapping::mapped_bytes(map)
                    && buffer.used() == length,
                Err(refusal) => made == Err::<ExecutableBuffer, BufferError>(
                    BufferError::ProtectionTransitionFailure(refusal),
                ),
            },
    {
        match flipped {
            Ok(map) => {
                if mapping::mapped_slice(&map).len() == 0 {
                    assert(mapping::mapped_bytes(map) =~= Seq::empty());
                    Ok(ExecutableBuffer { length, buffer: None })
                } else {
                    Ok(ExecutableBuffer { length, buffer: Some(map) })
                }
            },
            Err(refusal) => Err(BufferError::ProtectionTransitionFailure(refusal)),
        }
    }

    /// Creates an executable buffer of `size` bytes, none of them in use. A
    /// buffer of size 0 is made without a request to the system, and always.
    pub fn new(size: usize) -> (made: Result<ExecutableBuffer, BufferError>)
        ensures
            size == 0 ==> made is Ok,
            made matches Ok(buffer) ==> buffer.backing().len() == size && buffer.used() == 0,
            made is Err ==> size > 0,
    {
        match MutableBuffer::new(size) {
            Ok(writable) => writable.make_exec(),
            Err(error) => Err(error),
        }
    }

    /// The size of the memory behind the buffer, in bytes. No more bytes
    /// than that are in use.
    #[verifier::when_used_as_spec(spec_size)]
    pub fn size(&self) -> (size: usize)
        ensures
            size == self.backing().len(),
            size == self.spec_size(),
            self.used() <= size,
    {
        proof {
            use_type_invariant(self);
        }
        match &self.buffer {
            Some(map) => mapping::mapped_slice(map).len(),
            None => 0,
        }
    }

    /// Changes this buffer into a writable buffer with the same bytes, as
    /// many of them in use. A buffer of size 0 is changed over without a
    /// request to the system, and always. Where the system refuses, the
    /// memory is given back to it with the refusal, and nothing is left of
    /// the buffer.
    pub fn make_mut(self) -> (made: Result<MutableBuffer, BufferError>)
        ensures
            self.backing().len() == 0 ==> made is Ok,
            made matches Ok(writable) ==> carried_over(
                self.backing(),
                self.used(),
                writable.backing(),
                writable.used(),
            ),
            made matches Err(failure) ==> failure is ProtectionTransitionFailure,
    {
        proof {
            use_type_invariant(&self);
        }
        let length = self.length;
        match self.buffer {
            Some(map) => MutableBuffer::made_writable(length, mapping::make_mut(map)),
            None => Ok(MutableBuffer { length, buffer: None }),
        }
    }

    /// The address of the byte at `offset`, which is one of the bytes in
    /// use: it lies `offset` bytes behind the address of the first byte,
    /// which is not 0, and the bytes in use from there on have addresses
    /// too. The address is good for as long as the buffer stays where it is.
    pub fn ptr(&self, offset: AssemblyOffset) -> (address: usize)
        requires
            offset.0 < self@.len(),
        ensures
            offset.0 < address,
            address + (self@.len() - offset.0) <= usize::MAX,
    {
        let bytes = std::ops::Deref::deref(self);
        address_at(mapping::slice_address(bytes), offset)
    }
}

/// The address that lies `offset` bytes behind `base`.
pub fn address_at(base: usize, offset: AssemblyOffset) -> (address: usize)
    requires
        base + offset.0 <= usize::MAX,
    ensures
        address == base + offset.0,
{
    base + offset.0
}

impl std::ops::Deref for ExecutableBuffer {
    type Target = [u8];

    /// The bytes of the buffer that are in use.
    fn deref(&self) -> (bytes: &[u8])
        ensures
            bytes@ == self@,
            bytes@.len() == self.used(),
    {
        proof {
            use_type_invariant(self);
        }
        match &self.buffer {
            Some(map) => vstd::slice::slice_subrange(mapping::mapped_slice(map), 0, self.length),
            None => {
                let empty: &[u8] = &[];
                empty
            },
        }
    }
}

impl Default for ExecutableBuffer {
    /// The buffer of size 0.
    fn default() -> (buffer: ExecutableBuffer)
        ensures
            buffer.backing() == Seq::<u8>::empty(),
            buffer.used() == 0,
    {
        ExecutableBuffer { length: 0, buffer: None }
    }
}

/// A writable buffer that was changed over to executable and back holds the
/// bytes that it held before, as many of them in use: what was written into
/// it is what is read from it.
pub proof fn lemma_round_trip(
    written: MutableBuffer,
    executable: ExecutableBuffer,
    back: MutableBuffer,
)
    requires
        carried_over(written.backing(), written.used(), executable.backing(), executable.used()),
        carried_over(executable.backing(), executable.used(), back.backing(), back.used()),
    ensures
        executable@ == written@,
        back@ == written@,
        back.backing() == written.backing(),
{
}

} // verus!
