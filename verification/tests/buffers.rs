use exec_buffer::buffer::{address_at, AssemblyOffset, ExecutableBuffer, MutableBuffer};
use exec_buffer::cache_management::{invalidate_icache_lines, invalidate_pipeline};
use exec_buffer::error::BufferError;
use memmap::MmapMut;
use std::io::{Error, ErrorKind};

// `ret` in the A64 instruction set
const RETURN: [u8; 4] = [0xc0, 0x03, 0x5f, 0xd6];

#[test]
fn buffer_of_size_zero_is_empty() {
    let buffer = MutableBuffer::new(0).unwrap();
    assert_eq!(buffer.size(), 0);
    assert!(buffer.is_empty());
    let executable = buffer.make_exec().unwrap();
    assert_eq!(executable.size(), 0);
    assert!(executable.is_empty());
    let writable = executable.make_mut().unwrap();
    assert_eq!(writable.size(), 0);
    assert!(writable.is_empty());
}

#[test]
fn executable_buffer_of_size_zero_is_empty() {
    let executable = ExecutableBuffer::new(0).unwrap();
    assert_eq!(executable.size(), 0);
    assert_eq!(&executable[..], &[] as &[u8]);
}

#[test]
fn new_buffer_has_the_size_asked_for() {
    for size in [1usize, 4, 4096, 10_000, 65_536] {
        let buffer = MutableBuffer::new(size).unwrap();
        assert_eq!(buffer.size(), size);
        assert_eq!(buffer.len(), 0);
        let executable = ExecutableBuffer::new(size).unwrap();
        assert_eq!(executable.size(), size);
        assert_eq!(executable.len(), 0);
    }
}

#[test]
fn default_buffers_are_empty() {
    let writable = MutableBuffer::default();
    assert_eq!(writable.size(), 0);
    assert_eq!(writable.len(), 0);
    let executable = ExecutableBuffer::default();
    assert_eq!(executable.size(), 0);
    assert_eq!(executable.len(), 0);
}

#[test]
fn set_len_sets_the_bytes_in_use() {
    let mut buffer = MutableBuffer::new(4096).unwrap();
    assert_eq!(buffer.len(), 0);
    buffer.set_len(17);
    assert_eq!(buffer.len(), 17);
    assert_eq!(buffer.size(), 4096);
    buffer.set_len(4096);
    assert_eq!(buffer.len(), 4096);
    buffer.set_len(0);
    assert_eq!(buffer.len(), 0);
    assert_eq!(buffer.size(), 4096);
}

#[test]
fn written_bytes_are_read_back() {
    let mut buffer = MutableBuffer::new(64).unwrap();
    buffer.set_len(8);
    buffer.copy_from_slice(&[1, 2, 3, 4, 5, 6, 7, 8]);
    buffer[2] = 30;
    assert_eq!(&buffer[..], &[1, 2, 30, 4, 5, 6, 7, 8]);
    buffer.set_len(3);
    assert_eq!(&buffer[..], &[1, 2, 30]);
    buffer.set_len(8);
    assert_eq!(&buffer[..], &[1, 2, 30, 4, 5, 6, 7, 8]);
}

#[test]
fn bytes_survive_the_way_to_executable_and_back() {
    let bytes: Vec<u8> = (0..200u32).map(|i| (i * 7 + 3) as u8).collect();
    let mut buffer = MutableBuffer::new(4096).unwrap();
    buffer.set_len(bytes.len());
    buffer.copy_from_slice(&bytes);
    let executable = buffer.make_exec().unwrap();
    assert_eq!(executable.size(), 4096);
    assert_eq!(&executable[..], &bytes[..]);
    let back = executable.make_mut().unwrap();
    assert_eq!(back.size(), 4096);
    assert_eq!(back.len(), bytes.len());
    assert_eq!(&back[..], &bytes[..]);
}

#[test]
fn bytes_not_in_use_survive_too() {
    let mut buffer = MutableBuffer::new(32).unwrap();
    buffer.set_len(32);
    buffer.copy_from_slice(&[9u8; 32]);
    buffer.set_len(4);
    let mut back = buffer.make_exec().unwrap().make_mut().unwrap();
    assert_eq!(back.len(), 4);
    back.set_len(32);
    assert_eq!(&back[..], &[9u8; 32]);
}

#[test]
fn buffer_can_be_patched_after_it_was_executable() {
    let mut buffer = MutableBuffer::new(4096).unwrap();
    buffer.set_len(8);
    buffer.copy_from_slice(&[0, 0, 0, 0, 0xc0, 0x03, 0x5f, 0xd6]);
    let mut back = buffer.make_exec().unwrap().make_mut().unwrap();
    back[..4].copy_from_slice(&RETURN);
    let executable = back.make_exec().unwrap();
    assert_eq!(&executable[..4], &RETURN);
    assert_eq!(&executable[4..], &RETURN);
}

#[test]
fn pointer_at_zero_is_the_base_of_the_memory() {
    let mut buffer = MutableBuffer::new(4096).unwrap();
    buffer.set_len(4);
    buffer.copy_from_slice(&RETURN);
    let executable = buffer.make_exec().unwrap();
    let base = executable.as_ptr() as usize;
    assert_ne!(base, 0);
    assert_eq!(executable.ptr(AssemblyOffset(0)), base);
    assert_eq!(executable.ptr(AssemblyOffset(3)), base + 3);
    assert!(executable.ptr(AssemblyOffset(3)) > 3);
    assert_eq!(&executable[..4], &RETURN);
}

#[test]
fn address_lies_offset_bytes_behind_the_base() {
    assert_eq!(address_at(0x7000_0000, AssemblyOffset(0)), 0x7000_0000);
    assert_eq!(address_at(0x7000_0000, AssemblyOffset(0x123)), 0x7000_0123);
    assert_eq!(address_at(usize::MAX - 5, AssemblyOffset(5)), usize::MAX);
}

#[test]
fn refused_allocation_is_reported() {
    assert!(matches!(MutableBuffer::new(usize::MAX), Err(BufferError::AllocationFailure(_))));
    assert!(matches!(ExecutableBuffer::new(usize::MAX), Err(BufferError::AllocationFailure(_))));
}

#[test]
fn refused_allocation_keeps_its_cause() {
    let refused = Err(Error::new(ErrorKind::OutOfMemory, "no memory"));
    match MutableBuffer::allocated(refused) {
        Err(BufferError::AllocationFailure(cause)) => {
            assert_eq!(cause.kind(), ErrorKind::OutOfMemory);
            assert_eq!(cause.to_string(), "no memory");
        }
        other => panic!("unexpected outcome: {:?}", other),
    }
    let refused = Err(Error::from_raw_os_error(12));
    match MutableBuffer::allocated(refused) {
        Err(failure) => assert_eq!(failure.into_io_error().raw_os_error(), Some(12)),
        Ok(_) => panic!("a refusal made a buffer"),
    }
}

#[test]
fn granted_allocation_becomes_the_buffer() {
    let buffer = MutableBuffer::allocated(MmapMut::map_anon(100)).unwrap();
    assert_eq!(buffer.size(), 100);
    assert_eq!(buffer.len(), 0);
}

#[test]
fn refused_change_to_executable_is_reported() {
    let refused = Err(Error::new(ErrorKind::PermissionDenied, "no execution"));
    match ExecutableBuffer::made_executable(4, refused) {
        Err(BufferError::ProtectionTransitionFailure(cause)) => {
            assert_eq!(cause.kind(), ErrorKind::PermissionDenied);
            assert_eq!(cause.to_string(), "no execution");
        }
        other => panic!("unexpected outcome: {:?}", other),
    }
}

#[test]
fn refused_change_to_writable_is_reported() {
    let refused = Err(Error::from_raw_os_error(13));
    match MutableBuffer::made_writable(4, refused) {
        Err(BufferError::ProtectionTransitionFailure(cause)) => {
            assert_eq!(cause.raw_os_error(), Some(13));
        }
        other => panic!("unexpected outcome: {:?}", other),
    }
}

#[test]
fn cause_is_handed_out() {
    let failure = BufferError::ProtectionTransitionFailure(Error::new(ErrorKind::Other, "refused"));
    assert_eq!(failure.into_io_error().to_string(), "refused");
    let failure = BufferError::AllocationFailure(Error::from_raw_os_error(12));
    assert_eq!(failure.into_io_error().raw_os_error(), Some(12));
}

#[test]
fn granted_change_becomes_the_buffer() {
    let mut map = MmapMut::map_anon(16).unwrap();
    map[..4].copy_from_slice(&RETURN);
    let executable = ExecutableBuffer::made_executable(4, map.make_exec()).unwrap();
    assert_eq!(executable.size(), 16);
    assert_eq!(&executable[..], &RETURN);
    let mut map = MmapMut::map_anon(16).unwrap();
    map[..4].copy_from_slice(&RETURN);
    let writable = MutableBuffer::made_writable(2, Ok(map)).unwrap();
    assert_eq!(writable.size(), 16);
    assert_eq!(&writable[..], &RETURN[..2]);
}

#[test]
fn coherent_cache_needs_nothing() {
    let bytes = [1u8, 2, 3, 4, 5, 6, 7, 8];
    invalidate_icache_lines(&bytes);
    invalidate_icache_lines(&bytes[..0]);
    invalidate_pipeline();
    invalidate_pipeline();
    assert_eq!(bytes, [1u8, 2, 3, 4, 5, 6, 7, 8]);
}
