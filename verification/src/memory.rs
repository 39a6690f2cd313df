//! The default RAM backing: a flat, fixed-size, zero-initialized byte
//! array. Bytes are stored and returned in storage order; any
//! endianness interpretation is the caller's.

use crate::error::VmError;
use crate::memory_mapper::{DevView, MemoryMappable};
use vstd::pervasive::VecAdditionalExecFns;
use vstd::prelude::*;

verus! {

pub struct Memory {
    memory: Vec<u8>,
}

impl View for Memory {
    type V = Seq<u8>;

    closed spec fn view(&self) -> Seq<u8> {
        self.memory@
    }
}

impl Memory {
    /// A memory of the given size, all zero.
    pub fn new(size: usize) -> (r: Self)
        ensures
            r@.len() == size,
            forall|i: int| 0 <= i < size ==> r@[i] == 0u8,
    {
        let v: Vec<u8> = vec![0u8; size];
        Memory { memory: v }
    }

    pub fn get_size(&self) -> (r: usize)
        ensures
            r == self@.len(),
    {
        self.memory.len()
    }
}

impl MemoryMappable for Memory {
    open spec fn dev(&self) -> DevView {
        DevView::Mem { bytes: self@ }
    }

    fn get_byte(&self, address: u32) -> (r: Result<[u8; 1], VmError>) {
        if (address as usize) < self.memory.len() {
            let b: [u8; 1] = [self.memory[address as usize]];
            proof {
                assert(b@ =~= seq![self@[address as int]]);
            }
            Ok(b)
        } else {
            Err(VmError::OutOfBounds)
        }
    }

    fn get_half_word(&self, address: u32) -> (r: Result<[u8; 2], VmError>) {
        if (address as u64) + 1 < self.memory.len() as u64 {
            let a = address as usize;
            let b: [u8; 2] = [self.memory[a], self.memory[a + 1]];
            proof {
                assert(b@ =~= seq![self@[address as int], self@[address + 1]]);
            }
            Ok(b)
        } else {
            Err(VmError::OutOfBounds)
        }
    }

    fn get_word(&self, address: u32) -> (r: Result<[u8; 4], VmError>) {
        if (address as u64) + 3 < self.memory.len() as u64 {
            let a = address as usize;
            let b: [u8; 4] = [self.memory[a], self.memory[a + 1], self.memory[a + 2], self.memory[a
                + 3]];
            proof {
                assert(b@ =~= seq![
                    self@[address as int],
                    self@[address + 1],
                    self@[address + 2],
                    self@[address + 3],
                ]);
            }
            Ok(b)
        } else {
            Err(VmError::OutOfBounds)
        }
    }

    fn write_byte(&mut self, address: u32, value: [u8; 1]) -> (r: Result<(), VmError>) {
        if (address as usize) < self.memory.len() {
            self.memory.set(address as usize, value[0]);
            Ok(())
        } else {
            Err(VmError::OutOfBounds)
        }
    }

    fn write_half_word(&mut self, address: u32, value: [u8; 2]) -> (r: Result<(), VmError>) {
        if (address as u64) + 1 < self.memory.len() as u64 {
            let a = address as usize;
            self.memory.set(a, value[0]);
            self.memory.set(a + 1, value[1]);
            Ok(())
        } else {
            Err(VmError::OutOfBounds)
        }
    }

    fn write_word(&mut self, address: u32, value: [u8; 4]) -> (r: Result<(), VmError>) {
        if (address as u64) + 3 < self.memory.len() as u64 {
            let a = address as usize;
            self.memory.set(a, value[0]);
            self.memory.set(a + 1, value[1]);
            self.memory.set(a + 2, value[2]);
            self.memory.set(a + 3, value[3]);
            Ok(())
        } else {
            Err(VmError::OutOfBounds)
        }
    }
}

} // verus!
