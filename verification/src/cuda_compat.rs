//! Memory and devices of a build without CUDA.
use vstd::prelude::*;

use crate::sharding::{ceil_div, div_ceil, lemma_ceil_div};

verus! {

/// The number of a CUDA device.
#[derive(Clone, Copy, Debug, PartialEq, Eq, Hash, Structural)]
pub struct CudaDeviceId(pub u8);

/// Where memory lives.
#[derive(Clone, Copy, Debug, PartialEq, Eq, Hash, Structural)]
pub enum Device {
    Host,
    Cuda(CudaDeviceId),
}

/// A flag that a peer device can observe.
#[derive(Debug)]
pub struct GdrFlag {
    pub value: bool,
}

impl Default for GdrFlag {
    fn default() -> (flag: Self)
        ensures
            !flag.value,
    {
        GdrFlag { value: false }
    }
}

impl GdrFlag {
    pub fn set(&mut self, value: bool)
        ensures
            final(self).value == value,
    {
        self.value = value;
    }
}

/// The driver interface was called without a driver.
#[derive(Clone, Debug)]
pub struct CudaDriverError {
    pub detail: &'static str,
}

/// The runtime interface was called without a runtime.
#[derive(Clone, Debug)]
pub struct CudartError {
    pub detail: &'static str,
}

/// Exports a range as a DMA-BUF: without CUDA there is none.
pub fn cu_get_dma_buf_fd(_ptr: u64, _len: usize) -> (fd: Result<i32, CudaDriverError>)
    ensures
        fd == Err::<i32, CudaDriverError>(
            (CudaDriverError { detail: "DMA-BUF export requires the 'cuda' feature" }),
        ),
{
    Err(CudaDriverError { detail: "DMA-BUF export requires the 'cuda' feature" })
}

/// The type of memory that a CUDA device owns.
#[allow(non_upper_case_globals)]
pub const cudaMemoryTypeDevice: i32 = 0;

/// What the runtime knows of a pointer.
#[derive(Clone, Copy, Debug)]
pub struct CudaPointerAttributes {
    pub type_: i32,
}

/// Inspects a pointer: without CUDA nothing is known of any.
#[allow(non_snake_case)]
pub fn cudaPointerGetAttributes(_ptr: u64) -> (attributes: Result<
    CudaPointerAttributes,
    CudartError,
>)
    ensures
        attributes == Err::<CudaPointerAttributes, CudartError>(
            (CudartError { detail: "CUDA pointer inspection requires the 'cuda' feature" }),
        ),
{
    Err(CudartError { detail: "CUDA pointer inspection requires the 'cuda' feature" })
}

/// The bytes of one word of host memory.
pub const WORD_BYTES: usize = 8;

/// Words of host memory, zero at first.
#[derive(Debug)]
pub struct CudaHostMemory {
    pub storage: Vec<u64>,
    pub size: usize,
}

impl CudaHostMemory {
    /// The words.
    pub open spec fn words(&self) -> Seq<u64> {
        self.storage@
    }

    /// The words hold the bytes that were asked for.
    pub open spec fn wf(&self) -> bool {
        self.words().len() == word_count(self.size)
    }

    /// Allocates the words that hold `size` bytes, and at least one.
    pub fn allocate(size: usize) -> (memory: Result<Self, CudartError>)
        ensures
            memory matches Ok(memory) && memory.wf() && memory.size == size && memory.words()
                == Seq::new(word_count(size), |i: int| 0u64),
    {
        let rounded: usize = div_ceil(size, WORD_BYTES);
        let words: usize = if rounded > 1 {
            rounded
        } else {
            1
        };
        let storage: Vec<u64> = vec![0u64; words];
        assert(storage@ =~= Seq::new(word_count(size), |i: int| 0u64));
        Ok(CudaHostMemory { storage, size })
    }

    pub fn get_ref(&self, index: usize) -> (word: &u64)
        requires
            index < self.words().len(),
        ensures
            *word == self.words()[index as int],
    {
        &self.storage[index]
    }

    pub fn get_mut(&mut self, index: usize) -> (word: &mut u64)
        requires
            index < old(self).words().len(),
        ensures
            *word == old(self).words()[index as int],
            final(self).words() == old(self).words().update(index as int, *final(word)),
            final(self).size == old(self).size,
    {
        &mut self.storage[index]
    }
}

/// The words that hold `size` bytes; never none.
pub open spec fn word_count(size: usize) -> nat {
    if ceil_div(size as int, WORD_BYTES as int) > 1 {
        ceil_div(size as int, WORD_BYTES as int) as nat
    } else {
        1
    }
}

/// The words are as few as hold the bytes that were asked for, but never none.
pub proof fn words_hold_the_bytes(size: usize)
    ensures
        word_count(size) >= 1,
        word_count(size) * 8 >= size,
        word_count(size) > 1 ==> (word_count(size) - 1) * 8 < size,
{
    lemma_ceil_div(size as int, 8);
}

} // verus!
