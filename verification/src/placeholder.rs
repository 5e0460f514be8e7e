//! The content codes of an image, from which a worker without model makes
//! a stand-in embedding.
//!
//! The image is cut into chunks of equal length, as many bytes as go into
//! it 512 times and at least one. Each of the first 512 chunks gives one
//! code: the sum of its bytes, modulo 2000.
use vstd::prelude::*;

verus! {

/// The number of codes.
pub const CODE_COUNT: usize = 512;

/// The length of a chunk of an image of `total` bytes.
pub open spec fn chunk_len(total: nat) -> nat {
    if total / 512 > 1 {
        total / 512
    } else {
        1
    }
}

/// The sum of `bytes`.
pub open spec fn byte_sum(bytes: Seq<u8>) -> nat
    decreases bytes.len(),
{
    if bytes.len() == 0 {
        0
    } else {
        byte_sum(bytes.drop_last()) + bytes.last() as nat
    }
}

/// Chunk `i` of `data`; the last chunk may be shorter than the others.
pub open spec fn chunk(data: Seq<u8>, i: int) -> Seq<u8> {
    let len = chunk_len(data.len()) as int;
    let end = if (i + 1) * len < data.len() {
        (i + 1) * len
    } else {
        data.len() as int
    };
    data.subrange(i * len, end)
}

/// The code of chunk `i` of `data`, if the image has that many chunks.
pub open spec fn chunk_code(data: Seq<u8>, i: int) -> Option<u32> {
    if 0 <= i && i * chunk_len(data.len()) < data.len() {
        Some((byte_sum(chunk(data, i)) % 2000) as u32)
    } else {
        None
    }
}

/// The codes of the first 512 chunks of `image_data`.
pub fn placeholder_codes(image_data: &[u8]) -> (codes: Vec<Option<u32>>)
    ensures
        codes.len() == CODE_COUNT,
        forall|i: int| 0 <= i < CODE_COUNT ==> codes[i] == chunk_code(image_data@, i),
{
    let n = image_data.len();
    let len: usize = if n / 512 > 1 {
        n / 512
    } else {
        1
    };
    let mut codes: Vec<Option<u32>> = Vec::new();
    let mut i: usize = 0;
    while i < 512
        invariant
            i <= 512,
            n == image_data.len(),
            len == chunk_len(n as nat),
            codes.len() == i,
            forall|k: int| 0 <= k < i ==> codes[k] == chunk_code(image_data@, k),
        decreases 512 - i,
    {
        assert(i * len <= 511 * len && (i + 1) * len == i * len + len) by (nonlinear_arith)
            requires
                i <= 511,
                len >= 1,
        ;
        let start = i * len;
        if start >= n {
            codes.push(None);
        } else {
            let end = if n - start < len {
                n
            } else {
                start + len
            };
            let mut sum: u64 = 0;
            let mut k: usize = start;
            assert(image_data@.subrange(start as int, start as int) =~= Seq::<u8>::empty());
            while k < end
                invariant
                    start <= k <= end <= n,
                    n == image_data.len(),
                    end - start <= len,
                    len == chunk_len(n as nat),
                    sum == byte_sum(image_data@.subrange(start as int, k as int)),
                    sum <= 255 * (k - start),
                decreases end - k,
            {
                assert(image_data@.subrange(start as int, k + 1).drop_last()
                    =~= image_data@.subrange(start as int, k as int));
                sum = sum + image_data[k] as u64;
                k += 1;
            }
            assert(chunk(image_data@, i as int) == image_data@.subrange(start as int, end as int));
            codes.push(Some((sum % 2000) as u32));
        }
        i += 1;
    }
    codes
}

} // verus!
