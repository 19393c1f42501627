//! The partial fingerprint of a file: a fast hash over a bounded window at
//! its two ends. Two files with one fingerprint are probable duplicates, no
//! more: what lies between the windows is never read.

use vstd::prelude::*;
use vstd::slice::slice_subrange;

verus! {

/// The length of the window at each end of a file, in bytes.
pub const WINDOW: u64 = 1024;

/// The start value of the hash (FNV-1a, 64 bits).
pub const HASH_BASIS: u64 = 0xcbf2_9ce4_8422_2325;

/// The multiplier of the hash (FNV-1a, 64 bits).
pub const HASH_PRIME: u64 = 0x0000_0100_0000_01b3;

/// The hash state after one more byte: the byte is xor-ed in, and the state
/// multiplied by the prime, modulo 2^64.
pub open spec fn hash_step(state: u64, byte: u8) -> u64 {
    (((state ^ (byte as u64)) * HASH_PRIME) % 0x1_0000_0000_0000_0000) as u64
}

/// The hash state after `bytes`, from `state` on.
pub open spec fn hash_from(state: u64, bytes: Seq<u8>) -> u64
    decreases bytes.len(),
{
    if bytes.len() == 0 {
        state
    } else {
        hash_step(hash_from(state, bytes.drop_last()), bytes.last())
    }
}

/// The hash of `bytes`.
pub open spec fn hash_of(bytes: Seq<u8>) -> u64 {
    hash_from(HASH_BASIS, bytes)
}

/// The leading window of `content`: its first 1024 bytes, or all of it.
pub open spec fn head_window(content: Seq<u8>) -> Seq<u8> {
    if content.len() <= WINDOW {
        content
    } else {
        content.subrange(0, WINDOW as int)
    }
}

/// The trailing window of `content`: its last 1024 bytes where it holds more
/// than 2048, and nothing otherwise.
pub open spec fn tail_window(content: Seq<u8>) -> Seq<u8> {
    if content.len() > 2 * WINDOW {
        content.subrange(content.len() - WINDOW, content.len() as int)
    } else {
        Seq::empty()
    }
}

/// What of `content` is hashed: the leading window, then the trailing one.
pub open spec fn window_of(content: Seq<u8>) -> Seq<u8> {
    head_window(content) + tail_window(content)
}

/// The fingerprint of a file with the content `content`.
pub open spec fn fingerprint_of(content: Seq<u8>) -> u64 {
    hash_of(window_of(content))
}

/// Hashing a sequence is hashing its front, then going on with its back.
pub proof fn lemma_hash_concat(state: u64, front: Seq<u8>, back: Seq<u8>)
    ensures
        hash_from(state, front + back) == hash_from(hash_from(state, front), back),
    decreases back.len(),
{
    if back.len() == 0 {
        assert(front + back =~= front);
    } else {
        lemma_hash_concat(state, front, back.drop_last());
        assert((front + back).drop_last() =~= front + back.drop_last());
        assert((front + back).last() == back.last());
    }
}

/// A file of at most 2048 bytes is fingerprinted by its first 1024 bytes
/// alone: its trailing window is empty.
pub proof fn lemma_short_file_window(content: Seq<u8>)
    requires
        content.len() <= 2 * WINDOW,
    ensures
        tail_window(content) == Seq::<u8>::empty(),
        window_of(content) == head_window(content),
        fingerprint_of(content) == hash_of(head_window(content)),
{
    assert(head_window(content) + Seq::<u8>::empty() =~= head_window(content));
}

/// Two files of one length that agree in their first 1024 bytes and, where
/// they hold more than 2048, in their last 1024, have one fingerprint,
/// whatever lies between.
pub proof fn lemma_fingerprint_ignores_middle(first: Seq<u8>, second: Seq<u8>)
    requires
        first.len() == second.len(),
        head_window(first) == head_window(second),
        tail_window(first) == tail_window(second),
    ensures
        fingerprint_of(first) == fingerprint_of(second),
{
}

/// What to read of a file before it can be fingerprinted.
#[derive(Clone, Copy, Debug, PartialEq, Eq, Structural)]
pub struct ReadPlan {
    /// The number of bytes to read from the start.
    pub head_len: u64,
    /// Where the trailing window starts; as far as the end where there is
    /// none.
    pub tail_offset: u64,
    /// The number of bytes to read from `tail_offset`; zero where the file
    /// has no trailing window.
    pub tail_len: u64,
}

/// The plan for a file of `len` bytes.
pub open spec fn plan_for(len: u64) -> ReadPlan {
    ReadPlan {
        head_len: if len <= WINDOW {
            len
        } else {
            WINDOW
        },
        tail_offset: if len > 2 * WINDOW {
            (len - WINDOW) as u64
        } else {
            len
        },
        tail_len: if len > 2 * WINDOW {
            WINDOW
        } else {
            0
        },
    }
}

/// What is read by the plan of a file is what its fingerprint hashes.
pub proof fn lemma_plan_reads_window(content: Seq<u8>)
    requires
        content.len() <= u64::MAX,
    ensures
        ({
            let plan = plan_for(content.len() as u64);
            &&& head_window(content) == content.subrange(0, plan.head_len as int)
            &&& tail_window(content) == content.subrange(
                plan.tail_offset as int,
                plan.tail_offset + plan.tail_len,
            )
        }),
{
    let plan = plan_for(content.len() as u64);
    assert(head_window(content) =~= content.subrange(0, plan.head_len as int));
    assert(tail_window(content) =~= content.subrange(
        plan.tail_offset as int,
        plan.tail_offset + plan.tail_len,
    ));
}

/// The plan for a file of `len` bytes: the first 1024 bytes, or all of them,
/// and the last 1024 only where the file holds more than 2048.
pub fn read_plan(len: u64) -> (plan: ReadPlan)
    ensures
        plan == plan_for(len),
{
    ReadPlan {
        head_len: if len <= WINDOW {
            len
        } else {
            WINDOW
        },
        tail_offset: if len > 2 * WINDOW {
            len - WINDOW
        } else {
            len
        },
        tail_len: if len > 2 * WINDOW {
            WINDOW
        } else {
            0
        },
    }
}

/// The hash state after `bytes`, from `state` on.
pub fn hash_more(state: u64, bytes: &[u8]) -> (next: u64)
    ensures
        next == hash_from(state, bytes@),
{
    let mut hash: u64 = state;
    let mut i: usize = 0;
    proof {
        assert(bytes@.subrange(0, 0) =~= Seq::<u8>::empty());
    }
    while i < bytes.len()
        invariant
            i <= bytes.len(),
            hash == hash_from(state, bytes@.subrange(0, i as int)),
        decreases bytes.len() - i,
    {
        proof {
            let next = bytes@.subrange(0, i + 1);
            assert(next.drop_last() =~= bytes@.subrange(0, i as int));
            assert(next.last() == bytes@[i as int]);
        }
        hash = (hash ^ (bytes[i] as u64)).wrapping_mul(HASH_PRIME);
        i += 1;
    }
    proof {
        assert(bytes@.subrange(0, bytes@.len() as int) =~= bytes@);
    }
    hash
}

/// The fingerprint of a file whose windows were read as `head` and `tail`.
pub fn fingerprint(head: &[u8], tail: &[u8]) -> (print: u64)
    ensures
        print == hash_of(head@ + tail@),
{
    proof {
        lemma_hash_concat(HASH_BASIS, head@, tail@);
    }
    hash_more(hash_more(HASH_BASIS, head), tail)
}

/// The fingerprint of a file whose whole content is at hand.
pub fn fingerprint_content(content: &[u8]) -> (print: u64)
    ensures
        print == fingerprint_of(content@),
{
    let len = content.len();
    if len <= 1024 {
        proof {
            assert(content@ + Seq::<u8>::empty() =~= content@);
        }
        hash_more(HASH_BASIS, content)
    } else if len <= 2048 {
        proof {
            lemma_short_file_window(content@);
        }
        hash_more(HASH_BASIS, slice_subrange(content, 0, 1024))
    } else {
        fingerprint(slice_subrange(content, 0, 1024), slice_subrange(content, len - 1024, len))
    }
}

} // verus!
