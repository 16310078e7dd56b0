use crate::digest::{digest_fed, hex_of, sha256_of, StreamDigest};
use crate::protocol::TransferStatus;
use crate::game::ids_view;
use crate::text::{lemma_seq_lt_irreflexive, lemma_seq_lt_transitive, seq_lt, str_eq, str_lt};
use vstd::prelude::*;

verus! {

/// The largest header frame a device reads, in bytes.
pub const MAX_FRAME_LEN: u32 = 131072;

/// The four big-endian bytes of `n`.
pub open spec fn be_bytes(n: u32) -> Seq<u8> {
    seq![
        ((n >> 24u32) & 0xffu32) as u8,
        ((n >> 16u32) & 0xffu32) as u8,
        ((n >> 8u32) & 0xffu32) as u8,
        (n & 0xffu32) as u8,
    ]
}

/// The number four big-endian bytes write.
pub open spec fn be_value(b0: u8, b1: u8, b2: u8, b3: u8) -> u32 {
    ((b0 as u32) << 24u32) | ((b1 as u32) << 16u32) | ((b2 as u32) << 8u32) | (b3 as u32)
}

/// The prefix that gives a header frame's length: its length as four
/// big-endian bytes, for a header whose length fits in 32 bits.
pub fn frame_prefix(len: usize) -> (r: Result<Vec<u8>, String>)
    ensures
        match r {
            Ok(b) => len <= u32::MAX && b@ == be_bytes(len as u32),
            Err(e) => len > u32::MAX && e@ == "传输头过大"@,
        },
{
    if len > 4294967295usize {
        return Err("传输头过大".to_string());
    }
    let n = len as u32;
    let mut b: Vec<u8> = Vec::new();
    b.push(((n >> 24u32) & 0xffu32) as u8);
    b.push(((n >> 16u32) & 0xffu32) as u8);
    b.push(((n >> 8u32) & 0xffu32) as u8);
    b.push((n & 0xffu32) as u8);
    assert(b@ =~= be_bytes(n));
    Ok(b)
}

/// The length of the header that a length prefix announces, which must be
/// neither zero nor above 128 KiB.
pub fn frame_payload_len(prefix: [u8; 4]) -> (r: Result<u32, String>)
    ensures
        ({
            let n = be_value(prefix[0], prefix[1], prefix[2], prefix[3]);
            &&& 0 < n <= MAX_FRAME_LEN ==> r == Ok::<u32, String>(n)
            &&& !(0 < n <= MAX_FRAME_LEN) ==> (r matches Err(e) && e@ == "传输头长度非法"@)
        }),
{
    let n = ((prefix[0] as u32) << 24u32) | ((prefix[1] as u32) << 16u32) | ((prefix[2] as u32)
        << 8u32) | (prefix[3] as u32);
    if n == 0 || n > MAX_FRAME_LEN {
        Err("传输头长度非法".to_string())
    } else {
        Ok(n)
    }
}

/// A header's length read back from its prefix is the length written.
pub proof fn law_frame_length_reads_back(n: u32)
    ensures
        be_value(be_bytes(n)[0], be_bytes(n)[1], be_bytes(n)[2], be_bytes(n)[3]) == n,
{
    let b0 = ((n >> 24u32) & 0xffu32) as u8;
    let b1 = ((n >> 16u32) & 0xffu32) as u8;
    let b2 = ((n >> 8u32) & 0xffu32) as u8;
    let b3 = (n & 0xffu32) as u8;
    assert(((((n >> 24u32) & 0xffu32) as u8) as u32) << 24u32 | ((((n >> 16u32) & 0xffu32) as u8)
        as u32) << 16u32 | ((((n >> 8u32) & 0xffu32) as u8) as u32) << 8u32 | (((n & 0xffu32)
        as u8) as u32) == n) by (bit_vector);
}

/// How many bytes the next read of a file asks for: what is left, at most a
/// buffer's worth.
pub fn next_read_size(total: u64, done: u64, buffer: usize) -> (r: usize)
    requires
        done <= total,
    ensures
        r as int == if total - done < buffer {
            total - done
        } else {
            buffer as int
        },
{
    let left = total - done;
    if left < buffer as u64 {
        left as usize
    } else {
        buffer
    }
}

/// Whether a transfer is still under way, and so kept when finished
/// transfers are cleared.
pub fn is_unfinished(status: TransferStatus) -> (r: bool)
    ensures
        r == (status == TransferStatus::Pending || status == TransferStatus::WaitingForReceiver
            || status == TransferStatus::Transferring),
{
    match status {
        TransferStatus::Pending | TransferStatus::WaitingForReceiver | TransferStatus::Transferring => true,
        _ => false,
    }
}

/// Checks a received file's digest against the one its sender announced.
pub fn check_received_hash(actual: &str, expected: &str) -> (r: Result<(), String>)
    ensures
        r is Ok <==> actual@ == expected@,
        r matches Err(e) ==> e@ == "SHA256 校验失败，文件可能已损坏"@,
{
    if str_eq(actual, expected) {
        Ok(())
    } else {
        Err("SHA256 校验失败，文件可能已损坏".to_string())
    }
}

/// Checks the digest of the bytes received against the one their sender
/// announced.
pub fn check_received_digest(received: StreamDigest, expected: &str) -> (r: Result<(), String>)
    ensures
        r is Ok <==> hex_of(sha256_of(digest_fed(received))) == expected@,
        r matches Err(e) ==> e@ == "SHA256 校验失败，文件可能已损坏"@,
{
    let actual = received.finish_hex();
    check_received_hash(&actual, expected)
}

/// Ids from the greatest down, as transfers are listed: no id comes before a
/// greater one.
pub open spec fn ids_descending(ids: Seq<Seq<char>>) -> bool {
    forall|i: int, j: int| 0 <= i < j < ids.len() ==> !seq_lt(#[trigger] ids[i], #[trigger] ids[j])
}

/// Orders transfer ids newest first: from the greatest id down.
pub fn ids_newest_first(ids: Vec<String>) -> (r: Vec<String>)
    ensures
        ids_view(r@).to_multiset() == ids_view(ids@).to_multiset(),
        ids_descending(ids_view(r@)),
{
    let ghost input = ids_view(ids@);
    let mut out: Vec<String> = Vec::new();
    let mut i: usize = 0;
    assert(ids_view(out@) =~= input.take(0));
    while i < ids.len()
        invariant
            i <= ids@.len(),
            input == ids_view(ids@),
            ids_view(out@).to_multiset() == input.take(i as int).to_multiset(),
            ids_descending(ids_view(out@)),
        decreases ids.len() - i,
    {
        let item = ids[i].clone();
        let ghost x = item@;
        assert(x == input[i as int]);
        let ghost cur = ids_view(out@);
        let mut p: usize = 0;
        while p < out.len() && !str_lt(out[p].as_str(), item.as_str())
            invariant
                p <= out@.len(),
                cur == ids_view(out@),
                x == item@,
                forall|k: int| 0 <= k < p ==> !seq_lt(#[trigger] cur[k], x),
            decreases out.len() - p,
        {
            assert(cur[p as int] == out@[p as int]@);
            p = p + 1;
        }
        proof {
            if p < cur.len() {
                assert(cur[p as int] == out@[p as int]@);
            }
        }
        out.insert(p, item);
        let ghost next = ids_view(out@);
        assert(next =~= cur.insert(p as int, x));
        proof {
            vstd::seq_lib::to_multiset_insert(cur, p as int, x);
            vstd::seq_lib::to_multiset_build(input.take(i as int), x);
            assert(input.take(i + 1) =~= input.take(i as int).push(x));
            assert forall|a: int, b: int| 0 <= a < b < next.len() implies !seq_lt(#[trigger] next[a], #[trigger] next[b]) by {
                if a < p && b == p {
                    assert(next[a] == cur[a]);
                } else if a == p && b > p {
                    assert(next[b] == cur[b - 1]);
                    if seq_lt(x, cur[b - 1]) {
                        lemma_seq_lt_transitive(cur[p as int], x, cur[b - 1]);
                        if b - 1 > p {
                            assert(!seq_lt(cur[p as int], cur[b - 1]));
                        } else {
                            lemma_seq_lt_irreflexive(cur[p as int]);
                        }
                    }
                } else if a < p && b > p {
                    assert(next[a] == cur[a]);
                    assert(next[b] == cur[b - 1]);
                } else if a > p {
                    assert(next[a] == cur[a - 1]);
                    assert(next[b] == cur[b - 1]);
                } else {
                    assert(next[a] == cur[a]);
                    assert(next[b] == cur[b]);
                }
            }
        }
        i = i + 1;
    }
    assert(input.take(i as int) =~= input);
    out
}

} // verus!
