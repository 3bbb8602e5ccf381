//! Configuration: padding profiles, the default relay constant, and the
//! pairing-offer validity constants.

use vstd::prelude::*;

use crate::error::{CoreError, Result};

verus! {

/// The only relay address literal of the library: the default filled into
/// new conversations.
pub const DEFAULT_RELAY_URL: &'static str = "wss://relay.invalid/v1";

/// Default pairing-offer TTL written by the mint path (1 h).
pub const OFFER_DEFAULT_TTL_S: u32 = 3600;

/// Maximum `ttl_s` an acceptor admits; out-of-range is malformed.
pub const MAX_OFFER_TTL_S: u32 = 86_400;

/// Future-skew grace: an offer with `issued_at > now + FUTURE_SKEW_S` is
/// not yet valid.
pub const FUTURE_SKEW_S: u64 = 300;

/// Length of the inner-frame header (type, version, 4-byte length).
pub const INNER_HEADER_LEN_U32: u32 = 6;

/// Every element is smaller than every later one.
pub open spec fn strictly_increasing(s: Seq<u32>) -> bool {
    forall|i: int, j: int| 0 <= i < j < s.len() ==> s[i] < s[j]
}

/// A valid bucket list: non-empty, strictly increasing, every bucket at
/// least the inner-frame header.
pub open spec fn profile_wf(s: Seq<u32>) -> bool {
    &&& s.len() > 0
    &&& strictly_increasing(s)
    &&& s[0] >= INNER_HEADER_LEN_U32
}

/// The first bucket of `bs` that holds `n` bytes (for a sorted list: the
/// smallest such bucket).
pub open spec fn spec_bucket_for(bs: Seq<u32>, n: int) -> Option<u32>
    decreases bs.len(),
{
    if bs.len() == 0 {
        None
    } else if bs[0] >= n {
        Some(bs[0])
    } else {
        spec_bucket_for(bs.drop_first(), n)
    }
}

/// The largest payload a bucket list can carry.
pub open spec fn spec_max_payload(bs: Seq<u32>) -> int {
    bs.last() - INNER_HEADER_LEN_U32
}

/// What `spec_bucket_for` returns, in terms of positions.
pub proof fn lemma_bucket_for(bs: Seq<u32>, n: int)
    ensures
        spec_bucket_for(bs, n) matches Some(b) ==> exists|i: int|
            0 <= i < bs.len() && bs[i] == b && b >= n && (forall|j: int| 0 <= j < i ==> bs[j] < n),
        spec_bucket_for(bs, n) is None ==> forall|j: int| 0 <= j < bs.len() ==> bs[j] < n,
    decreases bs.len(),
{
    if bs.len() > 0 && bs[0] < n {
        lemma_bucket_for(bs.drop_first(), n);
        if let Some(b) = spec_bucket_for(bs, n) {
            let i = choose|i: int|
                0 <= i < bs.drop_first().len() && bs.drop_first()[i] == b && b >= n && (forall|j: int|
                    0 <= j < i ==> bs.drop_first()[j] < n);
            assert(bs[i + 1] == b);
            assert forall|j: int| 0 <= j < i + 1 implies bs[j] < n by {
                if j > 0 {
                    assert(bs[j] == bs.drop_first()[j - 1]);
                }
            }
        } else {
            assert forall|j: int| 0 <= j < bs.len() implies bs[j] < n by {
                if j > 0 {
                    assert(bs[j] == bs.drop_first()[j - 1]);
                }
            }
        }
    } else if bs.len() > 0 {
        assert(bs[0] >= n);
    }
}

/// In a valid list, a frame that fits the largest bucket gets the smallest
/// bucket that holds it.
pub proof fn lemma_bucket_for_fits(bs: Seq<u32>, n: int)
    requires
        profile_wf(bs),
        n <= bs.last(),
    ensures
        spec_bucket_for(bs, n) matches Some(b) && bs.contains(b) && b >= n && (forall|j: int|
            0 <= j < bs.len() && bs[j] >= n ==> b <= bs[j]),
{
    lemma_bucket_for(bs, n);
    if spec_bucket_for(bs, n) is None {
        assert(bs[bs.len() - 1] < n);
    }
    let b = spec_bucket_for(bs, n)->0;
    let i = choose|i: int|
        0 <= i < bs.len() && bs[i] == b && b >= n && (forall|j: int| 0 <= j < i ==> bs[j] < n);
    assert(bs.contains(b));
    assert forall|j: int| 0 <= j < bs.len() && bs[j] >= n implies b <= bs[j] by {
        if j < i {
        } else if j > i {
            assert(bs[i] < bs[j]);
        }
    }
}

/// A padding profile: the set of allowed inner-frame bucket sizes.
#[derive(Debug)]
pub struct PaddingProfile {
    buckets: Vec<u32>,
}

impl View for PaddingProfile {
    type V = Seq<u32>;

    closed spec fn view(&self) -> Seq<u32> {
        self.buckets@
    }
}

impl Clone for PaddingProfile {
    fn clone(&self) -> (r: Self)
        ensures
            r@ == self@,
    {
        proof {
            use_type_invariant(self);
        }
        let mut buckets: Vec<u32> = Vec::new();
        let mut i: usize = 0;
        while i < self.buckets.len()
            invariant
                i <= self.buckets@.len(),
                buckets@ == self.buckets@.subrange(0, i as int),
            decreases self.buckets@.len() - i,
        {
            buckets.push(self.buckets[i]);
            i = i + 1;
            assert(buckets@ =~= self.buckets@.subrange(0, i as int));
        }
        assert(buckets@ =~= self.buckets@);
        PaddingProfile { buckets }
    }
}

impl PaddingProfile {
    /// The buckets are always a valid list.
    #[verifier::type_invariant]
    pub closed spec fn inv(self) -> bool {
        profile_wf(self.buckets@)
    }

    /// A profile always holds a valid bucket list.
    pub fn check_wf(&self)
        ensures
            profile_wf(self@),
    {
        proof {
            use_type_invariant(self);
        }
    }

    /// The default three-bucket profile (512 / 2048 / 8192).
    pub fn default_profile() -> (p: Self)
        ensures
            p@ == seq![512u32, 2048u32, 8192u32],
    {
        let p = PaddingProfile { buckets: vec![512u32, 2048u32, 8192u32] };
        assert(p.buckets@ =~= seq![512u32, 2048u32, 8192u32]);
        p
    }

    /// A single-bucket profile (all frames padded to `size`).
    pub fn single(size: u32) -> (r: Result<Self>)
        ensures
            r is Ok <==> size >= INNER_HEADER_LEN_U32,
            r matches Ok(p) ==> p@ == seq![size],
            r matches Err(e) ==> e == CoreError::Malformed("invalid padding profile"),
    {
        let mut input: Vec<u32> = Vec::new();
        input.push(size);
        assert(input@ =~= seq![size]);
        assert(seq![size][0] == size);
        let r = Self::new(input);
        proof {
            if let Ok(p) = &r {
                assert(seq![size].contains(size));
                assert(p@.contains(size));
                assert forall|i: int| 0 <= i < p@.len() implies p@[i] == size by {
                    assert(seq![size].contains(p@[i]));
                }
                if p@.len() > 1 {
                    assert(p@[0] < p@[1]);
                }
                assert(p@ =~= seq![size]);
            } else {
                assert(seq![size][0] == size);
            }
        }
        r
    }

    /// Builds a profile from bucket sizes. Sizes are sorted and
    /// deduplicated; every bucket must be at least the inner-frame header.
    pub fn new(buckets: Vec<u32>) -> (r: Result<Self>)
        ensures
            r is Ok <==> (buckets@.len() > 0 && forall|i: int|
                0 <= i < buckets@.len() ==> buckets@[i] >= INNER_HEADER_LEN_U32),
            r matches Ok(p) ==> strictly_increasing(p@) && forall|v: u32|
                p@.contains(v) <==> buckets@.contains(v),
            r matches Err(e) ==> e == CoreError::Malformed("invalid padding profile"),
    {
        let mut sorted: Vec<u32> = Vec::new();
        let mut i: usize = 0;
        while i < buckets.len()
            invariant
                i <= buckets@.len(),
                strictly_increasing(sorted@),
                forall|v: u32| sorted@.contains(v) <==> buckets@.subrange(0, i as int).contains(v),
            decreases buckets@.len() - i,
        {
            let x = buckets[i];
            let mut j: usize = 0;
            while j < sorted.len() && sorted[j] < x
                invariant
                    j <= sorted@.len(),
                    forall|k: int| 0 <= k < j ==> sorted@[k] < x,
                decreases sorted@.len() - j,
            {
                j = j + 1;
            }
            let ghost before = sorted@;
            if j < sorted.len() && sorted[j] == x {
            } else {
                sorted.insert(j, x);
                proof {
                    assert forall|a: int, b: int| 0 <= a < b < sorted@.len() implies sorted@[a]
                        < sorted@[b] by {
                        if b < j {
                            assert(sorted@[a] == before[a]);
                            assert(sorted@[b] == before[b]);
                        } else if a > j {
                            assert(sorted@[a] == before[a - 1]);
                            assert(sorted@[b] == before[b - 1]);
                        } else if a == j {
                            assert(sorted@[b] == before[b - 1]);
                        } else {
                            assert(sorted@[a] == before[a]);
                            if b > j {
                                assert(sorted@[b] == before[b - 1]);
                            }
                        }
                    }
                }
            }
            proof {
                let prefix = buckets@.subrange(0, i as int);
                let next = buckets@.subrange(0, i + 1);
                assert(next =~= prefix.push(x));
                assert forall|v: u32| sorted@.contains(v) <==> next.contains(v) by {
                    if sorted@.contains(v) {
                        let k = choose|k: int| 0 <= k < sorted@.len() && sorted@[k] == v;
                        if v != x {
                            if before.len() < sorted@.len() {
                                if k < j {
                                    assert(before[k] == v);
                                } else {
                                    assert(before[k - 1] == v);
                                }
                            }
                            assert(before.contains(v));
                            assert(prefix.contains(v));
                            let m = choose|m: int| 0 <= m < prefix.len() && prefix[m] == v;
                            assert(next[m] == v);
                        } else {
                            assert(next[i as int] == x);
                        }
                    }
                    if next.contains(v) {
                        let m = choose|m: int| 0 <= m < next.len() && next[m] == v;
                        if m < i {
                            assert(prefix[m] == v);
                            assert(prefix.contains(v));
                            assert(before.contains(v));
                            let k = choose|k: int| 0 <= k < before.len() && before[k] == v;
                            if before.len() < sorted@.len() {
                                if k < j {
                                    assert(sorted@[k] == v);
                                } else {
                                    assert(sorted@[k + 1] == v);
                                }
                            } else {
                                assert(sorted@[k] == v);
                            }
                        } else {
                            assert(v == x);
                            if before.len() < sorted@.len() {
                                assert(sorted@[j as int] == x);
                            } else {
                                assert(sorted@[j as int] == x);
                            }
                        }
                    }
                }
            }
            i = i + 1;
        }
        assert(buckets@.subrange(0, buckets@.len() as int) =~= buckets@);
        assert(forall|v: u32| sorted@.contains(v) <==> buckets@.contains(v));
        if sorted.len() == 0 || sorted[0] < INNER_HEADER_LEN_U32 {
            proof {
                if sorted@.len() > 0 {
                    assert(sorted@.contains(sorted@[0]));
                    assert(buckets@.contains(sorted@[0]));
                    let m = choose|m: int| 0 <= m < buckets@.len() && buckets@[m] == sorted@[0];
                    assert(buckets@[m] < INNER_HEADER_LEN_U32);
                } else if buckets@.len() > 0 {
                    assert(buckets@.contains(buckets@[0]));
                    assert(sorted@.contains(buckets@[0]));
                }
            }
            return Err(CoreError::Malformed("invalid padding profile"));
        }
        proof {
            assert(sorted@.contains(sorted@[0]));
            assert(buckets@.contains(sorted@[0]));
            assert forall|k: int| 0 <= k < buckets@.len() implies buckets@[k]
                >= INNER_HEADER_LEN_U32 by {
                assert(buckets@.contains(buckets@[k]));
                assert(sorted@.contains(buckets@[k]));
                let m = choose|m: int| 0 <= m < sorted@.len() && sorted@[m] == buckets@[k];
                if m > 0 {
                    assert(sorted@[0] < sorted@[m]);
                }
            }
        }
        Ok(PaddingProfile { buckets: sorted })
    }

    /// The bucket sizes, ascending.
    pub fn buckets(&self) -> (r: &[u32])
        ensures
            r@ == self@,
    {
        self.buckets.as_slice()
    }

    /// Smallest bucket that holds an inner frame of `frame_len` bytes, or
    /// `None` if it exceeds the largest.
    pub fn bucket_for(&self, frame_len: u32) -> (r: Option<u32>)
        ensures
            r == spec_bucket_for(self@, frame_len as int),
    {
        let mut i: usize = 0;
        assert(self.buckets@.subrange(0, self.buckets@.len() as int) =~= self.buckets@);
        while i < self.buckets.len()
            invariant
                i <= self.buckets@.len(),
                spec_bucket_for(self.buckets@, frame_len as int) == spec_bucket_for(
                    self.buckets@.subrange(i as int, self.buckets@.len() as int),
                    frame_len as int,
                ),
            decreases self.buckets@.len() - i,
        {
            let b = self.buckets[i];
            let ghost rest = self.buckets@.subrange(i as int, self.buckets@.len() as int);
            if b >= frame_len {
                return Some(b);
            }
            assert(rest.drop_first() =~= self.buckets@.subrange(i + 1, self.buckets@.len() as int));
            i = i + 1;
        }
        None
    }

    /// `true` if `len` is exactly one of the configured buckets.
    pub fn is_bucket(&self, len: u32) -> (r: bool)
        ensures
            r == self@.contains(len),
    {
        let mut i: usize = 0;
        while i < self.buckets.len()
            invariant
                i <= self.buckets@.len(),
                forall|k: int| 0 <= k < i ==> self.buckets@[k] != len,
            decreases self.buckets@.len() - i,
        {
            if self.buckets[i] == len {
                return true;
            }
            i = i + 1;
        }
        false
    }

    /// Maximum payload size this profile can carry.
    pub fn max_payload(&self) -> (r: u32)
        ensures
            r == spec_max_payload(self@),
    {
        proof {
            use_type_invariant(self);
            if self.buckets@.len() > 1 {
                assert(self.buckets@[0] < self.buckets@[self.buckets@.len() - 1]);
            }
        }
        self.buckets[self.buckets.len() - 1] - INNER_HEADER_LEN_U32
    }
}

} // verus!
