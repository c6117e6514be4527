use vstd::prelude::*;
use vstd::slice::slice_subrange;

verus! {

/// The reflected IEEE 802.3 polynomial.
pub const CRC_POLY: u32 = 0xEDB88320;

/// The complement applied to the register at the start and at the end.
pub const FINAL_XOR: u32 = 0xFFFFFFFF;

/// One shift of the CRC register, consuming one (already xored-in) bit.
pub open spec fn crc_step(c: u32) -> u32 {
    if c & 1 == 1 {
        (c >> 1) ^ CRC_POLY
    } else {
        c >> 1
    }
}

/// `n` shifts of the CRC register.
pub open spec fn crc_steps(c: u32, n: nat) -> u32
    decreases n,
{
    if n == 0 {
        c
    } else {
        crc_step(crc_steps(c, (n - 1) as nat))
    }
}

/// The register after folding in one byte.
pub open spec fn crc_byte(c: u32, b: u8) -> u32 {
    crc_steps(c ^ (b as u32), 8)
}

/// The register after folding in `bytes`, first byte first.
pub open spec fn crc_fold(c: u32, bytes: Seq<u8>) -> u32
    decreases bytes.len(),
{
    if bytes.len() == 0 {
        c
    } else {
        crc_byte(crc_fold(c, bytes.drop_last()), bytes.last())
    }
}

/// The CRC32 of `bytes` when hashing continues from the finished checksum `seed`
/// (a seed of 0 gives the plain CRC32).
pub open spec fn crc32_seeded(seed: u32, bytes: Seq<u8>) -> u32 {
    crc_fold(seed ^ FINAL_XOR, bytes) ^ FINAL_XOR
}

/// The standard CRC32 of `bytes`.
pub open spec fn crc32(bytes: Seq<u8>) -> u32 {
    crc32_seeded(0, bytes)
}

/// Folding two pieces one after the other is folding their concatenation.
pub proof fn lemma_crc_fold_append(c: u32, a: Seq<u8>, b: Seq<u8>)
    ensures
        crc_fold(crc_fold(c, a), b) == crc_fold(c, a + b),
    decreases b.len(),
{
    if b.len() == 0 {
        assert(a + b =~= a);
    } else {
        lemma_crc_fold_append(c, a, b.drop_last());
        assert((a + b).drop_last() =~= a + b.drop_last());
        assert((a + b).last() == b.last());
    }
}

/// Shifts compose: `a` shifts followed by `b` shifts are `a + b` shifts.
pub proof fn lemma_crc_steps_add(c: u32, a: nat, b: nat)
    ensures
        crc_steps(crc_steps(c, a), b) == crc_steps(c, a + b),
    decreases b,
{
    if b > 0 {
        lemma_crc_steps_add(c, a, (b - 1) as nat);
        assert((a + b - 1) as nat == a + (b - 1) as nat);
    }
}

/// The register update of `bytes`, starting from the running register `state`.
pub fn crc32_update(state: u32, bytes: &[u8]) -> (r: u32)
    ensures
        r == crc_fold(state, bytes@),
{
    let mut c: u32 = state;
    let mut i: usize = 0;
    while i < bytes.len()
        invariant
            i <= bytes.len(),
            c == crc_fold(state, bytes@.subrange(0, i as int)),
        decreases bytes.len() - i,
    {
        let ghost before = c;
        c = c ^ (bytes[i] as u32);
        let ghost start = c;
        let mut j: usize = 0;
        while j < 8
            invariant
                j <= 8,
                c == crc_steps(start, j as nat),
            decreases 8 - j,
        {
            if c & 1 == 1 {
                c = (c >> 1) ^ CRC_POLY;
            } else {
                c = c >> 1;
            }
            j = j + 1;
        }
        proof {
            let next = bytes@.subrange(0, i + 1);
            assert(next.drop_last() =~= bytes@.subrange(0, i as int));
            assert(next.last() == bytes@[i as int]);
        }
        i = i + 1;
    }
    assert(bytes@.subrange(0, bytes.len() as int) =~= bytes@);
    c
}

/// The published checksum of the running register `state`.
pub fn finalize_crc32(state: u32) -> (r: u32)
    ensures
        r == state ^ FINAL_XOR,
{
    state ^ FINAL_XOR
}

/// Percentage of the input consumed: 100 once everything (or more) has been read,
/// and for an input of unknown or zero size.
pub open spec fn progress_of(consumed: nat, total: nat) -> nat {
    if consumed >= total {
        100
    } else {
        consumed * 100 / total
    }
}

/// An incremental CRC32 computation over a byte source of a known total size.
pub struct StreamingChecksum {
    state: u32,
    consumed: u64,
    total: u64,
    seed: Ghost<u32>,
    data: Ghost<Seq<u8>>,
}

impl StreamingChecksum {
    /// The finished checksum that the computation continues from.
    pub closed spec fn seed(&self) -> u32 {
        self.seed@
    }

    /// The bytes fed in so far.
    pub closed spec fn data(&self) -> Seq<u8> {
        self.data@
    }

    /// The announced size of the whole input.
    pub closed spec fn total(&self) -> nat {
        self.total as nat
    }

    pub closed spec fn wf(&self) -> bool {
        &&& self.state == crc_fold(self.seed@ ^ FINAL_XOR, self.data@)
        &&& self.consumed as nat == self.data@.len()
    }

    /// A computation from the start, over an input of `total` bytes.
    pub fn new(total: u64) -> (r: Self)
        ensures
            r.wf(),
            r.seed() == 0,
            r.data() == Seq::<u8>::empty(),
            r.total() == total,
    {
        Self::with_seed(0, total)
    }

    /// A computation that continues from the finished checksum `seed`, as if
    /// more bytes were appended to the input that produced it.
    pub fn with_seed(seed: u32, total: u64) -> (r: Self)
        ensures
            r.wf(),
            r.seed() == seed,
            r.data() == Seq::<u8>::empty(),
            r.total() == total,
    {
        StreamingChecksum {
            state: seed ^ FINAL_XOR,
            consumed: 0,
            total,
            seed: Ghost(seed),
            data: Ghost(Seq::empty()),
        }
    }

    /// Folds in the next chunk of the input and returns the progress made so far.
    pub fn update(&mut self, chunk: &[u8]) -> (progress: u64)
        requires
            old(self).wf(),
            old(self).data().len() + chunk@.len() <= u64::MAX,
        ensures
            final(self).wf(),
            final(self).seed() == old(self).seed(),
            final(self).total() == old(self).total(),
            final(self).data() == old(self).data() + chunk@,
            progress as nat == progress_of(final(self).data().len(), final(self).total()),
    {
        proof {
            lemma_crc_fold_append(self.seed@ ^ FINAL_XOR, self.data@, chunk@);
        }
        self.state = crc32_update(self.state, chunk);
        self.consumed = self.consumed + chunk.len() as u64;
        self.data = Ghost(self.data@ + chunk@);
        self.progress()
    }

    /// The number of bytes fed in so far.
    pub fn consumed(&self) -> (r: u64)
        requires
            self.wf(),
        ensures
            r as nat == self.data().len(),
    {
        self.consumed
    }

    /// The percentage of the input consumed so far, from 0 to 100.
    pub fn progress(&self) -> (r: u64)
        requires
            self.wf(),
        ensures
            r as nat == progress_of(self.data().len(), self.total()),
            r <= 100,
    {
        if self.consumed >= self.total {
            100
        } else {
            let scaled: u128 = (self.consumed as u128) * 100;
            let r: u128 = scaled / (self.total as u128);
            proof {
                lemma_progress_below_100(self.consumed as nat, self.total as nat);
            }
            r as u64
        }
    }

    /// The CRC32 of everything fed in, continued from the seed. Only meaningful
    /// once the whole input has been consumed.
    pub fn finalize(&self) -> (r: u32)
        requires
            self.wf(),
        ensures
            r == crc32_seeded(self.seed(), self.data()),
    {
        finalize_crc32(self.state)
    }
}

/// Continuing a checksum over the second of two pieces gives the checksum of
/// their concatenation, so how the input is cut into chunks does not matter.
pub proof fn lemma_chunking_irrelevant(seed: u32, a: Seq<u8>, b: Seq<u8>)
    ensures
        crc32_seeded(crc32_seeded(seed, a), b) == crc32_seeded(seed, a + b),
{
    let r = crc_fold(seed ^ FINAL_XOR, a);
    assert((r ^ FINAL_XOR) ^ FINAL_XOR == r) by (bit_vector);
    lemma_crc_fold_append(seed ^ FINAL_XOR, a, b);
}

/// Progress never goes back as more input is consumed, and it reads 100 once
/// the whole input has been consumed.
pub proof fn lemma_progress_monotonic(a: nat, b: nat, total: nat)
    requires
        a <= b,
    ensures
        progress_of(a, total) <= progress_of(b, total),
        progress_of(total, total) == 100,
{
    if b < total {
        assert(a * 100 <= b * 100) by (nonlinear_arith)
            requires a <= b;
        vstd::arithmetic::div_mod::lemma_div_is_ordered((a * 100) as int, (b * 100) as int, total as int);
    } else if a < total {
        lemma_progress_below_100(a, total);
    }
}

/// The CRC32 of `data` read `chunk_size` bytes at a time, with the progress
/// reported after each chunk.
pub fn checksum_in_chunks(data: &[u8], chunk_size: usize) -> (r: (u32, Vec<u64>))
    requires
        chunk_size > 0,
        data@.len() <= u64::MAX,
    ensures
        r.0 == crc32(data@),
        forall|i: int, j: int| 0 <= i <= j < r.1@.len() ==> r.1@[i] <= r.1@[j],
        forall|i: int| 0 <= i < r.1@.len() ==> r.1@[i] <= 100,
        data@.len() > 0 ==> r.1@.len() > 0 && r.1@.last() == 100,
{
    let mut sum = StreamingChecksum::new(data.len() as u64);
    let mut reports: Vec<u64> = Vec::new();
    let mut start: usize = 0;
    while start < data.len()
        invariant
            sum.wf(),
            sum.seed() == 0,
            chunk_size > 0,
            sum.total() == data@.len(),
            start <= data@.len(),
            data@.len() <= u64::MAX,
            sum.data() == data@.subrange(0, start as int),
            forall|i: int, j: int| 0 <= i <= j < reports@.len() ==> reports@[i] <= reports@[j],
            forall|i: int| 0 <= i < reports@.len() ==> reports@[i] <= progress_of(start as nat, data@.len()),
            start > 0 ==> reports@.len() > 0 && reports@.last() == progress_of(start as nat, data@.len()),
        decreases data@.len() - start,
    {
        let end: usize = if data.len() - start > chunk_size { start + chunk_size } else { data.len() };
        let chunk = slice_subrange(data, start, end);
        assert(data@.subrange(0, start as int) + chunk@ =~= data@.subrange(0, end as int));
        let progress = sum.update(chunk);
        proof {
            lemma_progress_monotonic(start as nat, end as nat, data@.len());
        }
        reports.push(progress);
        start = end;
    }
    assert(data@.subrange(0, data@.len() as int) =~= data@);
    proof {
        lemma_progress_monotonic(start as nat, start as nat, data@.len());
    }
    (sum.finalize(), reports)
}

proof fn lemma_progress_below_100(consumed: nat, total: nat)
    requires
        consumed < total,
    ensures
        consumed * 100 / total < 100,
{
    assert(consumed * 100 < total * 100) by (nonlinear_arith)
        requires consumed < total;
    assert(consumed * 100 / total < 100) by (nonlinear_arith)
        requires consumed * 100 < total * 100, total > 0;
}

} // verus!
