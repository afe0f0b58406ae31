//! The ChaCha20 generator as plain values.
//!
//! A `rand_chacha::ChaCha20Rng` is fully described by its key (seed), its
//! stream number and its position in the stream, counted in 32-bit words:
//! the crate compares generators by exactly these three. `RngState` holds
//! them, and each draw rebuilds the generator at that state, draws, and
//! returns the new position. What a draw yields is named, as a function of
//! the state and the request, by `chacha20_gen_range` and
//! `chacha20_fill_32`; the keystream a key yields is `chacha20_byte_stream`.
use rand::distributions::Standard;
use rand::Rng;
use rand::SeedableRng;
use rand_chacha::ChaCha20Rng;
use vstd::prelude::*;

verus! {

#[verifier::external_type_specification]
#[verifier::external_body]
pub struct ExChaCha20Rng(ChaCha20Rng);

/// What `gen_range(low..high)` returns on a ChaCha20 generator with key
/// `seed`, stream `stream` and word position `word_pos`, together with the
/// word position after the draw.
pub uninterp spec fn chacha20_gen_range(
    seed: Seq<u8>,
    stream: u64,
    word_pos: u128,
    low: i64,
    high: i64,
) -> (i64, u128);

/// What `fill(&mut [u8; 32])` writes from a ChaCha20 generator at the given
/// state, together with the word position after it.
pub uninterp spec fn chacha20_fill_32(seed: Seq<u8>, stream: u64, word_pos: u128) -> ([u8; 32], u128);

/// The first `len` values of `gen::<u8>()` on a fresh ChaCha20 generator
/// keyed with `key` (stream 0, position 0).
pub uninterp spec fn chacha20_byte_stream(key: Seq<u8>, len: nat) -> Seq<u8>;

/// The key, stream number and word position that a ChaCha20 generator
/// reports through `get_seed`, `get_stream` and `get_word_pos`.
pub uninterp spec fn chacha20_state(rng: ChaCha20Rng) -> ([u8; 32], u64, u128);

/// The abstract state of a ChaCha20 generator.
#[derive(Clone, Copy)]
pub struct RngState {
    pub seed: [u8; 32],
    pub stream: u64,
    pub word_pos: u128,
}

/// `ChaCha20Rng::get_seed`, `get_stream` and `get_word_pos`: the abstract
/// state of a generator, the one named by `chacha20_state`. The three
/// getters only read the generator, so the same generator gives the same
/// state.
#[verifier::external_body]
fn chacha20_state_of(rng: &ChaCha20Rng) -> (st: ([u8; 32], u64, u128))
    ensures
        st == chacha20_state(*rng),
{
    (rng.get_seed(), rng.get_stream(), rng.get_word_pos())
}

/// `Rng::gen_range(low..high)` on the generator rebuilt at the given state
/// (`from_seed`, `set_stream`, `set_word_pos`): the value lies in
/// `[low, high)`, as `gen_range` documents, and value and new word position
/// are those named by `chacha20_gen_range`. `gen_range` panics on an empty
/// range, which `requires` rules out.
#[verifier::external_body]
fn chacha20_draw_range(seed: [u8; 32], stream: u64, word_pos: u128, low: i64, high: i64) -> (r: (
    i64,
    u128,
))
    requires
        low < high,
    ensures
        low <= r.0 < high,
        r == chacha20_gen_range(seed@, stream, word_pos, low, high),
{
    let mut rng = ChaCha20Rng::from_seed(seed);
    rng.set_stream(stream);
    rng.set_word_pos(word_pos);
    let x = rng.gen_range(low..high);
    (x, rng.get_word_pos())
}

/// `Rng::fill(&mut [u8; 32])` on the generator rebuilt at the given state:
/// the bytes and new word position named by `chacha20_fill_32`.
#[verifier::external_body]
fn chacha20_draw_32(seed: [u8; 32], stream: u64, word_pos: u128) -> (r: ([u8; 32], u128))
    ensures
        r == chacha20_fill_32(seed@, stream, word_pos),
{
    let mut rng = ChaCha20Rng::from_seed(seed);
    rng.set_stream(stream);
    rng.set_word_pos(word_pos);
    let mut out = [0u8; 32];
    rng.fill(&mut out);
    (out, rng.get_word_pos())
}

/// The keystream of `len` bytes that a fresh `ChaCha20Rng::from_seed(key)`
/// yields through `gen::<u8>()` (the `Standard` distribution), one byte per
/// call: the bytes named by `chacha20_byte_stream`, `len` of them.
#[verifier::external_body]
pub(crate) fn chacha20_keystream(key: &[u8; 32], len: usize) -> (ks: Vec<u8>)
    ensures
        ks@ == chacha20_byte_stream(key@, len as nat),
        ks@.len() == len,
{
    ChaCha20Rng::from_seed(*key).sample_iter(Standard).take(len).collect()
}

/// The state of a ChaCha20 generator as mathematical values.
pub struct RngModel {
    pub key: Seq<u8>,
    pub stream: u64,
    pub word_pos: u128,
}

impl View for RngState {
    type V = RngModel;

    open spec fn view(&self) -> RngModel {
        RngModel { key: self.seed@, stream: self.stream, word_pos: self.word_pos }
    }
}

impl RngModel {
    /// The state of a fresh generator keyed with `key`, as
    /// `ChaCha20Rng::from_seed` makes it: stream 0, position 0.
    pub open spec fn seeded(key: Seq<u8>) -> RngModel {
        RngModel { key, stream: 0, word_pos: 0 }
    }

    /// One `gen_range(low..high)` draw: the value and the state after it.
    /// The value is the named one, which `gen_range` keeps inside the range;
    /// the model reads any other value as `low`, so that the range holds of
    /// the model by definition.
    pub open spec fn range_draw(self, low: i64, high: i64) -> (i64, RngModel) {
        let r = chacha20_gen_range(self.key, self.stream, self.word_pos, low, high);
        let x = if low <= r.0 && r.0 < high {
            r.0
        } else {
            low
        };
        (x, RngModel { word_pos: r.1, ..self })
    }

    /// One 32-byte `fill`: the bytes and the state after it.
    pub open spec fn fill_draw(self) -> (Seq<u8>, RngModel) {
        let r = chacha20_fill_32(self.key, self.stream, self.word_pos);
        (r.0@, RngModel { word_pos: r.1, ..self })
    }

    /// `k` successive `gen_range(low..high)` draws and the state after them.
    pub open spec fn range_draws(self, low: i64, high: i64, k: nat) -> (Seq<i64>, RngModel)
        decreases k,
    {
        if k == 0 {
            (Seq::empty(), self)
        } else {
            let prev = self.range_draws(low, high, (k - 1) as nat);
            let next = prev.1.range_draw(low, high);
            (prev.0.push(next.0), next.1)
        }
    }
}

/// Draws from `[0, 256)` read as bytes.
pub open spec fn draws_as_bytes(draws: Seq<i64>) -> Seq<u8> {
    Seq::new(draws.len(), |i: int| draws[i] as u8)
}

/// `k` successive draws from `[low, high)` are `k` values in that range.
pub proof fn lemma_range_draws_bounds(st: RngModel, low: i64, high: i64, k: nat)
    requires
        low < high,
    ensures
        st.range_draws(low, high, k).0.len() == k,
        forall|t: int|
            0 <= t < k ==> low <= #[trigger] st.range_draws(low, high, k).0[t] < high,
    decreases k,
{
    reveal_with_fuel(RngModel::range_draws, 1);
    if k > 0 {
        lemma_range_draws_bounds(st, low, high, (k - 1) as nat);
    }
}

/// Later draws do not change earlier ones: the first `k1` of `k2` draws are
/// the `k1` draws.
pub proof fn lemma_range_draws_prefix(st: RngModel, low: i64, high: i64, k1: nat, k2: nat)
    requires
        k1 <= k2,
    ensures
        forall|t: int|
            0 <= t < k1 ==> #[trigger] st.range_draws(low, high, k2).0[t] == st.range_draws(
                low,
                high,
                k1,
            ).0[t],
    decreases k2,
{
    if k1 < k2 {
        lemma_range_draws_prefix(st, low, high, k1, (k2 - 1) as nat);
        lemma_range_draws_len(st, low, high, (k2 - 1) as nat);
    }
}

/// `k` draws give `k` values.
pub proof fn lemma_range_draws_len(st: RngModel, low: i64, high: i64, k: nat)
    ensures
        st.range_draws(low, high, k).0.len() == k,
    decreases k,
{
    if k > 0 {
        lemma_range_draws_len(st, low, high, (k - 1) as nat);
    }
}

impl RngState {
    /// The state of a fresh generator keyed with `seed`.
    pub fn from_seed(seed: [u8; 32]) -> (st: RngState)
        ensures
            st@ == RngModel::seeded(seed@),
    {
        RngState { seed, stream: 0, word_pos: 0 }
    }

    /// The abstract state of an existing generator: its key, stream and word
    /// position as the generator reports them.
    pub fn of_generator(rng: &ChaCha20Rng) -> (st: RngState)
        ensures
            (st.seed, st.stream, st.word_pos) == chacha20_state(*rng),
    {
        let (seed, stream, word_pos) = chacha20_state_of(rng);
        RngState { seed, stream, word_pos }
    }

    /// Draws a value uniformly from `[low, high)`, as `gen_range` does.
    pub fn gen_range(&mut self, low: i64, high: i64) -> (x: i64)
        requires
            low < high,
        ensures
            low <= x < high,
            (x, final(self)@) == old(self)@.range_draw(low, high),
    {
        let r = chacha20_draw_range(self.seed, self.stream, self.word_pos, low, high);
        self.word_pos = r.1;
        r.0
    }

    /// Fills 32 bytes, as `fill(&mut [u8; 32])` does.
    pub fn fill_32(&mut self) -> (out: [u8; 32])
        ensures
            (out@, final(self)@) == old(self)@.fill_draw(),
    {
        let r = chacha20_draw_32(self.seed, self.stream, self.word_pos);
        self.word_pos = r.1;
        r.0
    }

    /// Draws `k` values from `[low, high)` in order.
    pub fn gen_range_many(&mut self, low: i64, high: i64, k: usize) -> (xs: Vec<i64>)
        requires
            low < high,
        ensures
            (xs@, final(self)@) == old(self)@.range_draws(low, high, k as nat),
            forall|t: int| 0 <= t < k ==> low <= #[trigger] xs@[t] < high,
    {
        let ghost start = self@;
        let mut xs: Vec<i64> = Vec::new();
        let mut j: usize = 0;
        while j < k
            invariant
                low < high,
                j <= k,
                xs@.len() == j,
                (xs@, self@) == start.range_draws(low, high, j as nat),
                forall|t: int| 0 <= t < j ==> low <= #[trigger] xs@[t] < high,
            decreases k - j,
        {
            let ghost prev = xs@;
            let x = self.gen_range(low, high);
            xs.push(x);
            assert(xs@ == prev.push(x));
            j = j + 1;
        }
        xs
    }

    /// Draws `len` bytes, each uniform over `[0, 256)`.
    pub fn gen_bytes(&mut self, len: usize) -> (bytes: Vec<u8>)
        ensures
            bytes@ == draws_as_bytes(old(self)@.range_draws(0, 256, len as nat).0),
            final(self)@ == old(self)@.range_draws(0, 256, len as nat).1,
    {
        let ghost start = self@;
        let draws = self.gen_range_many(0, 256, len);
        proof {
            lemma_range_draws_len(start, 0, 256, len as nat);
        }
        let mut bytes: Vec<u8> = Vec::new();
        let mut k: usize = 0;
        while k < len
            invariant
                k <= len,
                draws@.len() == len,
                forall|t: int| 0 <= t < len ==> 0 <= #[trigger] draws@[t] < 256,
                bytes@ =~= draws_as_bytes(draws@.take(k as int)),
            decreases len - k,
        {
            bytes.push(draws[k] as u8);
            k = k + 1;
            assert(draws@.take(k as int) =~= draws@.take((k - 1) as int).push(draws@[k - 1]));
        }
        assert(draws@.take(len as int) =~= draws@);
        bytes
    }
}

} // verus!
