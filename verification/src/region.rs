//! The memory region as a mathematical object.
//!
//! A region is an interval of addresses `[base, end)` together with a
//! watermark `next`: everything below the watermark has been handed out,
//! everything from it upwards is free. Nothing is ever given back, so the
//! watermark only rises. The executable allocator is specified against this
//! model, and the laws in the second half of the file are proved of it.

use vstd::prelude::*;
use vstd::arithmetic::power2::is_pow2;
use crate::error::AllocError;

verus! {

/// How the region keeps its books.
#[derive(Clone, Copy, Debug, PartialEq, Eq, Structural)]
pub enum Strategy {
    /// A cursor that starts at a given address and rises. The region has no
    /// declared size: it ends where the address space ends.
    Growing,
    /// A fixed top address and a declared capacity in words, served by
    /// counting down the words that remain.
    Countdown,
}

/// The abstract state of a region. All addresses are byte addresses.
pub struct RegionModel {
    pub strategy: Strategy,
    /// Size of a machine word in bytes.
    pub word: nat,
    /// Lowest address of the region.
    pub base: nat,
    /// The watermark: the address that the next request is served at.
    pub next: nat,
    /// First address that no request may reach beyond: the top of a
    /// countdown region, the last address there is for a growing one.
    pub end: nat,
}

/// What can be asked of a region.
pub enum Request {
    /// So many whole words.
    Words(nat),
    /// Room for `size` bytes at an address that is a multiple of `align`.
    Bytes { size: nat, align: nat },
}

/// A range of addresses handed out by the allocator: `len` bytes from `start`.
pub struct Block {
    pub start: nat,
    pub len: nat,
}

impl Block {
    /// First address past the block.
    pub open spec fn end(self) -> nat {
        self.start + self.len
    }

    /// The two blocks have no byte in common.
    pub open spec fn disjoint_from(self, other: Block) -> bool {
        self.end() <= other.start || other.end() <= self.start
    }
}

/// Number of whole words that `size` bytes occupy: `size / word`, rounded up.
pub open spec fn words_for(size: nat, word: nat) -> nat {
    if size % word == 0 {
        size / word
    } else {
        size / word + 1
    }
}

/// The alignments that the allocator can promise: powers of two up to the
/// size of a word.
pub open spec fn alignment_supported(align: nat, word: nat) -> bool {
    is_pow2(align as int) && align <= word
}

/// The outcome of a request that is served at `addr`.
pub open spec fn served_at(addr: nat) -> Result<nat, AllocError> {
    Ok(addr)
}

/// The outcome of a request that is refused for want of words.
pub open spec fn refused() -> Result<nat, AllocError> {
    Err(AllocError::OutOfMemory)
}

/// The outcome of a request as the model states it: the same, with the
/// address as a natural number.
pub open spec fn outcome_model(r: Result<usize, AllocError>) -> Result<nat, AllocError> {
    match r {
        Ok(addr) => Ok(addr as nat),
        Err(e) => Err(e),
    }
}

impl RegionModel {
    /// What holds of every region in every state.
    pub open spec fn wf(self) -> bool {
        &&& self.word == 4 || self.word == 8
        &&& 0 < self.base <= self.next
        &&& self.next <= self.end <= usize::MAX
        &&& self.base % self.word == 0
        &&& self.next % self.word == 0
        &&& self.strategy == Strategy::Countdown ==> self.end % self.word == 0
        &&& self.strategy == Strategy::Growing ==> self.end == usize::MAX
    }

    /// Number of whole words between the watermark and the end.
    pub open spec fn remaining_words(self) -> nat {
        ((self.end - self.next) / (self.word as int)) as nat
    }

    /// Number of whole words in the region, used or not.
    pub open spec fn capacity_words(self) -> nat {
        ((self.end - self.base) / (self.word as int)) as nat
    }

    /// Number of words handed out so far.
    pub open spec fn used_words(self) -> nat {
        ((self.next - self.base) / (self.word as int)) as nat
    }

    /// The region after `words` more words have been handed out.
    pub open spec fn advance(self, words: nat) -> RegionModel {
        RegionModel { next: self.next + words * self.word, ..self }
    }

    /// A request for `words` words: the state after it, and its outcome. It
    /// is served at the watermark if that many words remain, and otherwise
    /// refused without any change.
    pub open spec fn take_words(self, words: nat) -> (RegionModel, Result<nat, AllocError>) {
        if words <= self.remaining_words() {
            (self.advance(words), served_at(self.next))
        } else {
            (self, refused())
        }
    }

    /// A request for `size` bytes aligned to `align`: refused if the
    /// alignment is not supported, and otherwise a request for the words that
    /// `size` bytes round up to.
    pub open spec fn take_bytes(self, size: nat, align: nat) -> (
        RegionModel,
        Result<nat, AllocError>,
    ) {
        if alignment_supported(align, self.word) {
            self.take_words(words_for(size, self.word))
        } else {
            (self, Err(AllocError::UnsupportedAlignment))
        }
    }

    /// Giving a block back: the region does not take it.
    pub open spec fn release(self, addr: nat, size: nat, align: nat) -> RegionModel {
        self
    }

    /// Either kind of request: the state after it, and its outcome.
    pub open spec fn take(self, request: Request) -> (RegionModel, Result<nat, AllocError>) {
        match request {
            Request::Words(words) => self.take_words(words),
            Request::Bytes { size, align } => self.take_bytes(size, align),
        }
    }

    /// Number of words that a request uses up when it is served.
    pub open spec fn words_of(self, request: Request) -> nat {
        match request {
            Request::Words(words) => words,
            Request::Bytes { size, .. } => words_for(size, self.word),
        }
    }

    /// The request asks for nothing that this region refuses on principle.
    pub open spec fn admits(self, request: Request) -> bool {
        match request {
            Request::Words(_) => true,
            Request::Bytes { align, .. } => alignment_supported(align, self.word),
        }
    }

    /// The blocks that a run of requests is served with, taken one after
    /// another from this state: one entry for each request, `None` where the
    /// request is refused.
    pub open spec fn serve(self, requests: Seq<Request>) -> Seq<Option<Block>>
        decreases requests.len(),
    {
        if requests.len() == 0 {
            Seq::empty()
        } else {
            let (after, outcome) = self.take(requests.first());
            let block = match outcome {
                Ok(addr) => Some(
                    Block { start: addr, len: self.words_of(requests.first()) * self.word },
                ),
                Err(_) => None,
            };
            seq![block] + after.serve(requests.drop_first())
        }
    }

    /// The words that a run of requests uses up if all of it is served.
    pub open spec fn total_words(self, requests: Seq<Request>) -> nat
        decreases requests.len(),
    {
        if requests.len() == 0 {
            0
        } else {
            self.words_of(requests.first()) + self.total_words(requests.drop_first())
        }
    }
}

/// Serving a request keeps a region in good standing and within its bounds.
/// A request that is served is served at the watermark, which is a multiple
/// of the word size, and raises it by the words the request uses up; a
/// request that is refused changes nothing. So the watermark never falls,
/// and the number of words that remain never rises.
pub proof fn lemma_watermark_only_rises(m: RegionModel, request: Request)
    requires
        m.wf(),
    ensures
        m.take(request).0.wf(),
        m.take(request).0.strategy == m.strategy,
        m.take(request).0.word == m.word,
        m.take(request).0.base == m.base,
        m.take(request).0.end == m.end,
        m.take(request).0.next >= m.next,
        m.take(request).0.remaining_words() <= m.remaining_words(),
        m.take(request).1 matches Ok(addr) ==> {
            &&& addr == m.next
            &&& addr % m.word == 0
            &&& m.take(request).0.next == addr + m.words_of(request) * m.word
            &&& m.take(request).0.used_words() == m.used_words() + m.words_of(request)
            &&& m.take(request).0.remaining_words() == m.remaining_words() - m.words_of(request)
        },
        m.take(request).1 is Err ==> m.take(request).0 == m,
{
    let word = m.word as int;
    let words = m.words_of(request) as int;
    lemma_times_word(words, word);
    lemma_word_steps(m.next as int, m.end as int, words, word);
    if m.take(request).1 is Ok {
        assert(m.take(request).0.next == m.next + words * word);
        lemma_over_word(m.next - m.base, word);
        lemma_over_word(m.next + words * word - m.base, word);
    }
}

/// Every address that a request for bytes is served at is a multiple of the
/// alignment asked for, and the block there is large enough for the bytes.
pub proof fn lemma_served_address_aligned(m: RegionModel, size: nat, align: nat)
    requires
        m.wf(),
    ensures
        m.take_bytes(size, align).1 matches Ok(addr) ==> {
            &&& align > 0
            &&& addr % align == 0
            &&& addr + size <= m.take_bytes(size, align).0.next
        },
{
    if m.take_bytes(size, align).1 is Ok {
        lemma_small_powers_of_two(align as int);
        lemma_words_for_bounds(size as int, m.word as int);
        lemma_multiple_of_word(m.next as int, m.word as int, align as int);
    }
}

/// A request for more words than remain is refused and changes nothing. A
/// request for exactly the words that remain is served at the watermark and
/// leaves no word behind, so that every later request for a word or more is
/// refused.
pub proof fn lemma_exact_fit_then_exhausted(m: RegionModel, words: nat)
    requires
        m.wf(),
    ensures
        words > m.remaining_words() ==> {
            &&& m.take_words(words).0 == m
            &&& m.take_words(words).1 == refused()
        },
        words == m.remaining_words() ==> {
            &&& m.take_words(words).1 == served_at(m.next)
            &&& m.take_words(words).0.remaining_words() == 0
            &&& forall|more: nat|
                more > 0 ==> #[trigger] m.take_words(words).0.take_words(more).1 == refused()
        },
{
    lemma_word_steps(m.next as int, m.end as int, words as int, m.word as int);
}

/// A request for no words is served at the watermark and leaves the region
/// exactly as it was, so whatever is asked next is answered as if the empty
/// request had never been made.
pub proof fn lemma_empty_request_changes_nothing(m: RegionModel, request: Request)
    requires
        m.wf(),
    ensures
        m.take_words(0).0 == m,
        m.take_words(0).1 == served_at(m.next),
        m.take_words(0).0.take(request) == m.take(request),
{
    lemma_word_steps(m.next as int, m.end as int, 0, m.word as int);
    assert(m.advance(0) == m);
}

/// Giving a block back changes the answer to no later request, whatever the
/// block and whatever the request.
pub proof fn lemma_release_changes_nothing(
    m: RegionModel,
    addr: nat,
    size: nat,
    align: nat,
    request: Request,
)
    ensures
        m.release(addr, size, align) == m,
        m.release(addr, size, align).take(request) == m.take(request),
{
}

/// A countdown region is made of whole words. Its watermark lies as many
/// words below the top as remain, its base as many words below the top as its
/// capacity, and the words used and the words remaining add up to the
/// capacity.
pub proof fn lemma_countdown_addresses(m: RegionModel)
    requires
        m.wf(),
        m.strategy == Strategy::Countdown,
    ensures
        m.next == m.end - m.remaining_words() * m.word,
        m.base == m.end - m.capacity_words() * m.word,
        m.used_words() + m.remaining_words() == m.capacity_words(),
{
    let word = m.word as int;
    lemma_whole_words(m.next as int, m.end as int, word);
    lemma_whole_words(m.base as int, m.end as int, word);
    lemma_whole_words(m.base as int, m.next as int, word);
    lemma_times_word(m.remaining_words() as int, word);
    lemma_times_word(m.capacity_words() as int, word);
    lemma_times_word(m.used_words() as int, word);
}

/// A run of requests gets one answer for each request.
pub proof fn lemma_serve_len(m: RegionModel, requests: Seq<Request>)
    ensures
        m.serve(requests).len() == requests.len(),
    decreases requests.len(),
{
    if requests.len() > 0 {
        lemma_serve_len(m.take(requests.first()).0, requests.drop_first());
    }
}

/// Every block that a run of requests is served with lies between the
/// watermark that the run started from and the end of the region, and has
/// the size of the words that its request uses up.
pub proof fn lemma_served_blocks_in_region(m: RegionModel, requests: Seq<Request>, i: int)
    requires
        m.wf(),
        0 <= i < requests.len(),
    ensures
        m.serve(requests).len() == requests.len(),
        m.serve(requests)[i] matches Some(b) ==> {
            &&& m.next <= b.start
            &&& b.end() <= m.end
            &&& b.len == m.words_of(requests[i]) * m.word
        },
    decreases requests.len(),
{
    let after = m.take(requests.first()).0;
    let rest = requests.drop_first();
    lemma_watermark_only_rises(m, requests.first());
    lemma_serve_len(after, rest);
    if i > 0 {
        lemma_served_blocks_in_region(after, rest, i - 1);
        assert(m.serve(requests)[i] == after.serve(rest)[i - 1]);
        assert(after.words_of(rest[i - 1]) == m.words_of(requests[i]));
    }
}

/// No two blocks that a run of requests is served with have a byte in
/// common: a later block starts where the earlier one ends, or above.
pub proof fn lemma_served_blocks_disjoint(m: RegionModel, requests: Seq<Request>, i: int, j: int)
    requires
        m.wf(),
        0 <= i < j < requests.len(),
    ensures
        m.serve(requests)[i] matches Some(a) ==> (m.serve(requests)[j] matches Some(b)
            ==> a.end() <= b.start && a.disjoint_from(b)),
    decreases requests.len(),
{
    let after = m.take(requests.first()).0;
    let rest = requests.drop_first();
    lemma_watermark_only_rises(m, requests.first());
    lemma_serve_len(after, rest);
    assert(m.serve(requests)[j] == after.serve(rest)[j - 1]);
    if i == 0 {
        lemma_served_blocks_in_region(after, rest, j - 1);
    } else {
        assert(m.serve(requests)[i] == after.serve(rest)[i - 1]);
        lemma_served_blocks_disjoint(after, rest, i - 1, j - 1);
    }
}

/// A run of requests that the region admits, and that asks in total for no
/// more words than remain, is served in full: no request of it is refused.
pub proof fn lemma_run_within_capacity_is_served(m: RegionModel, requests: Seq<Request>, i: int)
    requires
        m.wf(),
        forall|k: int| 0 <= k < requests.len() ==> m.admits(#[trigger] requests[k]),
        m.total_words(requests) <= m.remaining_words(),
        0 <= i < requests.len(),
    ensures
        m.serve(requests)[i] is Some,
    decreases requests.len(),
{
    let after = m.take(requests.first()).0;
    let rest = requests.drop_first();
    assert(m.admits(requests[0]));
    lemma_watermark_only_rises(m, requests.first());
    lemma_serve_len(after, rest);
    if i > 0 {
        assert(m.serve(requests)[i] == after.serve(rest)[i - 1]);
        assert forall|k: int| 0 <= k < rest.len() implies after.admits(#[trigger] rest[k]) by {
            assert(m.admits(requests[k + 1]));
        }
        lemma_total_words_same_word(m, after, rest);
        lemma_run_within_capacity_is_served(after, rest, i - 1);
    }
}

/// What a run of requests uses up depends on the region by its word size
/// alone.
proof fn lemma_total_words_same_word(m: RegionModel, n: RegionModel, requests: Seq<Request>)
    requires
        m.word == n.word,
    ensures
        m.total_words(requests) == n.total_words(requests),
    decreases requests.len(),
{
    if requests.len() > 0 {
        lemma_total_words_same_word(m, n, requests.drop_first());
    }
}

/// A multiple of the word size, written out for the two sizes there are.
pub(crate) proof fn lemma_times_word(n: int, word: int)
    by (nonlinear_arith)
    requires
        word == 4 || word == 8,
    ensures
        word == 4 ==> n * word == 4 * n,
        word == 8 ==> n * word == 8 * n,
{
}

/// A quotient and a remainder by the word size, written out for the two
/// sizes there are.
pub(crate) proof fn lemma_over_word(x: int, word: int)
    requires
        word == 4 || word == 8,
    ensures
        word == 4 ==> x / word == x / 4 && x % word == x % 4,
        word == 8 ==> x / word == x / 8 && x % word == x % 8,
{
    if word == 4 {
        assert(x / word == x / 4);
        assert(x % word == x % 4);
    } else {
        assert(x / word == x / 8);
        assert(x % word == x % 8);
    }
}

/// A step of `n` words from a word-aligned watermark `next` stays below `end`
/// exactly when `n` is no more than the whole words in between; the stepped
/// watermark is word-aligned again, and `n` fewer words lie above it.
pub(crate) proof fn lemma_word_steps(next: int, end: int, n: int, word: int)
    requires
        word == 4 || word == 8,
        0 <= next <= end,
        0 <= n,
        next % word == 0,
    ensures
        n <= (end - next) / word <==> next + n * word <= end,
        (next + n * word) % word == 0,
        n <= (end - next) / word ==> (end - (next + n * word)) / word == (end - next) / word - n,
        n * word >= 0,
{
    lemma_times_word(n, word);
    lemma_over_word(next, word);
    lemma_over_word(end - next, word);
    lemma_over_word(next + n * word, word);
    lemma_over_word(end - (next + n * word), word);
}

/// The distance between two multiples of the word size is its number of
/// words times the word size.
pub(crate) proof fn lemma_whole_words(low: int, high: int, word: int)
    requires
        word == 4 || word == 8,
        low % word == 0,
        high % word == 0,
    ensures
        ((high - low) / word) * word == high - low,
{
    lemma_over_word(low, word);
    lemma_over_word(high, word);
    lemma_over_word(high - low, word);
    lemma_times_word((high - low) / word, word);
}

/// A multiple of the word size is a multiple of every power of two up to it.
pub(crate) proof fn lemma_multiple_of_word(addr: int, word: int, align: int)
    requires
        word == 4 || word == 8,
        align == 1 || align == 2 || align == 4 || align == 8,
        align <= word,
        addr % word == 0,
    ensures
        addr % align == 0,
{
    lemma_over_word(addr, word);
    if align == 1 {
        assert(addr % align == addr % 1);
    } else if align == 2 {
        assert(addr % align == addr % 2);
    } else if align == 4 {
        assert(addr % align == addr % 4);
    } else {
        assert(addr % align == addr % 8);
    }
}

/// Rounding `size` bytes up to whole words gives no more words than bytes,
/// and just enough of them to hold the bytes.
pub(crate) proof fn lemma_words_for_bounds(size: int, word: int)
    requires
        word == 4 || word == 8,
        0 <= size,
    ensures
        0 <= size / word <= size,
        size % word != 0 ==> size / word < size,
        size <= words_for(size as nat, word as nat) * word < size + word,
{
    lemma_over_word(size, word);
    lemma_times_word(words_for(size as nat, word as nat) as int, word);
}

/// The powers of two up to eight.
pub(crate) proof fn lemma_small_powers_of_two(a: int)
    ensures
        a <= 8 ==> (is_pow2(a) <==> a == 1 || a == 2 || a == 4 || a == 8),
{
    reveal_with_fuel(is_pow2, 5);
}

} // verus!
