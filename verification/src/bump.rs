//! The bump allocator: the one authority over the guest's memory region.

use vstd::prelude::*;
use crate::error::AllocError;
use crate::region::{
    lemma_over_word, lemma_served_address_aligned, lemma_small_powers_of_two, lemma_times_word,
    lemma_word_steps, lemma_words_for_bounds, outcome_model, RegionModel, Strategy,
};

verus! {

/// Where a region lies and how far it has been used, in the form that its
/// strategy keeps.
#[derive(Clone, Copy)]
enum Descriptor {
    /// `cursor` is the watermark itself.
    Growing { start: usize, cursor: usize },
    /// The watermark lies `remaining` words below `top`.
    Countdown { top: usize, capacity: usize, remaining: usize },
}

/// A bump allocator over one region of memory. It hands out word-aligned
/// ranges from the watermark upwards and never takes one back.
pub struct BumpPointerAlloc {
    word: usize,
    region: Descriptor,
}

impl View for BumpPointerAlloc {
    type V = RegionModel;

    closed spec fn view(&self) -> RegionModel {
        match self.region {
            Descriptor::Growing { start, cursor } => RegionModel {
                strategy: Strategy::Growing,
                word: self.word as nat,
                base: start as nat,
                next: cursor as nat,
                end: usize::MAX as nat,
            },
            Descriptor::Countdown { top, capacity, remaining } => RegionModel {
                strategy: Strategy::Countdown,
                word: self.word as nat,
                base: (top - capacity * self.word) as nat,
                next: (top - remaining * self.word) as nat,
                end: top as nat,
            },
        }
    }
}

impl BumpPointerAlloc {
    #[verifier::type_invariant]
    spec fn inv(self) -> bool {
        &&& self.word == 4 || self.word == 8
        &&& match self.region {
            Descriptor::Growing { start, cursor } => {
                &&& 0 < start <= cursor
                &&& start % self.word == 0
                &&& cursor % self.word == 0
            },
            Descriptor::Countdown { top, capacity, remaining } => {
                &&& remaining <= capacity
                &&& capacity * self.word < top
                &&& top % self.word == 0
            },
        }
    }

    /// A growing region whose first word lies at `start`. `None` unless
    /// `word_size` is 4 or 8 and `start` is a multiple of it other than zero.
    pub fn growing_from(start: usize, word_size: usize) -> (made: Option<Self>)
        ensures
            made is Some <==> {
                &&& word_size == 4 || word_size == 8
                &&& start > 0
                &&& start % word_size == 0
            },
            made matches Some(heap) ==> heap@.wf() && heap@ == (RegionModel {
                strategy: Strategy::Growing,
                word: word_size as nat,
                base: start as nat,
                next: start as nat,
                end: usize::MAX as nat,
            }),
    {
        if (word_size == 4 || word_size == 8) && start > 0 && start % word_size == 0 {
            let region = Descriptor::Growing { start, cursor: start };
            Some(BumpPointerAlloc { word: word_size, region })
        } else {
            None
        }
    }

    /// A countdown region of `capacity` words that ends at `top`. `None`
    /// unless `word_size` is 4 or 8, `top` is a multiple of it, and the
    /// region lies wholly above address zero.
    pub fn countdown_from(top: usize, capacity: usize, word_size: usize) -> (made: Option<Self>)
        ensures
            made is Some <==> {
                &&& word_size == 4 || word_size == 8
                &&& top % word_size == 0
                &&& capacity * word_size < top
            },
            made matches Some(heap) ==> heap@.wf() && heap@ == (RegionModel {
                strategy: Strategy::Countdown,
                word: word_size as nat,
                base: (top - capacity * word_size) as nat,
                next: (top - capacity * word_size) as nat,
                end: top as nat,
            }),
    {
        if !(word_size == 4 || word_size == 8) || top % word_size != 0 {
            return None;
        }
        proof {
            lemma_word_steps(0, top as int, capacity as int, word_size as int);
        }
        if capacity >= top / word_size {
            return None;
        }
        proof {
            lemma_countdown_watermark(
                top as int,
                capacity as int,
                capacity as int,
                word_size as int,
            );
        }
        let region = Descriptor::Countdown { top, capacity, remaining: capacity };
        Some(BumpPointerAlloc { word: word_size, region })
    }

    /// Hands out `nwords` whole words at the watermark, or refuses with
    /// `OutOfMemory` and changes nothing when fewer remain. A request for
    /// zero words is always served and leaves the region as it was.
    pub fn allocate_words(&mut self, nwords: usize) -> (r: Result<usize, AllocError>)
        ensures
            old(self)@.wf(),
            final(self)@.wf(),
            final(self)@ == old(self)@.take_words(nwords as nat).0,
            outcome_model(r) == old(self)@.take_words(nwords as nat).1,
        no_unwind
    {
        proof {
            use_type_invariant(&*self);
        }
        let word = self.word;
        match self.region {
            Descriptor::Growing { start, cursor } => {
                proof {
                    lemma_word_steps(cursor as int, usize::MAX as int, nwords as int, word as int);
                }
                let room = (usize::MAX - cursor) / word;
                if nwords > room {
                    return Err(AllocError::OutOfMemory);
                }
                self.region = Descriptor::Growing { start, cursor: cursor + nwords * word };
                Ok(cursor)
            },
            Descriptor::Countdown { top, capacity, remaining } => {
                proof {
                    let (t, c, r, w) = (top as int, capacity as int, remaining as int, word as int);
                    lemma_countdown_watermark(t, c, r, w);
                    if nwords <= remaining {
                        lemma_countdown_watermark(t, c, r - nwords, w);
                        lemma_countdown_step(t, r, nwords as int, w);
                    }
                }
                if nwords > remaining {
                    return Err(AllocError::OutOfMemory);
                }
                let addr = top - remaining * word;
                let left = remaining - nwords;
                self.region = Descriptor::Countdown { top, capacity, remaining: left };
                Ok(addr)
            },
        }
    }

    /// Hands out room for `size` bytes aligned to `align`: the bytes are
    /// rounded up to whole words and served at the watermark. Refuses with
    /// `UnsupportedAlignment` when `align` is not a power of two or is larger
    /// than a word, and with `OutOfMemory` when too few words remain; a
    /// refusal changes nothing. An address that is handed out is a multiple
    /// of `align`, and the `size` bytes from it lie below the new watermark.
    pub fn allocate(&mut self, size: usize, align: usize) -> (r: Result<usize, AllocError>)
        ensures
            old(self)@.wf(),
            final(self)@.wf(),
            final(self)@ == old(self)@.take_bytes(size as nat, align as nat).0,
            outcome_model(r) == old(self)@.take_bytes(size as nat, align as nat).1,
            r matches Ok(addr) ==> addr % align == 0 && addr + size <= final(self)@.next,
        no_unwind
    {
        proof {
            use_type_invariant(&*self);
            self.lemma_view_wf();
            lemma_small_powers_of_two(align as int);
        }
        let word = self.word;
        if align > word || !(align == 1 || align == 2 || align == 4 || align == 8) {
            return Err(AllocError::UnsupportedAlignment);
        }
        proof {
            lemma_words_for_bounds(size as int, word as int);
            lemma_served_address_aligned(self@, size as nat, align as nat);
        }
        let nwords = if size % word == 0 {
            size / word
        } else {
            size / word + 1
        };
        self.allocate_words(nwords)
    }

    /// The same as [`allocate`](Self::allocate). The allocator does not clear
    /// what it hands out: the region is expected to hold zeros from the
    /// start, and no block is handed out twice.
    pub fn alloc_zeroed(&mut self, size: usize, align: usize) -> (r: Result<usize, AllocError>)
        ensures
            old(self)@.wf(),
            final(self)@.wf(),
            final(self)@ == old(self)@.take_bytes(size as nat, align as nat).0,
            outcome_model(r) == old(self)@.take_bytes(size as nat, align as nat).1,
            r matches Ok(addr) ==> addr % align == 0 && addr + size <= final(self)@.next,
        no_unwind
    {
        self.allocate(size, align)
    }

    /// Takes a block back, which is to do nothing: the allocator never
    /// reclaims memory, and the region stays exactly as it was.
    pub fn dealloc(&mut self, addr: usize, size: usize, align: usize)
        ensures
            *final(self) == *old(self),
            final(self)@ == old(self)@.release(addr as nat, size as nat, align as nat),
            final(self)@.wf(),
        no_unwind
    {
        proof {
            use_type_invariant(&*self);
            self.lemma_view_wf();
        }
    }

    /// Size of a machine word in bytes: 4 or 8.
    pub fn word_size(&self) -> (word: usize)
        ensures
            word == self@.word,
            self@.wf(),
    {
        proof {
            use_type_invariant(self);
            self.lemma_view_wf();
        }
        self.word
    }

    /// The strategy that the region was made with.
    pub fn strategy(&self) -> (strategy: Strategy)
        ensures
            strategy == self@.strategy,
            self@.wf(),
    {
        proof {
            use_type_invariant(self);
            self.lemma_view_wf();
        }
        match self.region {
            Descriptor::Growing { .. } => Strategy::Growing,
            Descriptor::Countdown { .. } => Strategy::Countdown,
        }
    }

    /// The watermark: the address that the next request is served at.
    pub fn cursor(&self) -> (addr: usize)
        ensures
            addr == self@.next,
            self@.wf(),
    {
        proof {
            use_type_invariant(self);
            self.lemma_view_wf();
        }
        match self.region {
            Descriptor::Growing { cursor, .. } => cursor,
            Descriptor::Countdown { top, remaining, .. } => top - remaining * self.word,
        }
    }

    /// Number of whole words that can still be handed out.
    pub fn remaining_words(&self) -> (words: usize)
        ensures
            words == self@.remaining_words(),
            self@.wf(),
    {
        proof {
            use_type_invariant(self);
            self.lemma_view_wf();
        }
        match self.region {
            Descriptor::Growing { cursor, .. } => (usize::MAX - cursor) / self.word,
            Descriptor::Countdown { remaining, .. } => remaining,
        }
    }

    /// The model of an allocator is a region in good standing, and where the
    /// allocator counts down, its counter is the number of words that remain
    /// in the model.
    proof fn lemma_view_wf(&self)
        requires
            self.inv(),
        ensures
            self@.wf(),
            self.region matches Descriptor::Countdown { top, remaining, .. } ==> {
                &&& self@.remaining_words() == remaining
                &&& remaining * self.word <= top
            },
    {
        match self.region {
            Descriptor::Growing { .. } => {},
            Descriptor::Countdown { top, capacity, remaining } => {
                lemma_countdown_watermark(
                    top as int,
                    capacity as int,
                    remaining as int,
                    self.word as int,
                );
            },
        }
    }
}

/// In a countdown region the watermark lies `remaining` words below the top,
/// and the base `capacity` words below it.
proof fn lemma_countdown_watermark(top: int, capacity: int, remaining: int, word: int)
    requires
        word == 4 || word == 8,
        0 <= remaining <= capacity,
        capacity * word < top,
        top % word == 0,
    ensures
        0 < top - capacity * word <= top - remaining * word <= top,
        (top - capacity * word) % word == 0,
        (top - remaining * word) % word == 0,
        (top - (top - remaining * word)) / word == remaining,
{
    lemma_times_word(capacity, word);
    lemma_times_word(remaining, word);
    lemma_over_word(top, word);
    lemma_over_word(top - capacity * word, word);
    lemma_over_word(top - remaining * word, word);
    lemma_over_word(top - (top - remaining * word), word);
}

/// Counting `n` words off the words that remain raises the watermark by `n`
/// words.
proof fn lemma_countdown_step(top: int, remaining: int, n: int, word: int)
    requires
        word == 4 || word == 8,
        0 <= n <= remaining,
    ensures
        top - (remaining - n) * word == top - remaining * word + n * word,
{
    lemma_times_word(remaining, word);
    lemma_times_word(remaining - n, word);
    lemma_times_word(n, word);
}

} // verus!
