use vstd::prelude::*;

verus! {

/// How much of a text field's content the inverted index keeps, from the
/// poorest level to the richest.
#[derive(Clone, Copy, Debug, PartialEq, Eq, Structural)]
pub enum TextIndexingOptions {
    Unindexed,
    Untokenized,
    TokenizedNoFreq,
    TokenizedWithFreq,
    TokenizedWithFreqAndPosition,
}

impl TextIndexingOptions {
    /// Position of the level in the order
    /// `Unindexed < Untokenized < TokenizedNoFreq < TokenizedWithFreq < TokenizedWithFreqAndPosition`.
    pub open spec fn rank(self) -> nat {
        match self {
            TextIndexingOptions::Unindexed => 0,
            TextIndexingOptions::Untokenized => 1,
            TextIndexingOptions::TokenizedNoFreq => 2,
            TextIndexingOptions::TokenizedWithFreq => 3,
            TextIndexingOptions::TokenizedWithFreqAndPosition => 4,
        }
    }

    /// The richer of two levels.
    pub open spec fn max_spec(self, other: Self) -> Self {
        if self.rank() >= other.rank() {
            self
        } else {
            other
        }
    }

    /// Position of the level in the richness order.
    pub fn rank_of(&self) -> (r: u8)
        ensures
            r as nat == self.rank(),
    {
        match self {
            TextIndexingOptions::Unindexed => 0,
            TextIndexingOptions::Untokenized => 1,
            TextIndexingOptions::TokenizedNoFreq => 2,
            TextIndexingOptions::TokenizedWithFreq => 3,
            TextIndexingOptions::TokenizedWithFreqAndPosition => 4,
        }
    }

    /// The richer of `self` and `other`.
    pub fn max(self, other: Self) -> (r: Self)
        ensures
            r == self.max_spec(other),
    {
        if self.rank_of() >= other.rank_of() {
            self
        } else {
            other
        }
    }

    /// Whether the level puts the field into the inverted index at all.
    pub fn is_indexed(&self) -> (r: bool)
        ensures
            r == (self.rank() > 0),
    {
        !matches!(self, TextIndexingOptions::Unindexed)
    }

    /// Whether the level splits the text into several tokens.
    pub fn is_tokenized(&self) -> (r: bool)
        ensures
            r == (self.rank() >= 2),
    {
        self.rank_of() >= 2
    }
}

/// Options of a text field: whether its values are kept for retrieval, and
/// how richly they are indexed.
#[derive(Clone, Copy, Debug, PartialEq, Eq, Structural)]
pub struct TextOptions {
    pub stored: bool,
    pub indexing: TextIndexingOptions,
}

impl TextOptions {
    /// Union of two option sets: `stored` is or-ed, the richer indexing level
    /// is kept.
    pub open spec fn union_spec(self, other: Self) -> Self {
        TextOptions { stored: self.stored || other.stored, indexing: self.indexing.max_spec(other.indexing) }
    }

    /// Neither stored nor indexed.
    pub fn new() -> (r: Self)
        ensures
            r == (TextOptions { stored: false, indexing: TextIndexingOptions::Unindexed }),
    {
        TextOptions { stored: false, indexing: TextIndexingOptions::Unindexed }
    }

    /// Indexed with full tokenization, frequencies and positions; not stored.
    pub fn text() -> (r: Self)
        ensures
            r == (TextOptions { stored: false, indexing: TextIndexingOptions::TokenizedWithFreqAndPosition }),
    {
        TextOptions { stored: false, indexing: TextIndexingOptions::TokenizedWithFreqAndPosition }
    }

    /// Indexed as one untokenized token; not stored.
    pub fn string() -> (r: Self)
        ensures
            r == (TextOptions { stored: false, indexing: TextIndexingOptions::Untokenized }),
    {
        TextOptions { stored: false, indexing: TextIndexingOptions::Untokenized }
    }

    /// Stored only, unindexed.
    pub fn stored() -> (r: Self)
        ensures
            r == (TextOptions { stored: true, indexing: TextIndexingOptions::Unindexed }),
    {
        TextOptions { stored: true, indexing: TextIndexingOptions::Unindexed }
    }

    /// The same options, stored.
    pub fn set_stored(self) -> (r: Self)
        ensures
            r == (TextOptions { stored: true, ..self }),
    {
        TextOptions { stored: true, ..self }
    }

    /// The same options with the given indexing level.
    pub fn set_indexing_options(self, indexing: TextIndexingOptions) -> (r: Self)
        ensures
            r == (TextOptions { indexing, ..self }),
    {
        TextOptions { indexing, ..self }
    }

    /// Union of `self` and `other`.
    pub fn union(self, other: Self) -> (r: Self)
        ensures
            r == self.union_spec(other),
    {
        TextOptions { stored: self.stored || other.stored, indexing: self.indexing.max(other.indexing) }
    }

    pub fn is_stored(&self) -> (r: bool)
        ensures
            r == self.stored,
    {
        self.stored
    }

    pub fn get_indexing_options(&self) -> (r: TextIndexingOptions)
        ensures
            r == self.indexing,
    {
        self.indexing
    }
}

/// Options of a `u32` field: stored for retrieval, indexed for search, and
/// kept in a dense per-document column for fast lookup.
#[derive(Clone, Copy, Debug, PartialEq, Eq, Structural)]
pub struct U32Options {
    pub stored: bool,
    pub indexed: bool,
    pub fast: bool,
}

impl U32Options {
    /// Union of two option sets: each flag is or-ed.
    pub open spec fn union_spec(self, other: Self) -> Self {
        U32Options {
            stored: self.stored || other.stored,
            indexed: self.indexed || other.indexed,
            fast: self.fast || other.fast,
        }
    }

    /// No flag set.
    pub fn new() -> (r: Self)
        ensures
            r == (U32Options { stored: false, indexed: false, fast: false }),
    {
        U32Options { stored: false, indexed: false, fast: false }
    }

    /// Only the fast flag set.
    pub fn fast() -> (r: Self)
        ensures
            r == (U32Options { stored: false, indexed: false, fast: true }),
    {
        U32Options { stored: false, indexed: false, fast: true }
    }

    /// The same options, stored.
    pub fn set_stored(self) -> (r: Self)
        ensures
            r == (U32Options { stored: true, ..self }),
    {
        U32Options { stored: true, ..self }
    }

    /// The same options, indexed.
    pub fn set_indexed(self) -> (r: Self)
        ensures
            r == (U32Options { indexed: true, ..self }),
    {
        U32Options { indexed: true, ..self }
    }

    /// The same options, fast.
    pub fn set_fast(self) -> (r: Self)
        ensures
            r == (U32Options { fast: true, ..self }),
    {
        U32Options { fast: true, ..self }
    }

    /// Union of `self` and `other`.
    pub fn union(self, other: Self) -> (r: Self)
        ensures
            r == self.union_spec(other),
    {
        U32Options {
            stored: self.stored || other.stored,
            indexed: self.indexed || other.indexed,
            fast: self.fast || other.fast,
        }
    }

    pub fn is_stored(&self) -> (r: bool)
        ensures
            r == self.stored,
    {
        self.stored
    }

    pub fn is_indexed(&self) -> (r: bool)
        ensures
            r == self.indexed,
    {
        self.indexed
    }

    pub fn is_fast(&self) -> (r: bool)
        ensures
            r == self.fast,
    {
        self.fast
    }
}

impl core::ops::BitOr for TextOptions {
    type Output = TextOptions;

    /// `a | b` is the union of `a` and `b`.
    fn bitor(self, rhs: TextOptions) -> (r: TextOptions)
        ensures
            r == self.union_spec(rhs),
    {
        self.union(rhs)
    }
}

impl vstd::std_specs::ops::BitOrSpecImpl for TextOptions {
    open spec fn obeys_bitor_spec() -> bool {
        true
    }

    open spec fn bitor_req(self, rhs: TextOptions) -> bool {
        true
    }

    open spec fn bitor_spec(self, rhs: TextOptions) -> TextOptions {
        self.union_spec(rhs)
    }
}

impl core::ops::BitOr for U32Options {
    type Output = U32Options;

    /// `a | b` is the union of `a` and `b`.
    fn bitor(self, rhs: U32Options) -> (r: U32Options)
        ensures
            r == self.union_spec(rhs),
    {
        self.union(rhs)
    }
}

impl vstd::std_specs::ops::BitOrSpecImpl for U32Options {
    open spec fn obeys_bitor_spec() -> bool {
        true
    }

    open spec fn bitor_req(self, rhs: U32Options) -> bool {
        true
    }

    open spec fn bitor_spec(self, rhs: U32Options) -> U32Options {
        self.union_spec(rhs)
    }
}

/// Union of text options is associative, commutative and idempotent.
pub proof fn lemma_text_union_laws(a: TextOptions, b: TextOptions, c: TextOptions)
    ensures
        a.union_spec(b).union_spec(c) == a.union_spec(b.union_spec(c)),
        a.union_spec(b) == b.union_spec(a),
        a.union_spec(a) == a,
{
    lemma_rank_injective(a.indexing, b.indexing);
}

/// Union of `u32` options is associative, commutative and idempotent.
pub proof fn lemma_u32_union_laws(a: U32Options, b: U32Options, c: U32Options)
    ensures
        a.union_spec(b).union_spec(c) == a.union_spec(b.union_spec(c)),
        a.union_spec(b) == b.union_spec(a),
        a.union_spec(a) == a,
{
}

/// Two levels of equal rank are the same level.
proof fn lemma_rank_injective(x: TextIndexingOptions, y: TextIndexingOptions)
    ensures
        x.rank() == y.rank() ==> x == y,
{
}

/// Setting a flag is the same as taking the union with the option set that
/// has only that flag, so builder calls and unions can be mixed in any order.
pub proof fn lemma_setters_are_unions(t: TextOptions, u: U32Options)
    ensures
        t.union_spec(TextOptions { stored: true, indexing: TextIndexingOptions::Unindexed }) == (TextOptions { stored: true, ..t }),
        u.union_spec(U32Options { stored: true, indexed: false, fast: false }) == (U32Options { stored: true, ..u }),
        u.union_spec(U32Options { stored: false, indexed: true, fast: false }) == (U32Options { indexed: true, ..u }),
        u.union_spec(U32Options { stored: false, indexed: false, fast: true }) == (U32Options { fast: true, ..u }),
{
}

} // verus!
