use vstd::prelude::*;

verus! {

/// Number of size classes in the table.
pub const NUM_CLASSES: usize = 32;

/// Index of the largest size class; larger requests saturate here.
pub const MAX_CLASS_INDEX: usize = 31;

/// Base magnitude of band `b` (four classes per band): 8, 64, 512, ...
pub open spec fn band_base(b: nat) -> nat
    decreases b,
{
    if b == 0 {
        8
    } else {
        8 * band_base((b - 1) as nat)
    }
}

/// Byte size of class `i`: the band's base times the position in the band (1 to 4).
pub open spec fn class_size(i: nat) -> nat {
    band_base(i / 4) * ((i % 4) + 1)
}

/// First class index, starting the scan at `i`, whose size holds `n` bytes,
/// stopping at the last class regardless.
pub open spec fn first_fit_from(i: nat, n: nat) -> nat
    decreases MAX_CLASS_INDEX - i,
{
    if i >= MAX_CLASS_INDEX || class_size(i) >= n {
        i
    } else {
        first_fit_from(i + 1, n)
    }
}

/// The class that a request of `n` bytes is served from.
pub open spec fn class_index_of(n: nat) -> nat {
    first_fit_from(0, n)
}

pub proof fn lemma_band_base_pos(b: nat)
    ensures
        band_base(b) >= 8,
    decreases b,
{
    if b > 0 {
        lemma_band_base_pos((b - 1) as nat);
    }
}

pub proof fn lemma_band_base_grows(b1: nat, b2: nat)
    requires
        b1 < b2,
    ensures
        8 * band_base(b1) <= band_base(b2),
    decreases b2,
{
    if b1 + 1 < b2 {
        lemma_band_base_grows(b1, (b2 - 1) as nat);
        lemma_band_base_pos((b2 - 1) as nat);
    }
}

/// Class sizes strictly increase with the index.
pub proof fn lemma_class_size_increasing(i: nat, j: nat)
    requires
        i < j,
    ensures
        class_size(i) < class_size(j),
{
    let bi = i / 4;
    let bj = j / 4;
    lemma_band_base_pos(bi);
    if bi == bj {
        assert(i % 4 < j % 4);
        assert(band_base(bi) * ((i % 4) + 1) < band_base(bi) * ((j % 4) + 1)) by (nonlinear_arith)
            requires
                band_base(bi) >= 8,
                i % 4 < j % 4,
        ;
    } else {
        assert(bi < bj);
        lemma_band_base_grows(bi, bj);
        assert(band_base(bi) * ((i % 4) + 1) <= band_base(bi) * 4) by (nonlinear_arith)
            requires
                i % 4 < 4,
        ;
        assert(band_base(bj) <= band_base(bj) * ((j % 4) + 1)) by (nonlinear_arith);
    }
}

/// Scanning from `i` yields a class at or after `i`, within the table, that
/// holds `n` unless it is the last one, and no class scanned before it holds `n`.
pub proof fn lemma_first_fit_from(i: nat, n: nat)
    requires
        i <= MAX_CLASS_INDEX,
    ensures
        i <= first_fit_from(i, n) <= MAX_CLASS_INDEX,
        class_size(first_fit_from(i, n)) >= n || first_fit_from(i, n) == MAX_CLASS_INDEX,
        forall|j: nat| i <= j < first_fit_from(i, n) ==> class_size(j) < n,
    decreases MAX_CLASS_INDEX - i,
{
    if i < MAX_CLASS_INDEX && class_size(i) < n {
        lemma_first_fit_from(i + 1, n);
    }
}

/// The derived class holds every request up to the largest class's size, and
/// no class with a smaller index would hold it.
pub proof fn lemma_class_fits_and_is_minimal(n: nat)
    requires
        1 <= n <= class_size(MAX_CLASS_INDEX as nat),
    ensures
        class_index_of(n) <= MAX_CLASS_INDEX,
        class_size(class_index_of(n)) >= n,
        forall|j: nat| j < class_index_of(n) ==> class_size(j) < n,
{
    lemma_first_fit_from(0, n);
}

/// Class derivation is monotonic in the requested size.
pub proof fn lemma_class_index_monotonic(n1: nat, n2: nat)
    requires
        n1 <= n2,
    ensures
        class_index_of(n1) <= class_index_of(n2),
{
    lemma_first_fit_from(0, n1);
    lemma_first_fit_from(0, n2);
    let i1 = class_index_of(n1);
    let i2 = class_index_of(n2);
    if i2 < i1 {
        // i2 < 31, so class i2 holds n2 >= n1, yet every class before i1 is too small for n1.
        assert(class_size(i2) < n1);
    }
}

/// One size class: its index in the table and its canonical byte size.
pub struct SizeClass {
    index: usize,
    size: usize,
}

impl SizeClass {
    pub closed spec fn spec_index(&self) -> nat {
        self.index as nat
    }

    pub closed spec fn spec_size(&self) -> nat {
        self.size as nat
    }

    /// A class read from the table: a valid index and its size.
    pub open spec fn wf(&self) -> bool {
        self.spec_index() < NUM_CLASSES && self.spec_size() == class_size(self.spec_index())
    }

    /// The class at `index`, with indices past the table clamped to the last class.
    pub fn new(index: usize) -> (r: SizeClass)
        ensures
            r.wf(),
            r.spec_index() == if index >= MAX_CLASS_INDEX {
                MAX_CLASS_INDEX as nat
            } else {
                index as nat
            },
    {
        let index = if index >= MAX_CLASS_INDEX {
            MAX_CLASS_INDEX
        } else {
            index
        };
        proof {
            reveal_with_fuel(band_base, 8);
        }
        let base: usize = match index / 4 {
            0 => 8,
            1 => 64,
            2 => 512,
            3 => 4096,
            4 => 32768,
            5 => 262144,
            6 => 2097152,
            _ => 16777216,
        };
        let position: usize = index % 4 + 1;
        assert(base as nat == band_base((index / 4) as nat));
        assert(base * position <= 16777216 * 4) by (nonlinear_arith)
            requires
                base <= 16777216,
                position <= 4,
        ;
        SizeClass { index, size: base * position }
    }

    /// The smallest class whose size holds `size` bytes, scanning from class 0
    /// and saturating at the last class.
    pub fn from_size(size: usize) -> (r: SizeClass)
        ensures
            r.wf(),
            r.spec_index() == class_index_of(size as nat),
            r.spec_size() >= size || r.spec_index() == MAX_CLASS_INDEX,
            forall|j: nat| j < r.spec_index() ==> class_size(j) < size,
    {
        let mut index: usize = 0;
        let mut current_size: usize = 8;
        assert(class_size(0) == 8) by {
            assert(0nat / 4 == 0 && 0nat % 4 == 0);
            assert(band_base(0) == 8);
        }
        while current_size < size && index < MAX_CLASS_INDEX
            invariant
                index <= MAX_CLASS_INDEX,
                current_size as nat == class_size(index as nat),
                first_fit_from(index as nat, size as nat) == class_index_of(size as nat),
                forall|j: nat| j < index ==> class_size(j) < size,
            decreases MAX_CLASS_INDEX - index,
        {
            index = index + 1;
            current_size = SizeClass::new(index).size;
        }
        proof {
            lemma_first_fit_from(0, size as nat);
        }
        SizeClass::new(index)
    }

    /// The class at `index` (clamped to the last class).
    pub fn from_index(index: usize) -> (r: SizeClass)
        ensures
            r.wf(),
            r.spec_index() == if index >= MAX_CLASS_INDEX {
                MAX_CLASS_INDEX as nat
            } else {
                index as nat
            },
    {
        SizeClass::new(index)
    }

    pub fn size(&self) -> (r: usize)
        ensures
            r as nat == self.spec_size(),
    {
        self.size
    }

    pub fn index(&self) -> (r: usize)
        ensures
            r as nat == self.spec_index(),
    {
        self.index
    }
}

} // verus!
