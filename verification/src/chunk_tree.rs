//! The chunk map: an append-only mapping from logical byte ranges to
//! physical offsets.  All B-tree pointers in the image speak logical
//! addresses; this map is what turns them into offsets into the image.
use vstd::prelude::*;
use vstd::string::StringExecFns;

verus! {

/// The decimal digit character for `d < 10`.
pub open spec fn spec_digit(d: nat) -> char {
    if d == 0 {
        '0'
    } else if d == 1 {
        '1'
    } else if d == 2 {
        '2'
    } else if d == 3 {
        '3'
    } else if d == 4 {
        '4'
    } else if d == 5 {
        '5'
    } else if d == 6 {
        '6'
    } else if d == 7 {
        '7'
    } else if d == 8 {
        '8'
    } else {
        '9'
    }
}

/// The decimal rendering of `n`, most significant digit first.
pub open spec fn spec_decimal(n: nat) -> Seq<char>
    decreases n,
{
    if n < 10 {
        seq![spec_digit(n)]
    } else {
        spec_decimal(n / 10) + seq![spec_digit(n % 10)]
    }
}

/// Appends the decimal rendering of `n` to `s`.
fn append_decimal(s: &mut String, n: u64)
    ensures
        final(s)@ == old(s)@ + spec_decimal(n as nat),
    decreases n,
{
    let ghost start = s@;
    if n >= 10 {
        append_decimal(s, n / 10);
    }
    let d = n % 10;
    proof {
        reveal_strlit("0");
        reveal_strlit("1");
        reveal_strlit("2");
        reveal_strlit("3");
        reveal_strlit("4");
        reveal_strlit("5");
        reveal_strlit("6");
        reveal_strlit("7");
        reveal_strlit("8");
        reveal_strlit("9");
    }
    match d {
        0 => s.append("0"),
        1 => s.append("1"),
        2 => s.append("2"),
        3 => s.append("3"),
        4 => s.append("4"),
        5 => s.append("5"),
        6 => s.append("6"),
        7 => s.append("7"),
        8 => s.append("8"),
        _ => s.append("9"),
    }
    proof {
        assert(s@ =~= start + spec_decimal(n as nat));
    }
}

/// A logical byte range `[start, start + size)`.
#[derive(Default, Clone, Copy, Debug, PartialEq, Eq, Structural)]
pub struct ChunkTreeKey {
    pub start: u64,
    pub size: u64,
}

/// Two half-open ranges overlap exactly when each starts before the
/// other ends.
pub open spec fn ranges_overlap(a: ChunkTreeKey, b: ChunkTreeKey) -> bool {
    a.start < b.start + b.size && b.start < a.start + a.size
}

/// Whether `logical` lies inside the half-open range of `k`.
pub open spec fn covers(k: ChunkTreeKey, logical: u64) -> bool {
    k.start <= logical && logical < k.start + k.size
}

/// Whether `k` overlaps some entry already in `entries`.
pub open spec fn overlaps_any(entries: Seq<(ChunkTreeKey, u64)>, k: ChunkTreeKey) -> bool {
    exists|i: int| 0 <= i < entries.len() && ranges_overlap(entries[i].0, k)
}

/// Pairwise disjointness of all ranges held in `entries`.
pub open spec fn disjoint_entries(entries: Seq<(ChunkTreeKey, u64)>) -> bool {
    forall|i: int, j: int|
        0 <= i < entries.len() && 0 <= j < entries.len() && i != j
            ==> !ranges_overlap(#[trigger] entries[i].0, #[trigger] entries[j].0)
}

/// The first entry at index `i` or later whose range contains `logical`.
pub open spec fn spec_find_from(
    entries: Seq<(ChunkTreeKey, u64)>,
    logical: u64,
    i: int,
) -> Option<(ChunkTreeKey, u64)>
    decreases entries.len() - i,
{
    if i < 0 || i >= entries.len() {
        None
    } else if covers(entries[i].0, logical) {
        Some(entries[i])
    } else {
        spec_find_from(entries, logical, i + 1)
    }
}

/// The entry whose range contains `logical`, if any.
pub open spec fn spec_find(
    entries: Seq<(ChunkTreeKey, u64)>,
    logical: u64,
) -> Option<(ChunkTreeKey, u64)> {
    spec_find_from(entries, logical, 0)
}

/// The physical offset of `logical`: `phys + (logical - start)` for the
/// containing entry.  `None` when no entry contains `logical`, or when the
/// sum does not fit in a machine word.
pub open spec fn spec_offset(entries: Seq<(ChunkTreeKey, u64)>, logical: u64) -> Option<u64> {
    match spec_find(entries, logical) {
        Some((k, phys)) => if phys + logical - k.start <= u64::MAX {
            Some((phys + logical - k.start) as u64)
        } else {
            None
        },
        None => None,
    }
}

/// An append-only map from logical ranges to physical offsets.  Entries are
/// only ever added, never mutated or removed, and insertion rejects any
/// range that overlaps an existing one.
pub struct ChunkTree {
    vec: Vec<(ChunkTreeKey, u64)>,
}

impl View for ChunkTree {
    type V = Seq<(ChunkTreeKey, u64)>;

    closed spec fn view(&self) -> Seq<(ChunkTreeKey, u64)> {
        self.vec@
    }
}

impl ChunkTree {
    /// The map's standing invariant: all stored ranges are pairwise
    /// disjoint.  `new` establishes it and `insert` preserves it.
    pub open spec fn wf(&self) -> bool {
        disjoint_entries(self@)
    }

    pub fn new() -> (r: ChunkTree)
        ensures
            r@ == Seq::<(ChunkTreeKey, u64)>::empty(),
            r.wf(),
    {
        ChunkTree { vec: Vec::new() }
    }

    /// Number of entries held.
    pub fn len(&self) -> (r: usize)
        ensures
            r == self@.len(),
    {
        self.vec.len()
    }

    /// The entry at position `i`, in insertion order.
    pub fn get(&self, i: usize) -> (r: (ChunkTreeKey, u64))
        requires
            i < self@.len(),
        ensures
            r == self@[i as int],
    {
        self.vec[i]
    }

    /// Whether `key` overlaps some entry already in the map.
    pub fn check_for_overlap(&self, key: &ChunkTreeKey) -> (r: bool)
        ensures
            r == overlaps_any(self@, *key),
    {
        let n = self.vec.len();
        let mut i: usize = 0;
        while i < n
            invariant
                n == self@.len(),
                i <= n,
                forall|j: int| 0 <= j < i ==> !ranges_overlap(#[trigger] self@[j].0, *key),
            decreases n - i,
        {
            let k = self.vec[i].0;
            let hit = if key.start >= k.start {
                key.start - k.start < k.size && (key.start > k.start || key.size > 0)
            } else {
                k.start - key.start < key.size
            };
            if hit {
                assert(ranges_overlap(self@[i as int].0, *key));
                return true;
            }
            assert(!ranges_overlap(self@[i as int].0, *key));
            i = i + 1;
        }
        false
    }

    /// The unique entry whose range contains `logical`, or `None`.
    pub fn find_logical(&self, logical: u64) -> (r: Option<(ChunkTreeKey, u64)>)
        ensures
            r == spec_find(self@, logical),
    {
        let n = self.vec.len();
        let mut i: usize = 0;
        while i < n
            invariant
                n == self@.len(),
                i <= n,
                spec_find(self@, logical) == spec_find_from(self@, logical, i as int),
            decreases n - i,
        {
            let (k, off) = self.vec[i];
            if logical >= k.start && logical - k.start < k.size {
                assert(covers(k, logical));
                return Some((k, off));
            }
            assert(!covers(self@[i as int].0, logical));
            i = i + 1;
        }
        None
    }

    /// The physical offset backing `logical`: `phys + (logical - start)`
    /// for the containing entry.
    pub fn offset(&self, logical: u64) -> (r: Option<u64>)
        ensures
            r == spec_offset(self@, logical),
    {
        match self.find_logical(logical) {
            Some((k, v)) => {
                proof {
                    lemma_find_characterizes(self@, logical);
                }
                let delta = logical - k.start;
                if v <= u64::MAX - delta {
                    Some(v + delta)
                } else {
                    None
                }
            },
            None => None,
        }
    }

    /// One line of the map's textual rendering.
    pub open spec fn spec_entry_line(k: ChunkTreeKey, off: u64) -> Seq<char> {
        "Logical start "@ + spec_decimal(k.start as nat) + ", Logical size "@ + spec_decimal(
            k.size as nat,
        ) + ", Physical off: "@ + spec_decimal(off as nat)
    }

    /// The textual rendering of the entries from index `i` on.
    pub open spec fn spec_display(entries: Seq<(ChunkTreeKey, u64)>, i: int) -> Seq<char>
        decreases entries.len() - i,
    {
        if i < 0 || i >= entries.len() {
            Seq::empty()
        } else {
            Self::spec_entry_line(entries[i].0, entries[i].1) + Self::spec_display(entries, i + 1)
        }
    }

    /// The map rendered as text, one fragment per entry in insertion
    /// order.
    pub fn display_string(&self) -> (r: String)
        ensures
            r@ == Self::spec_display(self@, 0),
    {
        let mut s = String::new();
        let n = self.vec.len();
        let mut i: usize = 0;
        while i < n
            invariant
                n == self@.len(),
                i <= n,
                s@ + Self::spec_display(self@, i as int) == Self::spec_display(self@, 0),
            decreases n - i,
        {
            let (k, off) = self.vec[i];
            let ghost pre = s@;
            s.append("Logical start ");
            append_decimal(&mut s, k.start);
            s.append(", Logical size ");
            append_decimal(&mut s, k.size);
            s.append(", Physical off: ");
            append_decimal(&mut s, off);
            proof {
                assert(s@ =~= pre + Self::spec_entry_line(k, off));
                assert(s@ + Self::spec_display(self@, i as int + 1) =~= pre + Self::spec_display(
                    self@,
                    i as int,
                ));
            }
            i = i + 1;
        }
        proof {
            assert(s@ =~= Self::spec_display(self@, 0));
        }
        s
    }

    /// Adds `key -> offset` unless `key` overlaps an existing entry;
    /// rejection leaves the map unchanged.  Disjointness of the stored
    /// ranges is preserved by every call.
    pub fn insert(&mut self, key: ChunkTreeKey, offset: u64) -> (r: Result<i32, i32>)
        ensures
            overlaps_any(old(self)@, key) ==> r == Err::<i32, i32>(1) && final(self)@ == old(
                self,
            )@,
            !overlaps_any(old(self)@, key) ==> r == Ok::<i32, i32>(0) && final(self)@ == old(
                self,
            )@.push((key, offset)),
            old(self).wf() ==> final(self).wf(),
    {
        if self.check_for_overlap(&key) {
            return Err(1);
        }
        self.vec.push((key, offset));
        Ok(0)
    }
}

/// Looking up a covered address finds exactly the covering entry: with
/// disjoint ranges no other entry can contain the same address.
pub proof fn lemma_find_covering(entries: Seq<(ChunkTreeKey, u64)>, logical: u64, i: int)
    requires
        disjoint_entries(entries),
        0 <= i < entries.len(),
        covers(entries[i].0, logical),
    ensures
        spec_find(entries, logical) == Some(entries[i]),
{
    lemma_find_covering_from(entries, logical, i, 0);
}

proof fn lemma_find_covering_from(entries: Seq<(ChunkTreeKey, u64)>, logical: u64, i: int, j: int)
    requires
        disjoint_entries(entries),
        0 <= j <= i < entries.len(),
        covers(entries[i].0, logical),
    ensures
        spec_find_from(entries, logical, j) == Some(entries[i]),
    decreases i - j,
{
    if j == i {
    } else {
        if covers(entries[j].0, logical) {
            assert(ranges_overlap(entries[j].0, entries[i].0));
            assert(false);
        }
        lemma_find_covering_from(entries, logical, i, j + 1);
    }
}

/// A successful lookup returns an entry of the map that contains the
/// address; a failed lookup means no entry does.
pub proof fn lemma_find_characterizes(entries: Seq<(ChunkTreeKey, u64)>, logical: u64)
    ensures
        match spec_find(entries, logical) {
            Some(e) => entries.contains(e) && covers(e.0, logical),
            None => forall|i: int| 0 <= i < entries.len() ==> !covers(#[trigger] entries[i].0, logical),
        },
{
    lemma_find_characterizes_from(entries, logical, 0);
}

proof fn lemma_find_characterizes_from(entries: Seq<(ChunkTreeKey, u64)>, logical: u64, j: int)
    requires
        0 <= j,
    ensures
        match spec_find_from(entries, logical, j) {
            Some(e) => entries.contains(e) && covers(e.0, logical),
            None => forall|i: int| j <= i < entries.len() ==> !covers(#[trigger] entries[i].0, logical),
        },
    decreases entries.len() - j,
{
    if j < entries.len() {
        lemma_find_characterizes_from(entries, logical, j + 1);
    }
}

/// Translation identity: translating an address `delta` bytes into an
/// entry's range lands `delta` bytes into its physical image.  The one
/// family of inputs left out is the range that a machine word cannot
/// address: `e.0.start + delta` and `e.1 + delta` must fit in a `u64`.
pub proof fn lemma_translate_identity(
    entries: Seq<(ChunkTreeKey, u64)>,
    e: (ChunkTreeKey, u64),
    delta: u64,
)
    requires
        disjoint_entries(entries),
        entries.contains(e),
        delta < e.0.size,
        e.0.start + delta <= u64::MAX,
        e.1 + delta <= u64::MAX,
    ensures
        spec_offset(entries, (e.0.start + delta) as u64) == Some((e.1 + delta) as u64),
{
    let logical = (e.0.start + delta) as u64;
    let i = choose|i: int| 0 <= i < entries.len() && entries[i] == e;
    assert(covers(e.0, logical));
    lemma_find_covering(entries, logical, i);
}

/// Translations persist as the map grows: the map is append-only, so an
/// address resolvable at some point of a walk stays resolvable, to the
/// same physical offset, in every later state of the map.
pub proof fn lemma_offset_monotone(
    entries1: Seq<(ChunkTreeKey, u64)>,
    entries2: Seq<(ChunkTreeKey, u64)>,
    logical: u64,
)
    requires
        entries1.is_prefix_of(entries2),
        spec_find(entries1, logical) is Some,
    ensures
        spec_find(entries2, logical) == spec_find(entries1, logical),
        spec_offset(entries2, logical) == spec_offset(entries1, logical),
{
    lemma_find_prefix_from(entries1, entries2, logical, 0);
}

proof fn lemma_find_prefix_from(
    entries1: Seq<(ChunkTreeKey, u64)>,
    entries2: Seq<(ChunkTreeKey, u64)>,
    logical: u64,
    j: int,
)
    requires
        entries1.is_prefix_of(entries2),
        0 <= j,
        spec_find_from(entries1, logical, j) is Some,
    ensures
        spec_find_from(entries2, logical, j) == spec_find_from(entries1, logical, j),
    decreases entries1.len() - j,
{
    if j < entries1.len() {
        assert(entries2[j] == entries1[j]);
        if !covers(entries1[j].0, logical) {
            lemma_find_prefix_from(entries1, entries2, logical, j + 1);
        }
    }
}

} // verus!
