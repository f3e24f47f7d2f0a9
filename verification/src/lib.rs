//! String interning: a table that deduplicates text values and hands out
//! stable handles, such that equal content always yields the identical
//! handle within one table.
//!
//! The table is an explicit value passed to every call site, so each
//! isolation domain (thread, worker, context) owns its own table; the
//! identity guarantee is scoped to a single table instance.

use vstd::prelude::*;

mod static_str;

pub use static_str::StaticStr;
pub use static_str::lemma_codec_round_trip;

verus! {

/// Pairwise-distinct contents: no two entries of the table hold equal text.
pub open spec fn distinct_entries(t: Seq<Seq<char>>) -> bool {
    forall|i: int, j: int|
        0 <= i < t.len() && 0 <= j < t.len() && i != j ==> t[i] != t[j]
}

/// Whether some entry of the table holds exactly the content `s`.
pub open spec fn table_contains(t: Seq<Seq<char>>, s: Seq<char>) -> bool {
    exists|i: int| 0 <= i < t.len() && t[i] == s
}

/// The slot of the entry holding `s`; meaningful only when `table_contains(t, s)`
/// and the entries are distinct, which makes the slot unique.
pub open spec fn handle_of(t: Seq<Seq<char>>, s: Seq<char>) -> int {
    choose|i: int| 0 <= i < t.len() && t[i] == s
}

/// The table after interning `s`: unchanged when `s` is already present,
/// extended by one entry holding `s` otherwise.
pub open spec fn spec_intern_table(t: Seq<Seq<char>>, s: Seq<char>) -> Seq<Seq<char>> {
    if table_contains(t, s) {
        t
    } else {
        t.push(s)
    }
}

/// The handle returned by interning `s`: the slot already holding `s` when
/// present, the freshly filled slot otherwise.
pub open spec fn spec_intern_handle(t: Seq<Seq<char>>, s: Seq<char>) -> int {
    if table_contains(t, s) {
        handle_of(t, s)
    } else {
        t.len() as int
    }
}

/// A deduplicating intern table. It owns one storage block per distinct
/// content value ever interned; storage only grows and existing entries are
/// never moved, overwritten or released while the table lives.
pub struct InternTable {
    entries: Vec<String>,
}

impl View for InternTable {
    type V = Seq<Seq<char>>;

    closed spec fn view(&self) -> Seq<Seq<char>> {
        self.entries@.map_values(|e: String| e@)
    }
}

impl InternTable {
    /// Well-formed table: entries are unique by content, which is what makes
    /// a handle the identity of its content.
    pub open spec fn wf(&self) -> bool {
        distinct_entries(self@)
    }

    /// Create an empty table.
    pub fn new() -> (t: InternTable)
        ensures
            t@ == Seq::<Seq<char>>::empty(),
            t.wf(),
    {
        InternTable { entries: Vec::new() }
    }

    /// Number of distinct content values interned so far.
    pub fn len(&self) -> (n: usize)
        ensures
            n == self@.len(),
    {
        self.entries.len()
    }

    /// Read the content stored in slot `h`. The returned borrow is valid for
    /// as long as the table is, and the entry it points at never changes.
    pub fn get(&self, h: usize) -> (r: &str)
        requires
            h < self@.len(),
        ensures
            r@ == self@[h as int],
    {
        self.entries[h].as_str()
    }

    /// Intern `s`: return the handle of the entry already holding equal
    /// content, or copy `s` into a fresh entry and return its handle.
    /// Equal content always yields the identical handle on one table.
    pub fn intern(&mut self, s: &str) -> (h: usize)
        requires
            old(self).wf(),
        ensures
            final(self).wf(),
            h < final(self)@.len(),
            final(self)@[h as int] == s@,
            final(self)@ == spec_intern_table(old(self)@, s@),
            h as int == spec_intern_handle(old(self)@, s@),
    {
        let owned: String = s.to_owned();
        let n: usize = self.entries.len();
        let mut i: usize = 0;
        while i < n
            invariant
                n == self.entries@.len(),
                i <= n,
                forall|j: int| 0 <= j < i ==> self@[j] != s@,
                *self == *old(self),
                self.wf(),
                owned@ == s@,
            decreases n - i,
        {
            if self.entries[i].eq(&owned) {
                proof {
                    assert(self@[i as int] == s@);
                    lemma_handle_unique(self@, s@, i as int);
                }
                return i;
            }
            i += 1;
        }
        proof {
            assert(!table_contains(self@, s@));
        }
        self.entries.push(owned);
        proof {
            assert(self@ =~= old(self)@.push(s@));
            lemma_intern_preserves_distinct(old(self)@, s@);
        }
        self.entries.len() - 1
    }
}

/// Intern `s` in `table` and return a stable handle to its content.
///
/// The handle stays valid for the table's whole lifetime: the entry it
/// names is never moved, changed or released. Interning equal content on
/// the same table returns the identical handle every time; only the first
/// sight of a content value adds an entry.
pub fn static_str(table: &mut InternTable, s: &str) -> (h: usize)
    requires
        old(table).wf(),
    ensures
        final(table).wf(),
        h < final(table)@.len(),
        final(table)@[h as int] == s@,
        final(table)@ == spec_intern_table(old(table)@, s@),
        h as int == spec_intern_handle(old(table)@, s@),
{
    table.intern(s)
}

/// In a table with distinct entries, the slot holding `s` is unique, and
/// `handle_of` picks exactly it.
pub proof fn lemma_handle_unique(t: Seq<Seq<char>>, s: Seq<char>, i: int)
    requires
        distinct_entries(t),
        0 <= i < t.len(),
        t[i] == s,
    ensures
        table_contains(t, s),
        handle_of(t, s) == i,
        spec_intern_table(t, s) == t,
        spec_intern_handle(t, s) == i,
{
    assert(table_contains(t, s));
    let k = handle_of(t, s);
    assert(t[k] == s);
    if k != i {
        assert(t[k] != t[i]);
    }
}

/// Interning preserves distinctness of the table's entries.
pub proof fn lemma_intern_preserves_distinct(t: Seq<Seq<char>>, s: Seq<char>)
    requires
        distinct_entries(t),
    ensures
        distinct_entries(spec_intern_table(t, s)),
{
    if !table_contains(t, s) {
        let t1 = t.push(s);
        assert forall|p: int, q: int|
            0 <= p < t1.len() && 0 <= q < t1.len() && p != q implies t1[p] != t1[q] by {
            if p < t.len() && q < t.len() {
                assert(t1[p] == t[p] && t1[q] == t[q]);
            } else if p == t.len() {
                assert(t1[q] == t[q] && t1[p] == s);
            } else {
                assert(t1[p] == t[p] && t1[q] == s);
            }
        }
    }
}

/// Content preservation: the slot that interning `s` returns holds exactly
/// `s`, in the table as it stands after the call.
pub proof fn lemma_content_preservation(t: Seq<Seq<char>>, s: Seq<char>)
    requires
        distinct_entries(t),
    ensures
        0 <= spec_intern_handle(t, s) < spec_intern_table(t, s).len(),
        spec_intern_table(t, s)[spec_intern_handle(t, s)] == s,
{
    if table_contains(t, s) {
        let k = handle_of(t, s);
        assert(t[k] == s);
    }
}

/// Identity invariant: interning the same content twice in a row on one
/// table yields the identical handle, and the second call leaves the table
/// unchanged.
pub proof fn lemma_identity(t: Seq<Seq<char>>, a: Seq<char>, b: Seq<char>)
    requires
        distinct_entries(t),
        a == b,
    ensures
        spec_intern_handle(spec_intern_table(t, a), b) == spec_intern_handle(t, a),
        spec_intern_table(spec_intern_table(t, a), b) == spec_intern_table(t, a),
{
    let t1 = spec_intern_table(t, a);
    let h1 = spec_intern_handle(t, a);
    lemma_intern_preserves_distinct(t, a);
    lemma_content_preservation(t, a);
    lemma_handle_unique(t1, b, h1);
}

/// Distinctness: interning different content right after interning `a`
/// yields a different handle.
pub proof fn lemma_distinctness(t: Seq<Seq<char>>, a: Seq<char>, b: Seq<char>)
    requires
        distinct_entries(t),
        a != b,
    ensures
        spec_intern_handle(spec_intern_table(t, a), b) != spec_intern_handle(t, a),
{
    let t1 = spec_intern_table(t, a);
    let h1 = spec_intern_handle(t, a);
    let h2 = spec_intern_handle(t1, b);
    lemma_intern_preserves_distinct(t, a);
    lemma_content_preservation(t, a);
    lemma_content_preservation(t1, b);
    assert(t1[h1] == a);
    if table_contains(t1, b) {
        assert(t1[h2] == b);
    } else {
        assert(h2 == t1.len());
    }
}

/// Monotonic growth: interning never shrinks the table and never changes
/// or moves an existing entry, so every handle handed out earlier keeps
/// naming the same content.
pub proof fn lemma_monotonic_growth(t: Seq<Seq<char>>, s: Seq<char>)
    ensures
        spec_intern_table(t, s).len() >= t.len(),
        forall|j: int| 0 <= j < t.len() ==> spec_intern_table(t, s)[j] == t[j],
{
}

/// The table reached by interning `s` into `t`, `n` times over.
pub open spec fn spec_intern_iter(t: Seq<Seq<char>>, s: Seq<char>, n: nat) -> Seq<Seq<char>>
    decreases n,
{
    if n == 0 {
        t
    } else {
        spec_intern_table(spec_intern_iter(t, s, (n - 1) as nat), s)
    }
}

/// Idempotent growth: interning the same value `n >= 1` times leaves the
/// table exactly as one intern does, so storage grows by one entry on the
/// first sight of the value and never again.
pub proof fn lemma_idempotent_growth(t: Seq<Seq<char>>, s: Seq<char>, n: nat)
    requires
        n >= 1,
    ensures
        spec_intern_iter(t, s, n) == spec_intern_table(t, s),
        spec_intern_table(t, s).len() == t.len() + (if table_contains(t, s) {
            0int
        } else {
            1int
        }),
    decreases n,
{
    if n > 1 {
        lemma_idempotent_growth(t, s, (n - 1) as nat);
        let t1 = spec_intern_table(t, s);
        if table_contains(t, s) {
            assert(table_contains(t1, s));
        } else {
            assert(t1[t.len() as int] == s);
            assert(table_contains(t1, s));
        }
        assert(spec_intern_iter(t, s, n) == spec_intern_table(
            spec_intern_iter(t, s, (n - 1) as nat),
            s,
        ));
        assert(spec_intern_table(t1, s) == t1);
    } else {
        assert(spec_intern_iter(t, s, 1) == spec_intern_table(spec_intern_iter(t, s, 0), s));
        assert(spec_intern_iter(t, s, 0) == t);
    }
}

} // verus!
