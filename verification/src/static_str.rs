//! A thin, copyable handle to an interned string.
//!
//! The handle's identity is the table slot it names, so comparing handles
//! compares identities, not content — which coincides with content
//! equality for handles minted by the same table, by the identity
//! invariant. The handle also carries the table-mediated codec: it encodes
//! as its plain text content, and decoding re-interns that text, so
//! decoded handles satisfy the identity invariant too.

use vstd::prelude::*;

use crate::InternTable;
use crate::distinct_entries;
use crate::lemma_handle_unique;
use crate::spec_intern_handle;
use crate::spec_intern_table;

verus! {

/// A copyable, comparable handle wrapping one slot of an intern table.
/// Equality, ordering and hashing go by the slot, never by the content.
#[derive(Clone, Copy, PartialEq, Eq, Structural, PartialOrd, Ord, Hash, Debug)]
pub struct StaticStr {
    id: usize,
}

impl View for StaticStr {
    type V = int;

    closed spec fn view(&self) -> int {
        self.id as int
    }
}

impl StaticStr {
    /// Whether this handle names a slot of `table`. Every handle minted by
    /// a table is valid for it from then on: the table only grows.
    pub open spec fn valid(&self, table: &InternTable) -> bool {
        0 <= self@ < table@.len()
    }

    /// Create a new `StaticStr` by interning `s` in `table`. Equal content
    /// on the same table yields an equal handle every time.
    pub fn new(table: &mut InternTable, s: &str) -> (r: StaticStr)
        requires
            old(table).wf(),
        ensures
            final(table).wf(),
            r.valid(final(table)),
            final(table)@[r@] == s@,
            final(table)@ == spec_intern_table(old(table)@, s@),
            r@ == spec_intern_handle(old(table)@, s@),
    {
        StaticStr { id: table.intern(s) }
    }

    /// The slot this handle names.
    pub fn id(&self) -> (n: usize)
        ensures
            n as int == self@,
    {
        self.id
    }

    /// Borrow the content this handle refers to. The borrow is valid for
    /// as long as the table lives and the content never changes.
    pub fn content<'a>(&self, table: &'a InternTable) -> (r: &'a str)
        requires
            self.valid(table),
        ensures
            r@ == table@[self@],
    {
        table.get(self.id)
    }

    /// Encode this handle as its plain text content: the wire form used by
    /// structured-data serialization.
    pub fn encode(&self, table: &InternTable) -> (r: String)
        requires
            self.valid(table),
        ensures
            r@ == table@[self@],
    {
        self.content(table).to_owned()
    }

    /// Decode a plain text value by re-interning it, so handles received
    /// from outside satisfy the identity invariant like any other.
    pub fn decode(table: &mut InternTable, s: &str) -> (r: StaticStr)
        requires
            old(table).wf(),
        ensures
            final(table).wf(),
            r.valid(final(table)),
            final(table)@[r@] == s@,
            final(table)@ == spec_intern_table(old(table)@, s@),
            r@ == spec_intern_handle(old(table)@, s@),
    {
        StaticStr::new(table, s)
    }
}

/// Codec round-trip: re-interning the content held in slot `h` of a
/// well-formed table leaves the table unchanged and returns the handle `h`
/// itself — so decode after encode yields a handle identity-equal to the
/// original, with equal content.
pub proof fn lemma_codec_round_trip(t: Seq<Seq<char>>, h: int)
    requires
        distinct_entries(t),
        0 <= h < t.len(),
    ensures
        spec_intern_table(t, t[h]) == t,
        spec_intern_handle(t, t[h]) == h,
{
    lemma_handle_unique(t, t[h], h);
}

} // verus!
