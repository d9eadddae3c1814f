//! The symbol-interning boundary: a bidirectional mapping between textual
//! identifiers and compact integer symbols, backed by an external interning
//! table.
//!
//! The table is modelled by two names: `interner_map`, the interned texts
//! with their symbols, and `interner_len`, how many texts are interned.
//! Symbols are handed out as consecutive indices starting at zero, so every
//! stored symbol lies below `interner_len`.

use vstd::prelude::*;

verus! {

/// Bidirectional string-to-symbol table for one grammar compilation. It
/// holds an external interning table whose contents are exposed only through
/// the names and wrappers below.
#[verifier::external_body]
pub struct Interner {
    table: string_interner::DefaultStringInterner,
}

/// The texts the table has interned, each mapped to its symbol.
pub uninterp spec fn interner_map(i: Interner) -> Map<Seq<char>, u32>;

/// The number of texts the table has interned.
pub uninterp spec fn interner_len(i: Interner) -> nat;

/// A well-formed table: every symbol lies below the count, and no two texts
/// share a symbol.
pub open spec fn interner_wf(m: Map<Seq<char>, u32>, len: nat) -> bool {
    &&& forall|t: Seq<char>| #[trigger] m.contains_key(t) ==> (m[t] as nat) < len
    &&& forall|t1: Seq<char>, t2: Seq<char>|
        m.contains_key(t1) && m.contains_key(t2) && #[trigger] m[t1] == #[trigger] m[t2]
            ==> t1 == t2
}

/// The symbol that interning `t` into a table with contents `m` and count
/// `len` yields: the stored symbol for a known text, the next index else.
pub open spec fn intern_sym(m: Map<Seq<char>, u32>, len: nat, t: Seq<char>) -> u32 {
    if m.contains_key(t) {
        m[t]
    } else {
        len as u32
    }
}

/// The table contents after interning `t`.
pub open spec fn intern_map_after(m: Map<Seq<char>, u32>, len: nat, t: Seq<char>) -> Map<
    Seq<char>,
    u32,
> {
    if m.contains_key(t) {
        m
    } else {
        m.insert(t, len as u32)
    }
}

/// The table count after interning `t`.
pub open spec fn intern_len_after(m: Map<Seq<char>, u32>, len: nat, t: Seq<char>) -> nat {
    if m.contains_key(t) {
        len
    } else {
        len + 1
    }
}

impl Interner {
    /// Relies on `string_interner::StringInterner::new`: a fresh table has
    /// interned no texts.
    #[verifier::external_body]
    pub fn new() -> (r: Interner)
        ensures
            interner_len(r) == 0,
            interner_map(r) =~= Map::empty(),
    {
        Interner { table: string_interner::StringInterner::new() }
    }

    /// Relies on `string_interner::StringInterner::get_or_intern`: equal
    /// texts receive equal symbols; a text not seen before receives the next
    /// free index, which equals the number of texts interned so far.
    #[verifier::external_body]
    pub fn intern(&mut self, text: &str) -> (sym: u32)
        requires
            interner_len(*old(self)) < 0xFFFF_FFFFu32,
        ensures
            sym == intern_sym(interner_map(*old(self)), interner_len(*old(self)), text@),
            interner_map(*final(self)) == intern_map_after(
                interner_map(*old(self)),
                interner_len(*old(self)),
                text@,
            ),
            interner_len(*final(self)) == intern_len_after(
                interner_map(*old(self)),
                interner_len(*old(self)),
                text@,
            ),
    {
        let s = self.table.get_or_intern(text);
        string_interner::Symbol::to_usize(s) as u32
    }

    /// Relies on `string_interner::StringInterner::resolve`: every symbol
    /// below the count resolves to the text that received it, every other
    /// symbol to nothing.
    #[verifier::external_body]
    pub fn resolve(&self, sym: u32) -> (r: Option<String>)
        ensures
            r is Some <==> (sym as nat) < interner_len(*self),
            r matches Some(t) ==> interner_map(*self).contains_key(t@) && interner_map(*self)[t@]
                == sym,
    {
        match <string_interner::symbol::SymbolU32 as string_interner::Symbol>::try_from_usize(
            sym as usize,
        ) {
            Some(s) => self.table.resolve(s).map(|t| t.to_string()),
            None => None,
        }
    }

    /// Relies on `string_interner::StringInterner::len`: the number of texts
    /// interned so far.
    #[verifier::external_body]
    pub fn len(&self) -> (r: usize)
        ensures
            r as nat == interner_len(*self),
    {
        self.table.len()
    }
}

/// Interning preserves well-formedness of the table.
pub proof fn lemma_intern_preserves_wf(m: Map<Seq<char>, u32>, len: nat, t: Seq<char>)
    requires
        interner_wf(m, len),
        len < 0xFFFF_FFFFnat,
    ensures
        interner_wf(intern_map_after(m, len, t), intern_len_after(m, len, t)),
        intern_map_after(m, len, t).contains_key(t),
        intern_map_after(m, len, t)[t] == intern_sym(m, len, t),
        forall|u: Seq<char>| #[trigger] m.contains_key(u) ==> intern_map_after(m, len, t)
            .contains_key(u) && intern_map_after(m, len, t)[u] == m[u],
{
}

/// Interning is idempotent: interning a text a second time yields the same
/// symbol and leaves the table unchanged.
pub proof fn lemma_interning_idempotent(m: Map<Seq<char>, u32>, len: nat, t: Seq<char>)
    ensures
        intern_sym(
            intern_map_after(m, len, t),
            intern_len_after(m, len, t),
            t,
        ) == intern_sym(m, len, t),
        intern_map_after(
            intern_map_after(m, len, t),
            intern_len_after(m, len, t),
            t,
        ) == intern_map_after(m, len, t),
        intern_len_after(
            intern_map_after(m, len, t),
            intern_len_after(m, len, t),
            t,
        ) == intern_len_after(m, len, t),
{
}

/// A well-formed table maps at most one text to any symbol, so resolving an
/// interned text's symbol can yield no text but that one.
pub proof fn lemma_resolution_unique(
    m: Map<Seq<char>, u32>,
    len: nat,
    t1: Seq<char>,
    t2: Seq<char>,
)
    requires
        interner_wf(m, len),
        m.contains_key(t1),
        m.contains_key(t2),
        m[t1] == m[t2],
    ensures
        t1 == t2,
{
}

/// Interning a text and resolving the returned symbol yields the text back.
pub fn intern_resolve(it: &mut Interner, text: &str) -> (r: String)
    requires
        interner_wf(interner_map(*old(it)), interner_len(*old(it))),
        interner_len(*old(it)) < 0xFFFF_FFFFu32,
    ensures
        r@ == text@,
        interner_wf(interner_map(*final(it)), interner_len(*final(it))),
{
    let ghost m0 = interner_map(*old(it));
    let ghost l0 = interner_len(*old(it));
    let sym = it.intern(text);
    proof {
        lemma_intern_preserves_wf(m0, l0, text@);
    }
    let resolved = it.resolve(sym);
    match resolved {
        Some(t) => {
            proof {
                lemma_resolution_unique(
                    interner_map(*it),
                    interner_len(*it),
                    t@,
                    text@,
                );
            }
            t
        },
        None => {
            proof {
                assert(interner_map(*it).contains_key(text@));
                assert(false);
            }
            String::new()
        },
    }
}

} // verus!
