//! String interner owned by a symbol map. Strings are deduplicated into two
//! pools — one for strings borrowed from the mapped file, one for strings
//! synthesized during parsing — and referred to by compact handles. The low
//! bit of a handle's index tells the pools apart. Every handle carries the
//! generation of the symbol map that issued it, so that use against a foreign
//! map is detected.

use vstd::prelude::*;

verus! {

/// Generation tag identifying one symbol map instance.
#[derive(Clone, Copy, PartialEq, Eq, Structural, Debug, Hash)]
pub struct SymbolMapGeneration(pub u64);

/// Untyped handle for an interned string.
#[derive(Clone, Copy, PartialEq, Eq, Structural, Debug, Hash)]
pub struct SymbolMapStringHandle {
    pub generation: SymbolMapGeneration,
    pub index: u32,
}

/// Handle for an interned function name.
#[derive(Clone, Copy, PartialEq, Eq, Structural, Debug, Hash)]
pub struct FunctionNameHandle {
    pub generation: SymbolMapGeneration,
    pub index: u32,
}

/// Handle for an interned source file path.
#[derive(Clone, Copy, PartialEq, Eq, Structural, Debug, Hash)]
pub struct SourceFilePathHandle {
    pub generation: SymbolMapGeneration,
    pub index: u32,
}

/// Handle for an interned symbol name.
#[derive(Clone, Copy, PartialEq, Eq, Structural, Debug, Hash)]
pub struct SymbolNameHandle {
    pub generation: SymbolMapGeneration,
    pub index: u32,
}

impl From<SourceFilePathHandle> for SymbolMapStringHandle {
    fn from(value: SourceFilePathHandle) -> (r: Self) {
        SymbolMapStringHandle { generation: value.generation, index: value.index }
    }
}

impl vstd::std_specs::convert::FromSpecImpl<SourceFilePathHandle> for SymbolMapStringHandle {
    open spec fn obeys_from_spec() -> bool {
        true
    }

    open spec fn from_spec(value: SourceFilePathHandle) -> Self {
        SymbolMapStringHandle { generation: value.generation, index: value.index }
    }
}

impl From<FunctionNameHandle> for SymbolMapStringHandle {
    fn from(value: FunctionNameHandle) -> (r: Self) {
        SymbolMapStringHandle { generation: value.generation, index: value.index }
    }
}

impl vstd::std_specs::convert::FromSpecImpl<FunctionNameHandle> for SymbolMapStringHandle {
    open spec fn obeys_from_spec() -> bool {
        true
    }

    open spec fn from_spec(value: FunctionNameHandle) -> Self {
        SymbolMapStringHandle { generation: value.generation, index: value.index }
    }
}

impl From<SymbolNameHandle> for SymbolMapStringHandle {
    fn from(value: SymbolNameHandle) -> (r: Self) {
        SymbolMapStringHandle { generation: value.generation, index: value.index }
    }
}

impl vstd::std_specs::convert::FromSpecImpl<SymbolNameHandle> for SymbolMapStringHandle {
    open spec fn obeys_from_spec() -> bool {
        true
    }

    open spec fn from_spec(value: SymbolNameHandle) -> Self {
        SymbolMapStringHandle { generation: value.generation, index: value.index }
    }
}

impl From<SymbolMapStringHandle> for SourceFilePathHandle {
    fn from(value: SymbolMapStringHandle) -> (r: Self) {
        SourceFilePathHandle { generation: value.generation, index: value.index }
    }
}

impl vstd::std_specs::convert::FromSpecImpl<SymbolMapStringHandle> for SourceFilePathHandle {
    open spec fn obeys_from_spec() -> bool {
        true
    }

    open spec fn from_spec(value: SymbolMapStringHandle) -> Self {
        SourceFilePathHandle { generation: value.generation, index: value.index }
    }
}

impl From<SymbolMapStringHandle> for FunctionNameHandle {
    fn from(value: SymbolMapStringHandle) -> (r: Self) {
        FunctionNameHandle { generation: value.generation, index: value.index }
    }
}

impl vstd::std_specs::convert::FromSpecImpl<SymbolMapStringHandle> for FunctionNameHandle {
    open spec fn obeys_from_spec() -> bool {
        true
    }

    open spec fn from_spec(value: SymbolMapStringHandle) -> Self {
        FunctionNameHandle { generation: value.generation, index: value.index }
    }
}

impl From<SymbolMapStringHandle> for SymbolNameHandle {
    fn from(value: SymbolMapStringHandle) -> (r: Self) {
        SymbolNameHandle { generation: value.generation, index: value.index }
    }
}

impl vstd::std_specs::convert::FromSpecImpl<SymbolMapStringHandle> for SymbolNameHandle {
    open spec fn obeys_from_spec() -> bool {
        true
    }

    open spec fn from_spec(value: SymbolMapStringHandle) -> Self {
        SymbolNameHandle { generation: value.generation, index: value.index }
    }
}

/// Index of the first string in `strs` equal to `x`.
pub open spec fn find_str(strs: Seq<Seq<char>>, x: Seq<char>) -> Option<int>
    decreases strs.len(),
{
    if strs.len() == 0 {
        None
    } else if strs[0] == x {
        Some(0int)
    } else {
        match find_str(strs.skip(1), x) {
            Some(i) => Some(i + 1),
            None => None,
        }
    }
}

/// A position holding `x` with no earlier match is where `find_str` lands.
pub proof fn lemma_find_str_unique(strs: Seq<Seq<char>>, x: Seq<char>, i: int)
    requires
        0 <= i < strs.len(),
        strs[i] == x,
        forall|k: int| 0 <= k < i ==> strs[k] != x,
    ensures
        find_str(strs, x) == Some(i),
{
    lemma_find_str_props(strs, x);
}

/// `find_str` returns the first match, or nothing when there is none.
pub proof fn lemma_find_str_props(strs: Seq<Seq<char>>, x: Seq<char>)
    ensures
        match find_str(strs, x) {
            Some(i) => 0 <= i < strs.len() && strs[i] == x && forall|k: int|
                0 <= k < i ==> strs[k] != x,
            None => forall|k: int| 0 <= k < strs.len() ==> strs[k] != x,
        },
    decreases strs.len(),
{
    if strs.len() != 0 && strs[0] != x {
        lemma_find_str_props(strs.skip(1), x);
        assert forall|k: int| 0 <= k < strs.len() implies strs.skip(1)[k - 1] == strs[k] || k
            == 0 by {}
    }
}

/// The pool index that interning `x` yields when the miss case appends to the
/// borrowed pool (even handles).
pub open spec fn intern_index(
    borrowed: Seq<Seq<char>>,
    owned: Seq<Seq<char>>,
    x: Seq<char>,
) -> int {
    match find_str(borrowed, x) {
        Some(i) => 2 * i,
        None => match find_str(owned, x) {
            Some(i) => 2 * i + 1,
            None => 2 * borrowed.len() as int,
        },
    }
}

/// The pool index that interning `x` yields when the miss case appends to the
/// owned pool (odd handles).
pub open spec fn intern_owned_index(
    borrowed: Seq<Seq<char>>,
    owned: Seq<Seq<char>>,
    x: Seq<char>,
) -> int {
    match find_str(borrowed, x) {
        Some(i) => 2 * i,
        None => match find_str(owned, x) {
            Some(i) => 2 * i + 1,
            None => 2 * owned.len() as int + 1,
        },
    }
}

/// The string a handle stands for: even indices name the borrowed pool, odd
/// indices the owned pool. A handle from another generation resolves to
/// nothing.
pub open spec fn resolve_spec(
    generation: SymbolMapGeneration,
    borrowed: Seq<Seq<char>>,
    owned: Seq<Seq<char>>,
    handle: SymbolMapStringHandle,
) -> Option<Seq<char>> {
    if handle.generation != generation {
        None
    } else if handle.index % 2 == 0 {
        if handle.index / 2 < borrowed.len() {
            Some(borrowed[handle.index as int / 2])
        } else {
            None
        }
    } else {
        if handle.index / 2 < owned.len() {
            Some(owned[handle.index as int / 2])
        } else {
            None
        }
    }
}

/// Deduplicating string store issuing generation-tagged handles.
#[derive(Debug)]
pub struct SymbolMapStringInterner {
    symbol_map_generation: SymbolMapGeneration,
    borrowed_strings: Vec<String>,
    owned_strings: Vec<String>,
}

impl SymbolMapStringInterner {
    /// The generation whose handles this interner resolves.
    pub closed spec fn generation(&self) -> SymbolMapGeneration {
        self.symbol_map_generation
    }

    /// The borrowed-pool strings, in insertion order.
    pub closed spec fn borrowed(&self) -> Seq<Seq<char>> {
        self.borrowed_strings@.map_values(|s: String| s@)
    }

    /// The owned-pool strings, in insertion order.
    pub closed spec fn owned(&self) -> Seq<Seq<char>> {
        self.owned_strings@.map_values(|s: String| s@)
    }

    /// Both pools are small enough that every handle index fits in a `u32`.
    pub open spec fn room(&self) -> bool {
        &&& self.borrowed().len() < 0x4000_0000
        &&& self.owned().len() < 0x4000_0000
    }

    /// Creates an empty interner for the given generation.
    pub fn new(symbol_map_generation: SymbolMapGeneration) -> (r: Self)
        ensures
            r.generation() == symbol_map_generation,
            r.borrowed() =~= Seq::<Seq<char>>::empty(),
            r.owned() =~= Seq::<Seq<char>>::empty(),
    {
        SymbolMapStringInterner {
            symbol_map_generation,
            borrowed_strings: Vec::new(),
            owned_strings: Vec::new(),
        }
    }

    /// First index in `pool` holding a string equal to `probe`.
    fn find_in(pool: &Vec<String>, probe: &String) -> (r: Option<usize>)
        ensures
            ({
                let views = pool@.map_values(|s: String| s@);
                match r {
                    Some(i) => find_str(views, probe@) == Some(i as int),
                    None => find_str(views, probe@).is_none(),
                }
            }),
    {
        let ghost views = pool@.map_values(|s: String| s@);
        proof {
            lemma_find_str_props(views, probe@);
        }
        let n = pool.len();
        let mut i: usize = 0;
        while i < n
            invariant
                i <= n == pool@.len(),
                views == pool@.map_values(|s: String| s@),
                forall|k: int| 0 <= k < i ==> views[k] != probe@,
            decreases n - i,
        {
            if pool[i].eq(probe) {
                proof {
                    lemma_find_str_unique(views, probe@, i as int);
                }
                return Some(i);
            }
            i += 1;
        }
        proof {
            lemma_find_str_props(views, probe@);
            if find_str(views, probe@) is Some {
                let j = find_str(views, probe@)->Some_0;
                assert(views[j] == probe@);
            }
        }
        None
    }

    /// Interns a string that is borrowed from the mapped file: a repeat hit
    /// returns the existing handle, a miss appends to the borrowed pool.
    pub fn intern(&mut self, s: &str) -> (handle: SymbolMapStringHandle)
        requires
            old(self).room(),
        ensures
            final(self).generation() == old(self).generation(),
            handle.generation == old(self).generation(),
            handle.index == intern_index(old(self).borrowed(), old(self).owned(), s@),
            final(self).owned() == old(self).owned(),
            final(self).borrowed() == if find_str(old(self).borrowed(), s@) is None && find_str(
                old(self).owned(),
                s@,
            ) is None {
                old(self).borrowed().push(s@)
            } else {
                old(self).borrowed()
            },
            resolve_spec(
                final(self).generation(),
                final(self).borrowed(),
                final(self).owned(),
                handle,
            ) == Some(s@),
    {
        let owned_probe = s.to_owned();
        let ghost b0 = self.borrowed();
        let ghost o0 = self.owned();
        proof {
            lemma_find_str_props(b0, s@);
            lemma_find_str_props(o0, s@);
        }
        if let Some(i) = Self::find_in(&self.borrowed_strings, &owned_probe) {
            return SymbolMapStringHandle {
                generation: self.symbol_map_generation,
                index: (i as u32) * 2,
            };
        }
        if let Some(i) = Self::find_in(&self.owned_strings, &owned_probe) {
            return SymbolMapStringHandle {
                generation: self.symbol_map_generation,
                index: (i as u32) * 2 + 1,
            };
        }
        let i = self.borrowed_strings.len();
        self.borrowed_strings.push(owned_probe);
        proof {
            assert(self.borrowed() =~= b0.push(s@));
        }
        SymbolMapStringHandle { generation: self.symbol_map_generation, index: (i as u32) * 2 }
    }

    /// Interns a string that had to be synthesized (for example a demangled
    /// name): a repeat hit returns the existing handle, a miss appends to the
    /// owned pool.
    pub fn intern_owned(&mut self, s: &str) -> (handle: SymbolMapStringHandle)
        requires
            old(self).room(),
        ensures
            final(self).generation() == old(self).generation(),
            handle.generation == old(self).generation(),
            handle.index == intern_owned_index(old(self).borrowed(), old(self).owned(), s@),
            final(self).borrowed() == old(self).borrowed(),
            final(self).owned() == if find_str(old(self).borrowed(), s@) is None && find_str(
                old(self).owned(),
                s@,
            ) is None {
                old(self).owned().push(s@)
            } else {
                old(self).owned()
            },
            resolve_spec(
                final(self).generation(),
                final(self).borrowed(),
                final(self).owned(),
                handle,
            ) == Some(s@),
    {
        let owned_probe = s.to_owned();
        let ghost b0 = self.borrowed();
        let ghost o0 = self.owned();
        proof {
            lemma_find_str_props(b0, s@);
            lemma_find_str_props(o0, s@);
        }
        if let Some(i) = Self::find_in(&self.borrowed_strings, &owned_probe) {
            return SymbolMapStringHandle {
                generation: self.symbol_map_generation,
                index: (i as u32) * 2,
            };
        }
        if let Some(i) = Self::find_in(&self.owned_strings, &owned_probe) {
            return SymbolMapStringHandle {
                generation: self.symbol_map_generation,
                index: (i as u32) * 2 + 1,
            };
        }
        let i = self.owned_strings.len();
        self.owned_strings.push(owned_probe);
        proof {
            assert(self.owned() =~= o0.push(s@));
        }
        SymbolMapStringHandle { generation: self.symbol_map_generation, index: (i as u32) * 2 + 1 }
    }

    /// Resolves a handle to the string it was issued for. A handle from a
    /// different symbol map generation is refused: the result is `None`.
    pub fn resolve(&self, handle: SymbolMapStringHandle) -> (r: Option<String>)
        ensures
            match r {
                Some(s) => resolve_spec(
                    self.generation(),
                    self.borrowed(),
                    self.owned(),
                    handle,
                ) == Some(s@),
                None => resolve_spec(
                    self.generation(),
                    self.borrowed(),
                    self.owned(),
                    handle,
                ).is_none(),
            },
            handle.generation != self.generation() ==> r.is_none(),
    {
        if handle.generation.0 != self.symbol_map_generation.0 {
            return None;
        }
        let slot = (handle.index / 2) as usize;
        if handle.index % 2 == 0 {
            if slot < self.borrowed_strings.len() {
                Some(self.borrowed_strings[slot].clone())
            } else {
                None
            }
        } else {
            if slot < self.owned_strings.len() {
                Some(self.owned_strings[slot].clone())
            } else {
                None
            }
        }
    }
}

/// Interning more strings never changes what an existing handle resolves to:
/// the pools only grow at the end.
pub proof fn lemma_resolve_stable_under_growth(
    generation: SymbolMapGeneration,
    borrowed: Seq<Seq<char>>,
    owned: Seq<Seq<char>>,
    grown_borrowed: Seq<Seq<char>>,
    grown_owned: Seq<Seq<char>>,
    handle: SymbolMapStringHandle,
)
    requires
        resolve_spec(generation, borrowed, owned, handle) is Some,
        borrowed =~= grown_borrowed.subrange(0, borrowed.len() as int),
        owned =~= grown_owned.subrange(0, owned.len() as int),
        borrowed.len() <= grown_borrowed.len(),
        owned.len() <= grown_owned.len(),
    ensures
        resolve_spec(generation, grown_borrowed, grown_owned, handle) == resolve_spec(
            generation,
            borrowed,
            owned,
            handle,
        ),
{
    if handle.index % 2 == 0 {
        assert(grown_borrowed[handle.index as int / 2] == borrowed[handle.index as int / 2]);
    } else {
        assert(grown_owned[handle.index as int / 2] == owned[handle.index as int / 2]);
    }
}

} // verus!
