//! Symbols and the interner that gives each name a number.
//!
//! A name is interned once: the interner keeps its text and hands out its
//! number, which then stands for the name. The numbers are looked up in a
//! hash map with the Fx hash of `rustc_hash`.

use vstd::prelude::*;
use rustc_hash::FxHashMap;

verus! {

/// What can be wrong with a symbol.
pub enum SymbolError {
    UndefinedSymbol,
    DefinitionError,
}

/// What a name stands for.
pub enum SymbolKind {
    Auto,
    Extrn,
    Param,
    Function,
    Label,
}

/// The number of an interned name.
#[derive(Copy, Clone, Hash, Eq, PartialEq, Debug)]
pub struct SymbolId(pub u32);

/// Where the value of a symbol is kept.
pub enum Location {
    /// A slot of the running function; its parameters are kept so too.
    Local { slot: u32 },
    Global { index: u32 },
    /// A place in the table of functions.
    Function { func_index: u32 },
    /// A place in the table of imports.
    Import { import_index: u32 },
}

/// What is known of a symbol.
pub struct Symbol {
    pub name: SymbolId,
    pub kind: SymbolKind,
    /// The number of words: one for a scalar.
    pub size: u32,
    pub slot: Location,
}

/// `rustc_hash::FxBuildHasher`, the hasher that an `FxHashMap` is built
/// with. Nothing is said of it.
#[verifier::external_type_specification]
#[verifier::external_body]
pub struct ExFxBuildHasher(rustc_hash::FxBuildHasher);

/// The entries of a map from names to numbers: which name has which number.
pub uninterp spec fn entries(lookup: FxHashMap<String, u32>) -> Map<Seq<char>, u32>;

/// No entries.
pub open spec fn no_entries() -> Map<Seq<char>, u32> {
    Map::empty()
}

/// `FxHashMap::default`, which is `HashMap::default` with the hasher of
/// `rustc_hash`, makes a map without entries.
#[verifier::external_body]
fn lookup_new() -> (made: FxHashMap<String, u32>)
    ensures
        entries(made) == no_entries(),
{
    FxHashMap::default()
}

/// `HashMap::get` on an `FxHashMap` returns the number that the map holds
/// for the name, and nothing where it holds none. The map is not changed.
#[verifier::external_body]
fn lookup_get(lookup: &FxHashMap<String, u32>, name: &str) -> (number: Option<u32>)
    ensures
        number == if entries(*lookup).dom().contains(name@) {
            Some(entries(*lookup)[name@])
        } else {
            None
        },
{
    lookup.get(name).copied()
}

/// `HashMap::insert` on an `FxHashMap` makes the map hold the number for the
/// name, in the place of the number it held for it before, if any, and
/// leaves its other entries as they are.
#[verifier::external_body]
fn lookup_insert(lookup: &mut FxHashMap<String, u32>, name: String, number: u32)
    ensures
        entries(*final(lookup)) == entries(*old(lookup)).insert(name@, number),
{
    lookup.insert(name, number);
}

/// The interner: the names it has seen, each with its number.
pub struct Interner {
    strings: Vec<String>,
    lookup: FxHashMap<String, u32>,
}

impl Interner {
    /// The names that were interned, each at the place of its number.
    pub closed spec fn names(&self) -> Seq<Seq<char>> {
        Seq::new(self.strings@.len(), |i: int| self.strings@[i]@)
    }

    /// The invariant of the interner: the map holds exactly the names that
    /// were interned, each with its place as its number, and the numbers fit
    /// 32 bits.
    pub closed spec fn wf(&self) -> bool {
        &&& self.strings@.len() <= u32::MAX + 1
        &&& forall|i: int|
            0 <= i < self.strings@.len() ==> entries(self.lookup).dom().contains(
                #[trigger] self.strings@[i]@,
            ) && entries(self.lookup)[self.strings@[i]@] == i
        &&& forall|name: Seq<char>| #[trigger]
            entries(self.lookup).dom().contains(name) ==> 0 <= entries(self.lookup)[name]
                < self.strings@.len() && self.strings@[entries(self.lookup)[name] as int]@ == name
    }

    /// Whether a name was interned.
    pub open spec fn knows(&self, name: Seq<char>) -> bool {
        exists|i: int| 0 <= i < self.names().len() && self.names()[i] == name
    }

    /// No name was interned twice: two places hold two names.
    pub proof fn lemma_names_differ(&self, i: int, j: int)
        requires
            self.wf(),
            0 <= i < self.names().len(),
            0 <= j < self.names().len(),
            self.names()[i] == self.names()[j],
        ensures
            i == j,
    {
    }

    /// An interner that has seen no name.
    pub fn new() -> (interner: Self)
        ensures
            interner.wf(),
            interner.names() == Seq::<Seq<char>>::empty(),
    {
        let interner = Self { strings: Vec::new(), lookup: lookup_new() };
        assert(interner.names() =~= Seq::<Seq<char>>::empty());
        interner
    }

    /// The number of a name: the one it has if it was interned before, and
    /// else the next free one, with which it is interned now.
    pub fn intern(&mut self, name: &str) -> (id: SymbolId)
        requires
            old(self).wf(),
            old(self).names().len() <= u32::MAX,
        ensures
            final(self).wf(),
            id.0 < final(self).names().len(),
            final(self).names()[id.0 as int] == name@,
            old(self).knows(name@) ==> final(self).names() == old(self).names(),
            !old(self).knows(name@) ==> final(self).names() == old(self).names().push(name@)
                && id.0 == old(self).names().len(),
    {
        match lookup_get(&self.lookup, name) {
            Some(v) => {
                assert(self.names()[v as int] == name@);
                SymbolId(v)
            },
            None => {
                assert(!self.knows(name@)) by {
                    if self.knows(name@) {
                        let i = choose|i: int|
                            0 <= i < self.names().len() && self.names()[i] == name@;
                        assert(entries(self.lookup).dom().contains(self.strings@[i]@));
                    }
                }
                let id = SymbolId(self.strings.len() as u32);
                let owned = name.to_owned();
                self.strings.push(owned.clone());
                lookup_insert(&mut self.lookup, owned, id.0);
                assert(self.names() =~= old(self).names().push(name@));
                assert forall|i: int| 0 <= i < self.strings@.len() implies entries(
                    self.lookup,
                ).dom().contains(#[trigger] self.strings@[i]@) && entries(
                    self.lookup,
                )[self.strings@[i]@] == i by {
                    if i < old(self).strings@.len() {
                        assert(old(self).strings@[i]@ == self.strings@[i]@);
                        assert(entries(old(self).lookup).dom().contains(old(self).strings@[i]@));
                    }
                }
                id
            },
        }
    }

    /// The name that has the number.
    pub fn resolve(&self, id: SymbolId) -> (name: &str)
        requires
            self.wf(),
            id.0 < self.names().len(),
        ensures
            name@ == self.names()[id.0 as int],
    {
        self.strings[id.0 as usize].as_str()
    }

    /// The number of a name, if the name was interned; the interner stays as
    /// it is.
    pub fn id_of(&self, name: &str) -> (id: Option<SymbolId>)
        requires
            self.wf(),
        ensures
            match id {
                Some(id) => id.0 < self.names().len() && self.names()[id.0 as int] == name@,
                None => !self.knows(name@),
            },
    {
        match lookup_get(&self.lookup, name) {
            Some(v) => {
                assert(self.names()[v as int] == name@);
                Some(SymbolId(v))
            },
            None => {
                assert(!self.knows(name@)) by {
                    if self.knows(name@) {
                        let i = choose|i: int|
                            0 <= i < self.names().len() && self.names()[i] == name@;
                        assert(entries(self.lookup).dom().contains(self.strings@[i]@));
                    }
                }
                None
            },
        }
    }

    /// The number of names that were interned.
    pub fn len(&self) -> (n: usize)
        ensures
            n == self.names().len(),
    {
        self.strings.len()
    }

    /// Whether no name was interned.
    pub fn is_empty(&self) -> (empty: bool)
        ensures
            empty == (self.names().len() == 0),
    {
        self.strings.len() == 0
    }
}

/// The symbols of a function: its locals by their names, and its parameters
/// in their order.
pub struct FunctionEnv {
    pub locals: FxHashMap<SymbolId, Symbol>,
    pub params: Vec<SymbolId>,
}

/// The symbols of the top level of a program, by their names.
pub struct GlobalEnv {
    pub symbols: FxHashMap<SymbolId, Symbol>,
}

/// The names of a program and its global symbols.
pub struct SymbolTable {
    pub interner: Interner,
    pub global: GlobalEnv,
}

/// The numbers of the names that a map of symbols holds a symbol for.
pub uninterp spec fn symbol_numbers(symbols: FxHashMap<SymbolId, Symbol>) -> Set<u32>;

/// No numbers.
pub open spec fn no_numbers() -> Set<u32> {
    Set::empty()
}

/// `FxHashMap::default`, which is `HashMap::default` with the hasher of
/// `rustc_hash`, makes a map that holds no symbol.
#[verifier::external_body]
fn symbols_new() -> (made: FxHashMap<SymbolId, Symbol>)
    ensures
        symbol_numbers(made) == no_numbers(),
{
    FxHashMap::default()
}

impl SymbolTable {
    /// A table that has seen no name and holds no symbol.
    pub fn new() -> (table: Self)
        ensures
            table.interner.wf(),
            table.interner.names() == Seq::<Seq<char>>::empty(),
            symbol_numbers(table.global.symbols) == no_numbers(),
    {
        Self { interner: Interner::new(), global: GlobalEnv { symbols: symbols_new() } }
    }
}

} // verus!
