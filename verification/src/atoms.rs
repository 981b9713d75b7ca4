//! Chemical elements, looked up in mendeleev's periodic table.
//!
//! The table itself (symbols, ordering) belongs to mendeleev; this module
//! only searches it. An element is handed to the rest of the library by the
//! two plain values the code reads from it: its atomic number and its symbol.
use vstd::prelude::*;
use mendeleev::Element;

verus! {

/// Number of elements in mendeleev's table (`mendeleev::N_ELEMENTS`).
pub const ELEMENT_COUNT: usize = 118;

/// The symbol of the element at position `index` of mendeleev's table.
pub uninterp spec fn table_symbol(index: int) -> Seq<char>;

/// Entry `index` of mendeleev's table, `Element::list()[index]`, read as
/// its atomic number and symbol. The table is ordered by atomic number
/// (mendeleev documents and tests `ALL_ELEMENTS[n - 1]` to have atomic
/// number `n`), so the number is `index + 1`; the symbol is the one named
/// [`table_symbol`] for that position and differs from the symbols of all
/// earlier positions (mendeleev's `symbol` gives each element its own).
/// Which text each symbol is, is left to mendeleev's table.
#[verifier::external_body]
fn table_entry(index: usize) -> (entry: (u32, &'static str))
    requires
        index < ELEMENT_COUNT,
    ensures
        entry.0 == index + 1,
        entry.1@ == table_symbol(index as int),
        forall|j: int| 0 <= j < index ==> table_symbol(j) != entry.1@,
{
    let e = Element::list()[index];
    (e.atomic_number(), e.symbol())
}

/// Index of the first table entry whose symbol is `s`.
pub open spec fn first_symbol_index(s: Seq<char>, r: Option<usize>) -> bool {
    match r {
        Some(i) => i < ELEMENT_COUNT && table_symbol(i as int) == s && forall|j: int|
            0 <= j < i ==> table_symbol(j) != s,
        None => forall|j: int| 0 <= j < ELEMENT_COUNT ==> table_symbol(j) != s,
    }
}

/// `z` is what [`from_symbol`] gives for the symbol `s`: the atomic number
/// of the first table entry with that symbol, or `None`.
pub open spec fn symbol_number(s: Seq<char>, z: Option<u32>) -> bool {
    match z {
        Some(z) => 1 <= z <= ELEMENT_COUNT && first_symbol_index(s, Some((z - 1) as usize)),
        None => first_symbol_index(s, None),
    }
}

/// Look up an element by its standard symbol (e.g. "Si", "Fe", "C") and
/// return its atomic number; `None` if no element has that symbol.
pub fn from_symbol(s: &str) -> (z: Option<u32>)
    ensures
        symbol_number(s@, z),
{
    let wanted = s.to_owned();
    let mut i: usize = 0;
    while i < ELEMENT_COUNT
        invariant
            i <= ELEMENT_COUNT,
            wanted@ == s@,
            forall|j: int| 0 <= j < i ==> table_symbol(j) != s@,
        decreases ELEMENT_COUNT - i,
    {
        let (z, sym) = table_entry(i);
        let candidate = sym.to_owned();
        if candidate == wanted {
            return Some(z);
        }
        i = i + 1;
    }
    None
}

/// Look up an element by its atomic number `z` and return its symbol;
/// `None` when `z` is outside `1..=118`. Looking the symbol up again gives
/// `z` back.
pub fn from_z(z: u32) -> (sym: Option<&'static str>)
    ensures
        match sym {
            Some(s) => 1 <= z <= ELEMENT_COUNT && s@ == table_symbol(z - 1) && symbol_number(
                s@,
                Some(z),
            ),
            None => !(1 <= z <= ELEMENT_COUNT),
        },
{
    let mut i: usize = 0;
    while i < ELEMENT_COUNT
        invariant
            i <= ELEMENT_COUNT,
            !(1 <= z <= i),
        decreases ELEMENT_COUNT - i,
    {
        let (number, sym) = table_entry(i);
        if number == z {
            return Some(sym);
        }
        i = i + 1;
    }
    None
}

/// The atomic number of each symbol in `symbols` (see [`from_symbol`]).
pub fn atomic_numbers(symbols: &Vec<String>) -> (r: Vec<Option<u32>>)
    ensures
        r.len() == symbols.len(),
        forall|i: int| 0 <= i < r.len() ==> symbol_number(symbols[i]@, #[trigger] r[i]),
{
    let mut r: Vec<Option<u32>> = Vec::new();
    let mut i: usize = 0;
    while i < symbols.len()
        invariant
            i <= symbols.len(),
            r.len() == i,
            forall|k: int| 0 <= k < i ==> symbol_number(symbols[k]@, #[trigger] r[k]),
        decreases symbols.len() - i,
    {
        let z = from_symbol(symbols[i].as_str());
        r.push(z);
        i = i + 1;
    }
    r
}

/// The atomic number of every symbol in `symbols`, or the index of the
/// first symbol that names no element.
pub fn resolve_symbols(symbols: &Vec<String>) -> (r: Result<Vec<u32>, usize>)
    ensures
        match r {
            Ok(z) => z.len() == symbols.len() && forall|i: int|
                0 <= i < z.len() ==> symbol_number(symbols[i]@, Some(#[trigger] z[i])),
            Err(k) => k < symbols.len() && symbol_number(symbols[k as int]@, None) && forall|i: int|
                0 <= i < k ==> !symbol_number(#[trigger] symbols[i]@, None),
        },
{
    let mut out: Vec<u32> = Vec::new();
    let mut i: usize = 0;
    while i < symbols.len()
        invariant
            i <= symbols.len(),
            out.len() == i,
            forall|k: int| 0 <= k < i ==> symbol_number(symbols[k]@, Some(#[trigger] out[k])),
        decreases symbols.len() - i,
    {
        match from_symbol(symbols[i].as_str()) {
            Some(z) => out.push(z),
            None => {
                proof {
                    assert forall|k: int| 0 <= k < i implies !symbol_number(#[trigger] symbols[k]@, None) by {
                        if symbol_number(symbols[k]@, None) {
                            lemma_symbol_number_unique(symbols[k]@, Some(out[k]), None);
                        }
                    }
                }
                return Err(i);
            },
        }
        i = i + 1;
    }
    Ok(out)
}

/// A symbol has one lookup result.
pub proof fn lemma_symbol_number_unique(s: Seq<char>, z1: Option<u32>, z2: Option<u32>)
    requires
        symbol_number(s, z1),
        symbol_number(s, z2),
    ensures
        z1 == z2,
{
    match (z1, z2) {
        (Some(a), Some(b)) => {
            if a < b {
                assert(table_symbol((a - 1) as int) != s);
            } else if b < a {
                assert(table_symbol((b - 1) as int) != s);
            }
        },
        (Some(a), None) => {
            assert(table_symbol((a - 1) as int) != s);
        },
        (None, Some(b)) => {
            assert(table_symbol((b - 1) as int) != s);
        },
        (None, None) => {},
    }
}

} // verus!
