//! The 32 symbols of the geohash alphabet and the lookup in both directions.

use vstd::prelude::*;
use crate::error::GeohashError;

verus! {

/// The symbols in the order of the values they stand for: the digits, then the
/// lower-case letters without `a`, `i`, `l` and `o`.
pub const BASE32: [char; 32] = [
    '0', '1', '2', '3', '4', '5', '6', '7',
    '8', '9', 'b', 'c', 'd', 'e', 'f', 'g',
    'h', 'j', 'k', 'm', 'n', 'p', 'q', 'r',
    's', 't', 'u', 'v', 'w', 'x', 'y', 'z',
];

/// The alphabet as a sequence: the symbol of value `v` stands at index `v`.
pub open spec fn alphabet() -> Seq<char> {
    BASE32@
}

/// Whether a character is one of the 32 symbols.
pub open spec fn is_symbol(c: char) -> bool {
    alphabet().contains(c)
}

/// The value that a symbol stands for: its index in the alphabet.
pub open spec fn value_of(c: char) -> int {
    choose|v: int| 0 <= v < 32 && alphabet()[v] == c
}

/// The symbol that stands for a 5-bit value.
pub fn symbol_for(value: u8) -> (symbol: char)
    requires
        value < 32,
    ensures
        symbol == alphabet()[value as int],
{
    BASE32[value as usize]
}

/// No symbol stands for two values.
pub proof fn lemma_symbols_distinct()
    ensures
        forall|i: int, j: int| 0 <= i < j < 32 ==> alphabet()[i] != alphabet()[j],
{
    assert forall|i: int, j: int| 0 <= i < j < 32 implies alphabet()[i] != alphabet()[j] by {
        lemma_symbols_ascend(i, j);
    }
}

/// The symbols stand in the order of their code points.
proof fn lemma_symbols_ascend(i: int, j: int)
    requires
        0 <= i < j < 32,
    ensures
        (alphabet()[i] as int) < (alphabet()[j] as int),
    decreases j - i,
{
    if i + 1 < j {
        lemma_symbols_ascend(i, j - 1);
    }
    assert((alphabet()[j - 1] as int) < (alphabet()[j] as int));
}

/// The value of a symbol is the one index at which it stands.
pub proof fn lemma_value_of(symbol: char, value: int)
    requires
        0 <= value < 32,
        alphabet()[value] == symbol,
    ensures
        is_symbol(symbol),
        value_of(symbol) == value,
{
    lemma_symbols_distinct();
    let chosen = value_of(symbol);
    assert(0 <= chosen < 32 && alphabet()[chosen] == symbol);
}

/// The value a symbol stands for, or `InvalidSymbol` for any other character.
pub fn value_for(symbol: char) -> (result: Result<u8, GeohashError>)
    ensures
        match result {
            Ok(value) => is_symbol(symbol) && value < 32 && value == value_of(symbol)
                && alphabet()[value as int] == symbol,
            Err(e) => e == GeohashError::InvalidSymbol && !is_symbol(symbol),
        },
{
    let mut i: u8 = 0;
    while i < 32
        invariant
            i <= 32,
            forall|j: int| 0 <= j < i ==> alphabet()[j] != symbol,
        decreases 32 - i,
    {
        if BASE32[i as usize] == symbol {
            proof {
                lemma_value_of(symbol, i as int);
            }
            return Ok(i);
        }
        i += 1;
    }
    Err(GeohashError::InvalidSymbol)
}

} // verus!
