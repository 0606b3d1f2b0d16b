//! Tone keys and the table that maps them to keypad symbols.

use vstd::prelude::*;

verus! {

/// A pair of matched band frequencies in Hz. A band without a match
/// contributes 0, which no symbol is filed under.
#[derive(Clone, Copy, Debug, PartialEq, Eq, Structural)]
pub struct ToneKey {
    pub low: u16,
    pub high: u16,
}

/// One line of a symbol table.
#[derive(Clone, Copy, Debug)]
pub struct ToneEntry {
    pub key: ToneKey,
    pub symbol: char,
}

/// The key made of the two band frequencies.
pub open spec fn tone_key(low: u16, high: u16) -> ToneKey {
    ToneKey { low, high }
}

/// The sixteen keypad symbols by their tone keys.
pub open spec fn dtmf_symbols() -> Map<ToneKey, char> {
    map![
        tone_key(697, 1209) => '1',
        tone_key(697, 1336) => '2',
        tone_key(697, 1477) => '3',
        tone_key(770, 1209) => '4',
        tone_key(770, 1336) => '5',
        tone_key(770, 1477) => '6',
        tone_key(852, 1209) => '7',
        tone_key(852, 1336) => '8',
        tone_key(852, 1477) => '9',
        tone_key(941, 1209) => '*',
        tone_key(941, 1336) => '0',
        tone_key(941, 1477) => '#',
        tone_key(697, 1633) => 'A',
        tone_key(770, 1633) => 'B',
        tone_key(852, 1633) => 'C',
        tone_key(941, 1633) => 'D',
    ]
}

/// The symbol filed under `key` in `symbols`, if any.
pub open spec fn symbol_of(symbols: Map<ToneKey, char>, key: ToneKey) -> Option<char> {
    if symbols.contains_key(key) {
        Some(symbols[key])
    } else {
        None
    }
}

/// Whether line `i` of `entries` is filed under `key`.
pub open spec fn filed_at(entries: Seq<ToneEntry>, key: ToneKey, i: int) -> bool {
    0 <= i < entries.len() && entries[i].key == key
}

/// An immutable mapping from tone keys to symbols.
#[derive(Debug)]
pub struct SymbolTable {
    entries: Vec<ToneEntry>,
}

impl View for SymbolTable {
    type V = Map<ToneKey, char>;

    closed spec fn view(&self) -> Map<ToneKey, char> {
        Map::new(
            |key: ToneKey| exists|i: int| filed_at(self.entries@, key, i),
            |key: ToneKey| self.entries[choose|i: int| filed_at(self.entries@, key, i)].symbol,
        )
    }
}

impl SymbolTable {
    #[verifier::type_invariant]
    spec fn well_formed(self) -> bool {
        &&& forall|i: int, j: int|
            0 <= i < j < self.entries.len() ==> (#[trigger] self.entries[i]).key != (
            #[trigger] self.entries[j]).key
        &&& forall|i: int|
            0 <= i < self.entries.len() ==> (#[trigger] self.entries[i]).key.low != 0
                && self.entries[i].key.high != 0
    }

    /// The table of the sixteen DTMF symbols.
    pub fn standard() -> (table: SymbolTable)
        ensures
            table@ == dtmf_symbols(),
    {
        let mut entries: Vec<ToneEntry> = Vec::with_capacity(16);
        entries.push(ToneEntry { key: ToneKey { low: 697, high: 1209 }, symbol: '1' });
        entries.push(ToneEntry { key: ToneKey { low: 697, high: 1336 }, symbol: '2' });
        entries.push(ToneEntry { key: ToneKey { low: 697, high: 1477 }, symbol: '3' });
        entries.push(ToneEntry { key: ToneKey { low: 770, high: 1209 }, symbol: '4' });
        entries.push(ToneEntry { key: ToneKey { low: 770, high: 1336 }, symbol: '5' });
        entries.push(ToneEntry { key: ToneKey { low: 770, high: 1477 }, symbol: '6' });
        entries.push(ToneEntry { key: ToneKey { low: 852, high: 1209 }, symbol: '7' });
        entries.push(ToneEntry { key: ToneKey { low: 852, high: 1336 }, symbol: '8' });
        entries.push(ToneEntry { key: ToneKey { low: 852, high: 1477 }, symbol: '9' });
        entries.push(ToneEntry { key: ToneKey { low: 941, high: 1209 }, symbol: '*' });
        entries.push(ToneEntry { key: ToneKey { low: 941, high: 1336 }, symbol: '0' });
        entries.push(ToneEntry { key: ToneKey { low: 941, high: 1477 }, symbol: '#' });
        entries.push(ToneEntry { key: ToneKey { low: 697, high: 1633 }, symbol: 'A' });
        entries.push(ToneEntry { key: ToneKey { low: 770, high: 1633 }, symbol: 'B' });
        entries.push(ToneEntry { key: ToneKey { low: 852, high: 1633 }, symbol: 'C' });
        entries.push(ToneEntry { key: ToneKey { low: 941, high: 1633 }, symbol: 'D' });
        let table = SymbolTable { entries };
        proof {
            let listed = table.entries@;
            let symbols = dtmf_symbols();
            assert(filed_at(listed, tone_key(697, 1209), 0));
            assert(filed_at(listed, tone_key(697, 1336), 1));
            assert(filed_at(listed, tone_key(697, 1477), 2));
            assert(filed_at(listed, tone_key(770, 1209), 3));
            assert(filed_at(listed, tone_key(770, 1336), 4));
            assert(filed_at(listed, tone_key(770, 1477), 5));
            assert(filed_at(listed, tone_key(852, 1209), 6));
            assert(filed_at(listed, tone_key(852, 1336), 7));
            assert(filed_at(listed, tone_key(852, 1477), 8));
            assert(filed_at(listed, tone_key(941, 1209), 9));
            assert(filed_at(listed, tone_key(941, 1336), 10));
            assert(filed_at(listed, tone_key(941, 1477), 11));
            assert(filed_at(listed, tone_key(697, 1633), 12));
            assert(filed_at(listed, tone_key(770, 1633), 13));
            assert(filed_at(listed, tone_key(852, 1633), 14));
            assert(filed_at(listed, tone_key(941, 1633), 15));
            assert forall|key: ToneKey| #[trigger] symbols.contains_key(key) implies exists|i: int|
                filed_at(listed, key, i) by {}
            assert forall|key: ToneKey| (exists|i: int| filed_at(listed, key, i))
                implies #[trigger] symbols.contains_key(key) && symbols[key] == listed[choose|i: int|
                filed_at(listed, key, i)].symbol by {
                let i = choose|i: int| filed_at(listed, key, i);
                assert(listed[i].key == key);
            }
            assert(table@ =~= symbols);
        }
        table
    }

    /// The symbol filed under `key`, if any.
    pub fn lookup(&self, key: ToneKey) -> (symbol: Option<char>)
        ensures
            symbol == symbol_of(self@, key),
            key.low == 0 || key.high == 0 ==> symbol is None,
    {
        proof {
            use_type_invariant(self);
        }
        let mut i: usize = 0;
        while i < self.entries.len()
            invariant
                self.well_formed(),
                i <= self.entries.len(),
                forall|j: int| 0 <= j < i ==> (#[trigger] self.entries[j]).key != key,
            decreases self.entries.len() - i,
        {
            let entry: ToneEntry = self.entries[i];
            if entry.key.low == key.low && entry.key.high == key.high {
                proof {
                    assert(filed_at(self.entries@, key, i as int));
                    let c = choose|c: int| filed_at(self.entries@, key, c);
                    assert(c == i);
                }
                return Some(entry.symbol);
            }
            i += 1;
        }
        proof {
            assert forall|j: int| !filed_at(self.entries@, key, j) by {
                if 0 <= j < self.entries.len() {
                    assert(self.entries[j].key != key);
                }
            }
        }
        None
    }
}

} // verus!
