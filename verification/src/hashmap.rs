//! The table of the fourteen rates: which entry belongs to a rate, and the
//! table as a mapping from the rates, written as text, to the scores.

use vstd::prelude::*;
use crate::error::{MinaCalcError, MinaCalcResult, NoteDataError};
use crate::first::{first_index, lemma_first_index, lemma_first_index_is};
use crate::text::{rate_key, rate_key_text};
use crate::wrapper::{AllRates, Ssr};

verus! {

/// The lowest rate of the table: 0.7x.
pub const RATE_MIN: i64 = 700_000;

/// The highest rate of the table: 2.0x.
pub const RATE_MAX: i64 = 2_000_000;

/// The distance between two rates of the table: 0.1x.
pub const RATE_STEP: i64 = 100_000;

/// The rate that the entry `i` of the table belongs to.
pub open spec fn table_rate(i: int) -> int {
    RATE_MIN + i * RATE_STEP
}

/// The rates that the table spans.
pub open spec fn in_table_range(rate: i64) -> bool {
    RATE_MIN <= rate <= RATE_MAX
}

/// The entry whose rate is nearest to `rate`; of two that are equally near,
/// the higher one.
pub open spec fn rate_slot(rate: i64) -> int {
    (rate - RATE_MIN + RATE_STEP / 2) / (RATE_STEP as int)
}

/// The entry nearest to a rate that the table spans is one of the fourteen,
/// and its rate is no further than 0.05x away.
pub proof fn lemma_rate_slot_bounds(rate: i64)
    requires
        in_table_range(rate),
    ensures
        0 <= rate_slot(rate) < 14,
        table_rate(rate_slot(rate)) - RATE_STEP / 2 <= rate < table_rate(rate_slot(rate))
            + RATE_STEP / 2,
{
    let x = rate - RATE_MIN + RATE_STEP / 2;
    crate::fixed::lemma_quotient_bounds(x, RATE_STEP as int);
    let q = x / (RATE_STEP as int);
    assert(q * 100_000 <= x < (q + 1) * 100_000);
}

/// The entry that belongs to `rate`, for a rate that the table spans.
pub fn rate_index(rate: i64) -> (r: MinaCalcResult<usize>)
    ensures
        match r {
            Ok(index) => in_table_range(rate) && index == rate_slot(rate) && index < 14,
            Err(e) => !in_table_range(rate) && e == MinaCalcError::InvalidNoteData(
                NoteDataError::RateOutOfRange { rate },
            ),
        },
{
    if rate < RATE_MIN || rate > RATE_MAX {
        return Err(MinaCalcError::InvalidNoteData(NoteDataError::RateOutOfRange { rate }));
    }
    proof {
        lemma_rate_slot_bounds(rate);
    }
    let index: usize = ((rate - RATE_MIN + RATE_STEP / 2) / RATE_STEP) as usize;
    if index < 14 {
        Ok(index)
    } else {
        Err(MinaCalcError::InvalidNoteData(NoteDataError::RateIndexOutOfBounds { rate, index }))
    }
}

/// Scores by key: a mapping from text to scores, which remembers the order
/// in which its entries came.
#[derive(Debug, Clone, PartialEq, Eq)]
pub struct KeyedScores {
    entries: Vec<(String, Ssr)>,
}

/// The mapping that entries make when each is put in after the ones before
/// it: of two entries with one key the later one stays.
pub open spec fn mapping_of(keys: Seq<Seq<char>>, values: Seq<Ssr>) -> Map<Seq<char>, Ssr>
    decreases keys.len(),
{
    if keys.len() == 0 {
        Map::empty()
    } else {
        mapping_of(keys.drop_last(), values.drop_last()).insert(keys.last(), values.last())
    }
}

impl KeyedScores {
    /// The keys in the order in which they came.
    pub closed spec fn keys(&self) -> Seq<Seq<char>> {
        Seq::new(self.entries@.len(), |i: int| self.entries@[i].0@)
    }

    /// The scores in the order in which they came.
    pub closed spec fn values(&self) -> Seq<Ssr> {
        Seq::new(self.entries@.len(), |i: int| self.entries@[i].1)
    }

    /// The mapping itself.
    pub open spec fn mapping(&self) -> Map<Seq<char>, Ssr> {
        mapping_of(self.keys(), self.values())
    }

    /// The empty mapping.
    pub fn new() -> (r: Self)
        ensures
            r.keys() == Seq::<Seq<char>>::empty(),
            r.values() == Seq::<Ssr>::empty(),
            r.mapping() == Map::<Seq<char>, Ssr>::empty(),
    {
        let r = KeyedScores { entries: Vec::new() };
        assert(r.keys() =~= Seq::<Seq<char>>::empty());
        assert(r.values() =~= Seq::<Ssr>::empty());
        r
    }

    /// Puts `value` under `key`, in place of what was there.
    pub fn insert(&mut self, key: String, value: Ssr)
        ensures
            final(self).keys() == old(self).keys().push(key@),
            final(self).values() == old(self).values().push(value),
            final(self).mapping() == old(self).mapping().insert(key@, value),
    {
        self.entries.push((key, value));
        assert(self.keys() =~= old(self).keys().push(key@));
        assert(self.values() =~= old(self).values().push(value));
        assert(self.keys().drop_last() =~= old(self).keys());
        assert(self.values().drop_last() =~= old(self).values());
    }

    /// The scores under `key`, if the mapping has the key.
    pub fn get(&self, key: &String) -> (r: Option<Ssr>)
        ensures
            r == if self.mapping().contains_key(key@) {
                Some(self.mapping()[key@])
            } else {
                None
            },
    {
        let mut i: usize = self.entries.len();
        proof {
            assert(self.keys().take(i as int) =~= self.keys());
            assert(self.values().take(i as int) =~= self.values());
        }
        while i > 0
            invariant
                i <= self.entries.len(),
                self.mapping().contains_key(key@) == mapping_of(
                    self.keys().take(i as int),
                    self.values().take(i as int),
                ).contains_key(key@),
                self.mapping().contains_key(key@) ==> self.mapping()[key@] == mapping_of(
                    self.keys().take(i as int),
                    self.values().take(i as int),
                )[key@],
            decreases i,
        {
            proof {
                assert(self.keys().take(i as int).drop_last() =~= self.keys().take(i - 1));
                assert(self.values().take(i as int).drop_last() =~= self.values().take(i - 1));
                assert(self.keys().take(i as int).last() == self.entries@[i - 1].0@);
                assert(self.values().take(i as int).last() == self.entries@[i - 1].1);
            }
            i -= 1;
            if self.entries[i].0 == *key {
                return Some(self.entries[i].1);
            }
        }
        None
    }

    /// The number of entries that were put in; a key that was put in twice
    /// counts twice.
    pub fn entry_count(&self) -> (r: usize)
        ensures
            r == self.keys().len(),
    {
        self.entries.len()
    }

    /// The entries in the order in which they came.
    pub fn into_entries(self) -> (r: Vec<(String, Ssr)>)
        ensures
            r@.len() == self.keys().len(),
            forall|i: int|
                0 <= i < r@.len() ==> (#[trigger] r@[i]).0@ == self.keys()[i] && r@[i].1
                    == self.values()[i],
    {
        self.entries
    }
}

/// `formatter` may write `text` for `rate`.
pub open spec fn writes<F: Fn(i64) -> String>(formatter: &F, rate: i64, text: Seq<char>) -> bool {
    exists|key: String| formatter.ensures((rate,), key) && key@ == text
}

/// The places of `rates` that hold a rate the table does not span.
pub open spec fn outside_table(rates: Seq<i64>) -> spec_fn(int) -> bool {
    |i: int| !in_table_range(rates[i])
}

/// The table of the fourteen rates as a mapping, and its entries by rate.
pub trait HashMapCalcExt {
    /// The scores of the fourteen entries as the engine holds them.
    spec fn raw_entries(&self) -> Seq<Ssr>;

    /// The table as a mapping from the rates, written with one decimal place
    /// ("0.7" to "2.0"), to the scores.
    fn as_hashmap(&self) -> (r: MinaCalcResult<KeyedScores>)
        ensures
            r is Ok,
            r->Ok_0.keys() == Seq::new(14, |i: int| rate_key_text(i as nat)),
            r->Ok_0.values() == self.raw_entries(),
    ;

    /// The table as a mapping from the rates, written as `formatter` writes
    /// them, to the scores.
    fn as_hashmap_with_format<F: Fn(i64) -> String>(&self, formatter: &F) -> (r: MinaCalcResult<
        KeyedScores,
    >)
        requires
            forall|i: int| 0 <= i < 14 ==> formatter.requires((#[trigger] table_rate(i) as i64,)),
        ensures
            r is Ok,
            r->Ok_0.values() == self.raw_entries(),
            r->Ok_0.keys().len() == 14,
            forall|i: int|
                0 <= i < 14 ==> writes(
                    formatter,
                    table_rate(i) as i64,
                    #[trigger] r->Ok_0.keys()[i],
                ),
    ;

    /// The part of the table that belongs to `rates`, as a mapping from the
    /// rates of the entries, written with one decimal place, to the scores.
    /// Fails for no rates at all, and for the first rate that the table does
    /// not span.
    fn as_hashmap_with_rates(&self, rates: &[i64]) -> (r: MinaCalcResult<KeyedScores>)
        ensures
            rates@.len() == 0 ==> r == Err::<KeyedScores, MinaCalcError>(
                MinaCalcError::InvalidNoteData(NoteDataError::NoRatesProvided),
            ),
            rates@.len() > 0 ==> match first_index(rates@.len() as int, outside_table(rates@)) {
                Some(i) => r == Err::<KeyedScores, MinaCalcError>(
                    MinaCalcError::InvalidNoteData(
                        NoteDataError::RateOutOfRange { rate: rates@[i] },
                    ),
                ),
                None => {
                    &&& r is Ok
                    &&& r->Ok_0.keys() == Seq::new(
                        rates@.len(),
                        |i: int| rate_key_text(rate_slot(rates@[i]) as nat),
                    )
                    &&& r->Ok_0.values() == Seq::new(
                        rates@.len(),
                        |i: int| self.raw_entries()[rate_slot(rates@[i])],
                    )
                },
            },
    ;

    /// The scores of the entry that belongs to `rate`, for a rate that the
    /// table spans.
    fn get_rate_scores(&self, rate: i64) -> (r: MinaCalcResult<Ssr>)
        ensures
            match r {
                Ok(scores) => in_table_range(rate) && scores == self.raw_entries()[rate_slot(rate)],
                Err(e) => !in_table_range(rate) && e == MinaCalcError::InvalidNoteData(
                    NoteDataError::RateOutOfRange { rate },
                ),
            },
    ;

    /// The fourteen rates of the table, from 0.7x to 2.0x.
    fn get_available_rates(&self) -> (r: Vec<i64>)
        ensures
            r@ == Seq::new(14, |i: int| table_rate(i) as i64),
    ;
}

impl HashMapCalcExt for AllRates {
    open spec fn raw_entries(&self) -> Seq<Ssr> {
        Seq::new(14, |i: int| self.msds[i].raw())
    }

    fn as_hashmap(&self) -> (r: MinaCalcResult<KeyedScores>) {
        let mut map = KeyedScores::new();
        let mut i: usize = 0;
        while i < 14
            invariant
                i <= 14,
                map.keys() == Seq::new(i as nat, |k: int| rate_key_text(k as nat)),
                map.values() == Seq::new(i as nat, |k: int| self.msds[k].raw()),
            decreases 14 - i,
        {
            let key = rate_key(i);
            map.insert(key, Ssr::from(self.msds[i]));
            proof {
                assert(map.keys() =~= Seq::new((i + 1) as nat, |k: int| rate_key_text(k as nat)));
                assert(map.values() =~= Seq::new((i + 1) as nat, |k: int| self.msds[k].raw()));
            }
            i += 1;
        }
        Ok(map)
    }

    fn as_hashmap_with_format<F: Fn(i64) -> String>(&self, formatter: &F) -> (r: MinaCalcResult<
        KeyedScores,
    >) {
        let mut map = KeyedScores::new();
        let mut i: usize = 0;
        while i < 14
            invariant
                i <= 14,
                forall|k: int|
                    0 <= k < 14 ==> formatter.requires((#[trigger] table_rate(k) as i64,)),
                map.keys().len() == i,
                forall|k: int|
                    0 <= k < i ==> writes(
                        formatter,
                        table_rate(k) as i64,
                        #[trigger] map.keys()[k],
                    ),
                map.values() == Seq::new(i as nat, |k: int| self.msds[k].raw()),
            decreases 14 - i,
        {
            let rate: i64 = RATE_MIN + (i as i64) * RATE_STEP;
            assert(rate == table_rate(i as int) as i64);
            let key = formatter(rate);
            let ghost before = map.keys();
            let ghost written = key;
            map.insert(key, Ssr::from(self.msds[i]));
            proof {
                assert(map.values() =~= Seq::new((i + 1) as nat, |k: int| self.msds[k].raw()));
                assert forall|k: int| 0 <= k < i + 1 implies writes(
                    formatter,
                    table_rate(k) as i64,
                    #[trigger] map.keys()[k],
                ) by {
                    if k < i {
                        assert(map.keys()[k] == before[k]);
                    } else {
                        assert(formatter.ensures((table_rate(k) as i64,), written) && written@
                            == map.keys()[k]);
                    }
                }
            }
            i += 1;
        }
        Ok(map)
    }

    fn as_hashmap_with_rates(&self, rates: &[i64]) -> (r: MinaCalcResult<KeyedScores>) {
        let n: usize = rates.len();
        if n == 0 {
            return Err(MinaCalcError::InvalidNoteData(NoteDataError::NoRatesProvided));
        }
        let mut map = KeyedScores::new();
        let mut i: usize = 0;
        while i < n
            invariant
                i <= n,
                n == rates@.len(),
                forall|k: int| 0 <= k < i ==> !#[trigger] outside_table(rates@)(k),
                map.keys() == Seq::new(i as nat, |k: int| rate_key_text(rate_slot(rates@[k]) as nat)),
                map.values() == Seq::new(i as nat, |k: int| self.msds[rate_slot(rates@[k])].raw()),
            decreases n - i,
        {
            let rate: i64 = rates[i];
            match rate_index(rate) {
                Ok(index) => {
                    let key = rate_key(index);
                    map.insert(key, Ssr::from(self.msds[index]));
                    proof {
                        assert(map.keys() =~= Seq::new(
                            (i + 1) as nat,
                            |k: int| rate_key_text(rate_slot(rates@[k]) as nat),
                        ));
                        assert(map.values() =~= Seq::new(
                            (i + 1) as nat,
                            |k: int| self.msds[rate_slot(rates@[k])].raw(),
                        ));
                    }
                },
                Err(e) => {
                    proof {
                        lemma_first_index_is(n as int, outside_table(rates@), i as int);
                    }
                    return Err(e);
                },
            }
            i += 1;
        }
        proof {
            lemma_first_index(n as int, outside_table(rates@));
            assert forall|k: int| 0 <= k < n implies self.msds[rate_slot(rates@[k])].raw()
                == self.raw_entries()[rate_slot(rates@[k])] by {
                assert(!outside_table(rates@)(k));
                lemma_rate_slot_bounds(rates@[k]);
            }
            assert(map.values() =~= Seq::new(
                rates@.len(),
                |i: int| self.raw_entries()[rate_slot(rates@[i])],
            ));
        }
        Ok(map)
    }

    fn get_rate_scores(&self, rate: i64) -> (r: MinaCalcResult<Ssr>) {
        match rate_index(rate) {
            Ok(index) => Ok(Ssr::from(self.msds[index])),
            Err(e) => Err(e),
        }
    }

    fn get_available_rates(&self) -> (r: Vec<i64>) {
        let mut rates: Vec<i64> = Vec::new();
        let mut i: usize = 0;
        while i < 14
            invariant
                i <= 14,
                rates@ == Seq::new(i as nat, |k: int| table_rate(k) as i64),
            decreases 14 - i,
        {
            rates.push(RATE_MIN + (i as i64) * RATE_STEP);
            proof {
                assert(rates@ =~= Seq::new((i + 1) as nat, |k: int| table_rate(k) as i64));
            }
            i += 1;
        }
        rates
    }
}

} // verus!
