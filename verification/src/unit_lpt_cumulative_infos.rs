//! Time-weighted averages of the token amounts behind one unit of pool shares.
use crate::errors::ExchangeError;
use crate::u256::{modulus, U256};
use vstd::arithmetic::div_mod::*;
use vstd::arithmetic::mul::*;
use vstd::prelude::*;

verus! {

/// Seconds between two kept records.
pub const RECORD_INTERVAL_SEC: u32 = 600;

/// Most records kept.
pub const RECORD_COUNT_LIMIT: usize = 6;

/// The cumulative amounts at one moment.
#[derive(Clone, Debug)]
pub struct CumulativeRecord {
    pub time_sec: u32,
    pub cumulative_token_amounts: Vec<U256>,
}

/// Running sums of amount times seconds, with records of them over the last intervals.
#[derive(Debug)]
pub struct UnitShareCumulativeInfo {
    pub last_update_sec: u32,
    pub cumulative_token_amounts: Vec<U256>,
    pub records: Vec<CumulativeRecord>,
}

/// Versioned cumulative information.
pub enum VUnitShareCumulativeInfo {
    Current(UnitShareCumulativeInfo),
}

impl VUnitShareCumulativeInfo {
    /// The current version.
    pub fn into_current(self) -> (r: UnitShareCumulativeInfo)
        ensures
            self matches VUnitShareCumulativeInfo::Current(c) && r == c,
    {
        match self {
            VUnitShareCumulativeInfo::Current(c) => c,
        }
    }

    /// Wraps the current version.
    pub fn from_current(c: UnitShareCumulativeInfo) -> (r: VUnitShareCumulativeInfo)
        ensures
            r == VUnitShareCumulativeInfo::Current(c),
    {
        VUnitShareCumulativeInfo::Current(c)
    }
}

/// A record as text: the cumulative amounts in decimal.
pub struct CumulativeRecordView {
    pub time_sec: u32,
    pub cumulative_token_amounts: Vec<String>,
}

/// Cumulative information as text.
pub struct UnitShareCumulativeInfoView {
    pub last_update_sec: u32,
    pub cumulative_token_amounts: Vec<String>,
    pub records: Vec<CumulativeRecordView>,
}

/// The values of a list of big numbers.
pub open spec fn values(v: Seq<U256>) -> Seq<nat> {
    v.map_values(|x: U256| x@)
}

/// The values of a list of amounts.
pub open spec fn amounts_values(v: Seq<u128>) -> Seq<nat> {
    v.map_values(|x: u128| x as nat)
}

/// Each running sum advanced by `amount * elapsed`, modulo 2^256.
pub open spec fn advanced(cum: Seq<nat>, amounts: Seq<u128>, elapsed: nat) -> Seq<nat> {
    Seq::new(cum.len(), |i: int| ((cum[i] + amounts[i] * elapsed) as nat) % modulus())
}

/// The average over the kept window: `(cum - earliest) mod 2^256 / elapsed` for each token.
pub open spec fn twap_of(cum: Seq<nat>, earliest: Seq<nat>, elapsed: nat) -> Seq<nat> {
    Seq::new(
        if cum.len() <= earliest.len() { cum.len() } else { earliest.len() },
        |i: int| ((cum[i] - earliest[i] + modulus()) % (modulus() as int)) as nat / elapsed,
    )
}

/// The well-formedness of cumulative information: one to six records, in the order they
/// were taken, each at least `RECORD_INTERVAL_SEC` after the one before, none after the last
/// update.
pub open spec fn cumulative_wf(c: &UnitShareCumulativeInfo) -> bool {
    &&& 1 <= c.records.len() <= RECORD_COUNT_LIMIT
    &&& forall|i: int| 0 <= i < c.records.len() ==> #[trigger] c.records@[i].time_sec <= c.last_update_sec
    &&& forall|i: int, j: int| 0 <= i < j < c.records.len()
        ==> #[trigger] c.records@[i].time_sec + RECORD_INTERVAL_SEC <= #[trigger] c.records@[j].time_sec
}

/// Widens each amount to 256 bits.
fn widen(amounts: &Vec<u128>) -> (r: Vec<U256>)
    ensures
        values(r@) == amounts_values(amounts@),
{
    let mut out: Vec<U256> = Vec::new();
    let mut i: usize = 0;
    while i < amounts.len()
        invariant
            i <= amounts.len(),
            out.len() == i,
            forall|j: int| 0 <= j < i ==> #[trigger] out@[j]@ == amounts@[j],
        decreases amounts.len() - i,
    {
        out.push(U256::from_u128(amounts[i]));
        i = i + 1;
    }
    assert(values(out@) =~= amounts_values(amounts@));
    out
}

impl UnitShareCumulativeInfo {
    /// Starts the sums at the current amounts, with one record of them.
    pub fn new(current_time_sec: u32, amounts: Vec<u128>) -> (r: UnitShareCumulativeInfo)
        ensures
            cumulative_wf(&r),
            r.last_update_sec == current_time_sec,
            values(r.cumulative_token_amounts@) == amounts_values(amounts@),
            r.records.len() == 1,
            r.records@[0].time_sec == current_time_sec,
            values(r.records@[0].cumulative_token_amounts@) == amounts_values(amounts@),
    {
        let cum = widen(&amounts);
        let rec = widen(&amounts);
        let mut records: Vec<CumulativeRecord> = Vec::new();
        records.push(CumulativeRecord { time_sec: current_time_sec, cumulative_token_amounts: rec });
        UnitShareCumulativeInfo {
            last_update_sec: current_time_sec,
            cumulative_token_amounts: cum,
            records,
        }
    }

    /// Advances the sums to `current_time_sec` at the given amounts; a record is added when
    /// an interval has passed since the last one, and the oldest of seven is dropped.
    pub fn update(&mut self, current_time_sec: u32, amounts: Vec<u128>)
        requires
            cumulative_wf(old(self)),
            current_time_sec >= old(self).last_update_sec,
            amounts.len() >= old(self).cumulative_token_amounts.len(),
        ensures
            cumulative_wf(final(self)),
            current_time_sec == old(self).last_update_sec ==> *final(self) == *old(self),
            current_time_sec > old(self).last_update_sec ==> {
                let cum = advanced(values(old(self).cumulative_token_amounts@), amounts@, (current_time_sec - old(self).last_update_sec) as nat);
                let last = old(self).records@[old(self).records.len() - 1];
                &&& final(self).last_update_sec == current_time_sec
                &&& values(final(self).cumulative_token_amounts@) == cum
                &&& current_time_sec - last.time_sec < RECORD_INTERVAL_SEC ==> final(self).records@ == old(self).records@
                &&& current_time_sec - last.time_sec >= RECORD_INTERVAL_SEC ==> {
                    let pushed = old(self).records@.push(final(self).records@[final(self).records.len() - 1]);
                    &&& final(self).records@[final(self).records.len() - 1].time_sec == current_time_sec
                    &&& values(final(self).records@[final(self).records.len() - 1].cumulative_token_amounts@) == cum
                    &&& pushed.len() <= RECORD_COUNT_LIMIT ==> final(self).records@ == pushed
                    &&& pushed.len() > RECORD_COUNT_LIMIT ==> final(self).records@ == pushed.subrange(1, pushed.len() as int)
                }
            },
    {
        let last_time = self.records[self.records.len() - 1].time_sec;
        let time_elapsed = current_time_sec - self.last_update_sec;
        if time_elapsed > 0 {
            let ghost old_cum = values(self.cumulative_token_amounts@);
            let mut new_cum: Vec<U256> = Vec::new();
            let n = self.cumulative_token_amounts.len();
            let mut i: usize = 0;
            while i < n
                invariant
                    n == self.cumulative_token_amounts.len(),
                    n <= amounts.len(),
                    old_cum == values(self.cumulative_token_amounts@),
                    i <= n,
                    new_cum.len() == i,
                    forall|j: int| 0 <= j < i ==> #[trigger] new_cum@[j]@ == ((old_cum[j] + amounts@[j] * time_elapsed) as nat) % modulus(),
                decreases n - i,
            {
                proof {
                    assert(amounts@[i as int] * time_elapsed <= u128::MAX * u32::MAX) by (nonlinear_arith)
                        requires
                            amounts@[i as int] <= u128::MAX,
                            time_elapsed <= u32::MAX,
                    ;
                    assert(u128::MAX * u32::MAX <= crate::u256::u256_max()) by (nonlinear_arith);
                }
                let inc = U256::from_u128(amounts[i]).mul(&U256::from_u128(time_elapsed as u128));
                let (v, _) = self.cumulative_token_amounts[i].overflowing_add(&inc);
                new_cum.push(v);
                i = i + 1;
            }
            assert(values(new_cum@) =~= advanced(old_cum, amounts@, time_elapsed as nat));
            self.last_update_sec = current_time_sec;
            self.cumulative_token_amounts = new_cum;
            if current_time_sec - last_time >= RECORD_INTERVAL_SEC {
                let snapshot = self.cumulative_token_amounts.clone();
                assert(snapshot@ == self.cumulative_token_amounts@);
                let ghost before = self.records@;
                self.records.push(CumulativeRecord { time_sec: current_time_sec, cumulative_token_amounts: snapshot });
                proof {
                    let n = before.len() as int;
                    assert forall|i: int, j: int| 0 <= i < j < self.records.len()
                        implies #[trigger] self.records@[i].time_sec + RECORD_INTERVAL_SEC <= #[trigger] self.records@[j].time_sec by {
                        if j == n {
                            if i < n - 1 {
                                assert(before[i].time_sec + RECORD_INTERVAL_SEC <= before[n - 1].time_sec);
                            }
                        } else {
                            assert(self.records@[i] == before[i] && self.records@[j] == before[j]);
                        }
                    }
                }
                if self.records.len() > RECORD_COUNT_LIMIT {
                    let ghost pushed = self.records@;
                    self.records.remove(0);
                    assert(self.records@ =~= pushed.subrange(1, pushed.len() as int));
                }
            }
        }
    }

    /// The average amounts over the kept window, from the earliest record to the last update.
    pub fn twap_token_amounts(&self) -> (r: Result<Vec<u128>, ExchangeError>)
        requires
            cumulative_wf(self),
        ensures
            ({
                let earliest = self.records@[0];
                let elapsed = (self.last_update_sec - earliest.time_sec) as nat;
                let avg = twap_of(values(self.cumulative_token_amounts@), values(earliest.cumulative_token_amounts@), elapsed);
                &&& elapsed == 0 ==> r == Err::<Vec<u128>, ExchangeError>(ExchangeError::JustInitialized)
                &&& elapsed > 0 && (forall|i: int| 0 <= i < avg.len() ==> #[trigger] avg[i] <= u128::MAX) ==> r is Ok
                &&& elapsed > 0 && (exists|i: int| 0 <= i < avg.len() && #[trigger] avg[i] > u128::MAX) ==> r == Err::<Vec<u128>, ExchangeError>(ExchangeError::ArithmeticOverflow)
                &&& r matches Ok(v) ==> amounts_values(v@) == avg
            }),
    {
        let earliest = &self.records[0];
        let denominator = self.last_update_sec - earliest.time_sec;
        if denominator == 0 {
            return Err(ExchangeError::JustInitialized);
        }
        let ghost cum = values(self.cumulative_token_amounts@);
        let ghost ear = values(earliest.cumulative_token_amounts@);
        let ghost avg = twap_of(values(self.cumulative_token_amounts@), values(self.records@[0].cumulative_token_amounts@), (self.last_update_sec - self.records@[0].time_sec) as nat);
        assert(avg == twap_of(cum, ear, denominator as nat));
        let n = if self.cumulative_token_amounts.len() <= earliest.cumulative_token_amounts.len() {
            self.cumulative_token_amounts.len()
        } else {
            earliest.cumulative_token_amounts.len()
        };
        let d = U256::from_u128(denominator as u128);
        let mut out: Vec<u128> = Vec::new();
        let mut i: usize = 0;
        while i < n
            invariant
                n == avg.len(),
                n <= self.cumulative_token_amounts.len(),
                n <= earliest.cumulative_token_amounts.len(),
                cum == values(self.cumulative_token_amounts@),
                ear == values(earliest.cumulative_token_amounts@),
                ear == values(self.records@[0].cumulative_token_amounts@),
                avg == twap_of(cum, ear, denominator as nat),
                d@ == denominator,
                denominator > 0,
                denominator == self.last_update_sec - self.records@[0].time_sec,
                i <= n,
                out.len() == i,
                forall|j: int| 0 <= j < i ==> #[trigger] out@[j] == avg[j],
            decreases n - i,
        {
            let (num, _) = self.cumulative_token_amounts[i].overflowing_sub(&earliest.cumulative_token_amounts[i]);
            let q = num.div(&d);
            match q.to_u128() {
                Some(v) => out.push(v),
                None => {
                    assert(avg[i as int] > u128::MAX);
                    return Err(ExchangeError::ArithmeticOverflow);
                },
            }
            i = i + 1;
        }
        assert(amounts_values(out@) =~= avg);
        Ok(out)
    }
}

} // verus!
