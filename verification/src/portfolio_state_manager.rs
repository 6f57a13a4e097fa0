//! Versioned portfolio snapshots with optimistic locking and exposure
//! reservations.
use crate::decimal::{
    decimal_difference, decimal_sum, decimal_text, iabs, max_units, one_units, units_of, Dec,
};
use crate::system::{new_uuid, now_millis};
use crate::text::str_eq;
use crate::trading::Portfolio;
use vstd::prelude::*;
use vstd::string::StringExecFns;

verus! {

/// Capital set aside for a pending order.
#[derive(Clone, Debug)]
pub struct Reservation {
    pub id: String,
    pub amount: Dec,
}

/// The sum of the reserved amounts, added up in order from zero.
pub open spec fn reserved_total(reserved: Seq<(Seq<char>, (int, nat))>) -> (int, nat)
    decreases reserved.len(),
{
    if reserved.len() == 0 {
        (0, 0)
    } else {
        decimal_sum(reserved_total(reserved.drop_last()), reserved.last().1)
    }
}

/// The sum of the magnitudes of the reserved amounts (in units).
pub open spec fn reserved_magnitude(reserved: Seq<(Seq<char>, (int, nat))>) -> int
    decreases reserved.len(),
{
    if reserved.len() == 0 {
        0
    } else {
        reserved_magnitude(reserved.drop_last()) + iabs(units_of(reserved.last().1))
    }
}

/// Reservation identifiers are distinct.
pub open spec fn ids_unique(reserved: Seq<(Seq<char>, (int, nat))>) -> bool {
    forall|i: int, j: int|
        0 <= i < reserved.len() && 0 <= j < reserved.len() && i != j ==> (#[trigger] reserved[i]).0
            != (#[trigger] reserved[j]).0
}

/// Whether a reservation with this identifier exists.
pub open spec fn has_reservation(reserved: Seq<(Seq<char>, (int, nat))>, id: Seq<char>) -> bool {
    exists|i: int| 0 <= i < reserved.len() && (#[trigger] reserved[i]).0 == id
}

/// Whether a reservation has an identifier other than `id`.
pub open spec fn other_than(id: Seq<char>) -> spec_fn((Seq<char>, (int, nat))) -> bool {
    |r: (Seq<char>, (int, nat))| r.0 != id
}

/// The reservations without the one with identifier `id`.
pub open spec fn without_reservation(reserved: Seq<(Seq<char>, (int, nat))>, id: Seq<char>) -> Seq<
    (Seq<char>, (int, nat)),
> {
    reserved.filter(other_than(id))
}

/// A portfolio snapshot with its version, time and reservations.
#[derive(Clone, Debug)]
pub struct VersionedPortfolio {
    /// Increases by one at every refresh.
    pub version: u64,
    pub portfolio: Portfolio,
    /// When the snapshot was taken (milliseconds since the epoch).
    pub timestamp: i64,
    /// Capital reserved for pending orders, by reservation id.
    pub reserved_exposure: Vec<Reservation>,
}

impl VersionedPortfolio {
    /// The reservations as plain values.
    pub open spec fn reserved(self) -> Seq<(Seq<char>, (int, nat))> {
        self.reserved_exposure@.map_values(|r: Reservation| (r.id@, r.amount@))
    }

    /// Reservations have distinct ids, and their sums stay in the decimal range.
    pub open spec fn wf(self) -> bool {
        &&& ids_unique(self.reserved())
        &&& iabs(self.portfolio.cash.units()) + reserved_magnitude(self.reserved()) + (
        self.reserved().len() + 1) * one_units() <= max_units()
    }

    /// The total reserved amount.
    pub fn total_reserved(&self) -> (r: Dec)
        requires
            self.wf(),
        ensures
            r@ == reserved_total(self.reserved()),
            iabs(r.units()) <= reserved_magnitude(self.reserved()) + self.reserved().len()
                * one_units(),
    {
        let mut total = Dec::zero();
        let mut i: usize = 0;
        while i < self.reserved_exposure.len()
            invariant
                i <= self.reserved_exposure.len(),
                self.wf(),
                total@ == reserved_total(self.reserved().take(i as int)),
                iabs(total.units()) <= reserved_magnitude(self.reserved().take(i as int)) + i
                    * one_units(),
            decreases self.reserved_exposure.len() - i,
        {
            let ghost s = self.reserved();
            proof {
                assert(s.take(i + 1).drop_last() =~= s.take(i as int));
                assert(s.take(i + 1).last() == s[i as int]);
                lemma_magnitude_prefix(s, i + 1);
            }
            let amount = self.reserved_exposure[i].amount;
            total = total.add(&amount);
            i = i + 1;
        }
        proof {
            assert(self.reserved().take(i as int) =~= self.reserved());
        }
        total
    }

    /// Cash not reserved for pending orders: cash minus the reserved total.
    pub fn available_cash(&self) -> (r: Dec)
        requires
            self.wf(),
        ensures
            r@ == decimal_difference(self.portfolio.cash@, reserved_total(self.reserved())),
    {
        let reserved = self.total_reserved();
        self.portfolio.cash.sub(&reserved)
    }
}

/// Magnitudes of prefixes grow and are bounded by the whole.
proof fn lemma_magnitude_prefix(s: Seq<(Seq<char>, (int, nat))>, k: int)
    requires
        0 <= k <= s.len(),
    ensures
        reserved_magnitude(s.take(k)) <= reserved_magnitude(s),
        k > 0 ==> reserved_magnitude(s.take(k)) == reserved_magnitude(s.take(k - 1)) + iabs(
            units_of(s[k - 1].1),
        ),
    decreases s.len(),
{
    if k > 0 {
        assert(s.take(k).drop_last() =~= s.take(k - 1));
    }
    if s.len() > 0 {
        if k == s.len() {
            assert(s.take(k) =~= s);
        } else {
            lemma_magnitude_prefix(s.drop_last(), k);
            assert(s.drop_last().take(k) =~= s.take(k));
        }
    } else {
        assert(s.take(k) =~= s);
    }
}

/// A token for reserved capital.
#[derive(Clone, Debug)]
pub struct ReservationToken {
    pub id: String,
    pub symbol: String,
    pub amount: Dec,
}

impl ReservationToken {
    /// A token with a fresh random id.
    pub fn new(symbol: &str, amount: Dec) -> (r: Self)
        ensures
            r.symbol@ == symbol@,
            r.amount == amount,
            r.id@.len() == 36,
    {
        ReservationToken { id: new_uuid(), symbol: String::from_str(symbol), amount }
    }
}

/// Why a reservation was refused.
#[derive(Clone, Copy, Debug)]
pub enum ReservationError {
    /// The portfolio changed since the snapshot the caller read.
    VersionConflict { expected: u64, actual: u64 },
    /// Not enough unreserved cash (`reserved` is the total already reserved).
    InsufficientFunds { needed: Dec, available: Dec, reserved: Dec },
}

/// The text of a refused reservation.
pub open spec fn reservation_error_text(e: ReservationError) -> Seq<char> {
    match e {
        ReservationError::VersionConflict { expected, actual } => "Version conflict: expected v"@
            + decimal_text((expected as int, 0nat)) + ", actual v"@ + decimal_text(
            (actual as int, 0nat),
        ) + " (portfolio changed)"@,
        ReservationError::InsufficientFunds { needed, available, reserved } => "Insufficient funds: need $"@
            + decimal_text(needed@) + ", available $"@ + decimal_text(available@) + " (reserved: $"@
            + decimal_text(reserved@) + ")"@,
    }
}

impl ReservationError {
    /// The error as text: "Version conflict: expected v.., actual v.. (portfolio
    /// changed)" or "Insufficient funds: need $.., available $.. (reserved: $..)".
    pub fn message(&self) -> (r: String)
        ensures
            r@ == reservation_error_text(*self),
    {
        match self {
            ReservationError::VersionConflict { expected, actual } => {
                let mut t = String::from_str("Version conflict: expected v");
                t.append(Dec::from_u64(*expected).to_string().as_str());
                t.append(", actual v");
                t.append(Dec::from_u64(*actual).to_string().as_str());
                t.append(" (portfolio changed)");
                t
            },
            ReservationError::InsufficientFunds { needed, available, reserved } => {
                let mut t = String::from_str("Insufficient funds: need $");
                t.append(needed.to_string().as_str());
                t.append(", available $");
                t.append(available.to_string().as_str());
                t.append(" (reserved: $");
                t.append(reserved.to_string().as_str());
                t.append(")");
                t
            },
        }
    }
}

/// Holds the current portfolio snapshot and detects stale reads and conflicting
/// reservations.
pub struct PortfolioStateManager {
    current_state: VersionedPortfolio,
    max_staleness_ms: i64,
}

impl PortfolioStateManager {
    pub closed spec fn state(self) -> VersionedPortfolio {
        self.current_state
    }

    pub closed spec fn staleness(self) -> i64 {
        self.max_staleness_ms
    }

    /// A manager for snapshots older than `max_staleness_ms` counting as stale,
    /// starting at version 0 with an empty portfolio taken now.
    pub fn new(max_staleness_ms: i64) -> (r: Self)
        ensures
            r.state().version == 0,
            r.state().portfolio.cash.units() == 0,
            r.state().portfolio.positions@.len() == 0,
            r.state().reserved_exposure@.len() == 0,
            r.state().wf(),
            r.staleness() == max_staleness_ms,
    {
        Self::new_at(max_staleness_ms, now_millis())
    }

    /// As [`PortfolioStateManager::new`], with the current time given.
    pub fn new_at(max_staleness_ms: i64, now_ms: i64) -> (r: Self)
        ensures
            r.state().version == 0,
            r.state().portfolio.cash.units() == 0,
            r.state().portfolio.positions@.len() == 0,
            r.state().reserved_exposure@.len() == 0,
            r.state().timestamp == now_ms,
            r.state().wf(),
            r.staleness() == max_staleness_ms,
    {
        let state = VersionedPortfolio {
            version: 0,
            portfolio: Portfolio { cash: Dec::zero(), positions: Vec::new() },
            timestamp: now_ms,
            reserved_exposure: Vec::new(),
        };
        proof {
            assert(state.reserved() =~= Seq::<(Seq<char>, (int, nat))>::empty());
            crate::decimal::lemma_pow10_28();
        }
        PortfolioStateManager { current_state: state, max_staleness_ms }
    }

    /// The current version.
    pub fn get_version(&self) -> (r: u64)
        ensures
            r == self.state().version,
    {
        self.current_state.version
    }

    /// The current snapshot.
    pub fn get_snapshot(&self) -> (r: &VersionedPortfolio)
        ensures
            *r == self.state(),
    {
        &self.current_state
    }

    /// Whether a snapshot is older than the staleness limit at time `now_ms`.
    pub fn is_stale_at(&self, snapshot: &VersionedPortfolio, now_ms: i64) -> (r: bool)
        ensures
            r == (now_ms - snapshot.timestamp > self.staleness()),
    {
        let age_ms: i128 = now_ms as i128 - snapshot.timestamp as i128;
        age_ms > self.max_staleness_ms as i128
    }

    /// Whether a snapshot is older than the staleness limit now. The clock is
    /// read, so only what holds for every reading of it is stated: a snapshot
    /// that no reading can make stale is fresh, and one that every reading makes
    /// stale is stale (`is_stale_at` gives the result for a known time).
    pub fn is_stale(&self, snapshot: &VersionedPortfolio) -> (r: bool)
        ensures
            snapshot.timestamp + self.staleness() >= i64::MAX ==> !r,
            i64::MIN - snapshot.timestamp > self.staleness() ==> r,
    {
        self.is_stale_at(snapshot, now_millis())
    }

    /// Install a freshly fetched portfolio taken at `now_ms`: the version goes
    /// up by one, which invalidates every earlier snapshot; reservations stay.
    pub fn refresh(&mut self, portfolio: Portfolio, now_ms: i64)
        requires
            old(self).state().wf(),
            old(self).state().version < u64::MAX,
            iabs(portfolio.cash.units()) + reserved_magnitude(old(self).state().reserved()) + (
            old(self).state().reserved().len() + 1) * one_units() <= max_units(),
        ensures
            final(self).state().version == old(self).state().version + 1,
            final(self).state().portfolio == portfolio,
            final(self).state().timestamp == now_ms,
            final(self).state().reserved() == old(self).state().reserved(),
            final(self).state().wf(),
            final(self).staleness() == old(self).staleness(),
    {
        self.current_state.version = self.current_state.version + 1;
        self.current_state.portfolio = portfolio;
        self.current_state.timestamp = now_ms;
    }

    /// Reserve `amount` for a pending trade in `symbol`, provided the caller's
    /// snapshot (`expected_version`) is still current and enough cash is left
    /// unreserved. On success the reservation is recorded under the token's id.
    pub fn reserve_exposure(&mut self, symbol: &str, amount: Dec, expected_version: u64) -> (r:
        Result<ReservationToken, ReservationError>)
        requires
            old(self).state().wf(),
            iabs(old(self).state().portfolio.cash.units()) + reserved_magnitude(
                old(self).state().reserved(),
            ) + iabs(amount.units()) + (old(self).state().reserved().len() + 2) * one_units()
                <= max_units(),
        ensures
            final(self).state().wf(),
            final(self).staleness() == old(self).staleness(),
            final(self).state().version == old(self).state().version,
            final(self).state().portfolio == old(self).state().portfolio,
            final(self).state().timestamp == old(self).state().timestamp,
            expected_version != old(self).state().version ==> r == Err::<
                ReservationToken,
                ReservationError,
            >(
                ReservationError::VersionConflict {
                    expected: expected_version,
                    actual: old(self).state().version,
                },
            ) && final(self).state().reserved() == old(self).state().reserved(),
            ({
                let available = decimal_difference(
                    old(self).state().portfolio.cash@,
                    reserved_total(old(self).state().reserved()),
                );
                expected_version == old(self).state().version ==> if units_of(available)
                    < amount.units() {
                    r matches Err(
                        ReservationError::InsufficientFunds { needed, available: a, reserved: t },
                    ) && needed == amount && a@ == available && t@ == reserved_total(
                        old(self).state().reserved(),
                    ) && final(self).state().reserved() == old(self).state().reserved()
                } else {
                    r matches Ok(token) && token.symbol@ == symbol@ && token.amount == amount
                        && final(self).state().reserved() == without_reservation(
                        old(self).state().reserved(),
                        token.id@,
                    ).push((token.id@, amount@))
                }
            }),
    {
        if self.current_state.version != expected_version {
            return Err(
                ReservationError::VersionConflict {
                    expected: expected_version,
                    actual: self.current_state.version,
                },
            );
        }
        let available = self.current_state.available_cash();
        if available.lt(&amount) {
            let reserved = self.current_state.total_reserved();
            return Err(ReservationError::InsufficientFunds { needed: amount, available, reserved });
        }
        let token = ReservationToken::new(symbol, amount);
        let id = token.id.clone();
        self.remove_reservation(id.as_str());
        let ghost before = self.current_state.reserved();
        self.current_state.reserved_exposure.push(Reservation { id, amount });
        proof {
            let after = self.current_state.reserved();
            assert(after =~= before.push((token.id@, amount@)));
            lemma_filter_fresh(before, token.id@);
            lemma_magnitude_filter(old(self).state().reserved(), token.id@);
            lemma_push_unique(before, (token.id@, amount@));
            assert(after.drop_last() =~= before);
            assert(reserved_magnitude(after.drop_last()) == reserved_magnitude(before));
        }
        Ok(token)
    }

    /// Remove the reservation with identifier `id`, if any; the others keep their
    /// order.
    fn remove_reservation(&mut self, id: &str)
        requires
            old(self).state().wf(),
        ensures
            final(self).state().reserved() == without_reservation(old(self).state().reserved(), id@),
            final(self).state().version == old(self).state().version,
            final(self).state().portfolio == old(self).state().portfolio,
            final(self).state().timestamp == old(self).state().timestamp,
            final(self).staleness() == old(self).staleness(),
            final(self).state().wf(),
    {
        let mut i: usize = 0;
        let ghost s0 = self.current_state.reserved();
        while i < self.current_state.reserved_exposure.len()
            invariant
                i <= self.current_state.reserved_exposure.len(),
                s0 == old(self).state().reserved(),
                old(self).state().wf(),
                self.current_state.version == old(self).state().version,
                self.current_state.portfolio == old(self).state().portfolio,
                self.current_state.timestamp == old(self).state().timestamp,
                self.max_staleness_ms == old(self).staleness(),
                forall|j: int| 0 <= j < i ==> (#[trigger] self.current_state.reserved()[j]).0 != id@,
                self.current_state.reserved() == s0,
            decreases self.current_state.reserved_exposure.len() - i,
        {
            if str_eq(self.current_state.reserved_exposure[i].id.as_str(), id) {
                let ghost before = self.current_state.reserved();
                self.current_state.reserved_exposure.remove(i);
                proof {
                    let after = self.current_state.reserved();
                    assert(after =~= before.remove(i as int));
                    lemma_remove_is_filter(before, i as int, id@);
                    lemma_magnitude_filter(before, id@);
                    lemma_filter_unique(before, id@);
                }
                return;
            }
            i = i + 1;
        }
        proof {
            lemma_filter_absent(s0, id@);
        }
    }

    /// Release a reservation (trade completed or cancelled). A token whose
    /// reservation no longer exists changes nothing.
    pub fn release_reservation(&mut self, token: ReservationToken)
        requires
            old(self).state().wf(),
        ensures
            final(self).state().reserved() == without_reservation(
                old(self).state().reserved(),
                token.id@,
            ),
            !has_reservation(old(self).state().reserved(), token.id@) ==> final(self).state().reserved()
                == old(self).state().reserved(),
            final(self).state().version == old(self).state().version,
            final(self).state().portfolio == old(self).state().portfolio,
            final(self).state().timestamp == old(self).state().timestamp,
            final(self).staleness() == old(self).staleness(),
            final(self).state().wf(),
    {
        self.remove_reservation(token.id.as_str());
        proof {
            if !has_reservation(old(self).state().reserved(), token.id@) {
                assert forall|j: int| 0 <= j < old(self).state().reserved().len() implies (
                #[trigger] old(self).state().reserved()[j]).0 != token.id@ by {
                    if old(self).state().reserved()[j].0 == token.id@ {
                        assert(has_reservation(old(self).state().reserved(), token.id@));
                    }
                }
                lemma_filter_absent(old(self).state().reserved(), token.id@);
            }
        }
    }

    /// The total reserved amount.
    pub fn get_total_reserved(&self) -> (r: Dec)
        requires
            self.state().wf(),
        ensures
            r@ == reserved_total(self.state().reserved()),
    {
        self.current_state.total_reserved()
    }
}

/// Filtering out an identifier that does not occur changes nothing.
proof fn lemma_filter_absent(s: Seq<(Seq<char>, (int, nat))>, id: Seq<char>)
    requires
        forall|j: int| 0 <= j < s.len() ==> (#[trigger] s[j]).0 != id,
    ensures
        without_reservation(s, id) == s,
    decreases s.len(),
{
    reveal(Seq::filter);
    if s.len() > 0 {
        lemma_filter_absent(s.drop_last(), id);
    }
    assert(without_reservation(s, id) =~= s);
}

/// After filtering, an identifier no longer occurs.
proof fn lemma_filter_fresh(s: Seq<(Seq<char>, (int, nat))>, id: Seq<char>)
    ensures
        forall|j: int|
            0 <= j < without_reservation(s, id).len() ==> (#[trigger] without_reservation(
                s,
                id,
            )[j]).0 != id,
{
    assert forall|j: int|
        0 <= j < without_reservation(s, id).len() implies (#[trigger] without_reservation(
        s,
        id,
    )[j]).0 != id by {
        s.lemma_filter_pred(other_than(id), j);
    }
}

/// Removing the only entry with an identifier is filtering it out.
proof fn lemma_remove_is_filter(s: Seq<(Seq<char>, (int, nat))>, i: int, id: Seq<char>)
    requires
        0 <= i < s.len(),
        s[i].0 == id,
        ids_unique(s),
    ensures
        s.remove(i) == without_reservation(s, id),
    decreases s.len(),
{
    reveal(Seq::filter);
    if i == s.len() - 1 {
        lemma_filter_absent(s.drop_last(), id);
        assert(s.remove(i) =~= s.drop_last());
    } else {
        let t = s.drop_last();
        assert(ids_unique(t));
        lemma_remove_is_filter(t, i, id);
        assert(s.last().0 != id);
        assert(s.remove(i) =~= t.remove(i).push(s.last()));
    }
}

/// Filtering keeps identifiers distinct.
proof fn lemma_filter_unique(s: Seq<(Seq<char>, (int, nat))>, id: Seq<char>)
    requires
        ids_unique(s),
    ensures
        ids_unique(without_reservation(s, id)),
        without_reservation(s, id).len() <= s.len(),
    decreases s.len(),
{
    reveal(Seq::filter);
    if s.len() > 0 {
        let t = s.drop_last();
        assert(ids_unique(t));
        lemma_filter_unique(t, id);
        let ft = without_reservation(t, id);
        if s.last().0 != id {
            assert forall|j: int| 0 <= j < ft.len() implies (#[trigger] ft[j]).0 != s.last().0 by {
                assert(ft.contains(ft[j]));
                t.lemma_filter_contains_rev(other_than(id), ft[j]);
                let k = choose|k: int| 0 <= k < t.len() && t[k] == ft[j];
                assert(s[k] == t[k]);
            }
            lemma_push_unique(ft, s.last());
        }
    }
}

/// Pushing an entry with a fresh identifier keeps identifiers distinct.
proof fn lemma_push_unique(s: Seq<(Seq<char>, (int, nat))>, e: (Seq<char>, (int, nat)))
    requires
        ids_unique(s),
        forall|j: int| 0 <= j < s.len() ==> (#[trigger] s[j]).0 != e.0,
    ensures
        ids_unique(s.push(e)),
{
    let t = s.push(e);
    assert forall|i: int, j: int|
        0 <= i < t.len() && 0 <= j < t.len() && i != j implies (#[trigger] t[i]).0 != (
        #[trigger] t[j]).0 by {
        if i < s.len() && j < s.len() {
            assert(t[i] == s[i] && t[j] == s[j]);
        }
    }
}

/// Filtering does not increase the total magnitude or the count.
proof fn lemma_magnitude_filter(s: Seq<(Seq<char>, (int, nat))>, id: Seq<char>)
    ensures
        reserved_magnitude(without_reservation(s, id)) <= reserved_magnitude(s),
        without_reservation(s, id).len() <= s.len(),
    decreases s.len(),
{
    reveal(Seq::filter);
    if s.len() > 0 {
        lemma_magnitude_filter(s.drop_last(), id);
        let ft = without_reservation(s.drop_last(), id);
        if s.last().0 != id {
            assert(without_reservation(s, id) == ft.push(s.last()));
            assert(ft.push(s.last()).drop_last() =~= ft);
        }
    }
}

/// Releasing a reservation undoes it: after reserving `amount` under an id that
/// was not in use and releasing that id, the reservations are as before.
pub proof fn lemma_release_undoes_reserve(
    reserved: Seq<(Seq<char>, (int, nat))>,
    id: Seq<char>,
    amount: (int, nat),
)
    requires
        !has_reservation(reserved, id),
    ensures
        without_reservation(without_reservation(reserved, id).push((id, amount)), id) == reserved,
{
    assert forall|j: int| 0 <= j < reserved.len() implies (#[trigger] reserved[j]).0 != id by {
        if reserved[j].0 == id {
            assert(has_reservation(reserved, id));
        }
    }
    lemma_filter_absent(reserved, id);
    reserved.lemma_filter_push((id, amount), other_than(id));
}

/// Law: the total reserved grows by the reserved amount, and releasing gives the
/// total back. After a reservation of `amount` under an identifier not in use, the
/// total is the former total plus `amount`; after releasing it, the former total.
pub proof fn lemma_reservation_totals(
    reserved: Seq<(Seq<char>, (int, nat))>,
    id: Seq<char>,
    amount: (int, nat),
)
    requires
        !has_reservation(reserved, id),
    ensures
        reserved_total(without_reservation(reserved, id).push((id, amount))) == decimal_sum(
            reserved_total(reserved),
            amount,
        ),
        reserved_total(
            without_reservation(without_reservation(reserved, id).push((id, amount)), id),
        ) == reserved_total(reserved),
{
    lemma_release_undoes_reserve(reserved, id, amount);
    assert forall|j: int| 0 <= j < reserved.len() implies (#[trigger] reserved[j]).0 != id by {
        if reserved[j].0 == id {
            assert(has_reservation(reserved, id));
        }
    }
    lemma_filter_absent(reserved, id);
    let pushed = without_reservation(reserved, id).push((id, amount));
    assert(pushed.drop_last() =~= reserved);
}

} // verus!
