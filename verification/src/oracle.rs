use vstd::prelude::*;

use crate::address::{addresses_view, contains_address, Address};

verus! {

/// Why the oracle refused a submission, a confirmation or a lookup.
#[derive(Clone, Copy, Debug, PartialEq, Eq, Structural)]
pub enum OracleError {
    /// The caller is not one of the configured oracles.
    OracleUnauthorized,
    /// A result for this match was already submitted.
    AlreadySubmitted,
    /// The caller already confirmed this match's result.
    AlreadyConfirmed,
    /// No result was submitted for this match.
    ResultNotFound,
    /// The match's result is already final.
    AlreadyFinalized,
    /// The submission time lies outside the match's window.
    WindowViolation,
}

/// `initialize` was called on an oracle that already has its oracle list.
#[derive(Clone, Copy, Debug, PartialEq, Eq, Structural)]
pub struct AlreadyInitialized;

/// The result of one match as the oracles report it.
#[derive(Clone, Copy, Debug, PartialEq, Eq, Structural)]
pub struct MatchResult {
    pub match_id: u64,
    pub home_score: u32,
    pub away_score: u32,
    pub started_at: u64,
    pub finished_at: u64,
    pub finalized: bool,
}

/// What the oracle stores for one match: its result, the oracle that
/// submitted it, and the oracles that confirmed it so far, the submitter
/// first.
#[derive(Debug)]
pub struct MatchRecord {
    pub result: MatchResult,
    pub submitter: Address,
    pub confirmations: Vec<Address>,
}

/// A match record with its addresses taken by their keys.
pub struct MatchEntry {
    pub result: MatchResult,
    pub submitter: Seq<char>,
    pub confirmations: Seq<Seq<char>>,
}

/// The view of one stored match record.
pub open spec fn entry_of(r: MatchRecord) -> MatchEntry {
    MatchEntry {
        result: r.result,
        submitter: r.submitter@,
        confirmations: addresses_view(r.confirmations@),
    }
}

/// How many confirmations make a result final when `oracle_count` oracles
/// are configured: two, or all of them when there are fewer than two.
pub open spec fn threshold(oracle_count: nat) -> nat {
    if oracle_count >= 2 {
        2
    } else {
        oracle_count
    }
}

/// What holds of every recorded match, given the configured oracles: at least
/// one confirmation, the first being the submitter's; no oracle confirms
/// twice; only oracles confirm; and the result is final exactly when the
/// confirmations reach the threshold.
pub open spec fn entry_ok(oracles: Seq<Seq<char>>, e: MatchEntry) -> bool {
    &&& e.confirmations.len() > 0
    &&& e.confirmations[0] == e.submitter
    &&& e.confirmations.no_duplicates()
    &&& forall|k: int| 0 <= k < e.confirmations.len() ==> oracles.contains(#[trigger] e.confirmations[k])
    &&& (e.result.finalized <==> e.confirmations.len() >= threshold(oracles.len()))
}

/// The entries of `old` are all in `new`, with the same scores, window and
/// match id, and a final result stays final.
pub open spec fn results_preserved(old: Map<u64, MatchEntry>, new: Map<u64, MatchEntry>) -> bool {
    forall|id: u64|
        #[trigger] old.dom().contains(id) ==> {
            &&& new.dom().contains(id)
            &&& new[id].result.match_id == old[id].result.match_id
            &&& new[id].result.home_score == old[id].result.home_score
            &&& new[id].result.away_score == old[id].result.away_score
            &&& new[id].result.started_at == old[id].result.started_at
            &&& new[id].result.finished_at == old[id].result.finished_at
            &&& (old[id].result.finalized ==> new[id].result.finalized)
        }
}

/// No two records share a match id.
pub open spec fn ids_unique(s: Seq<MatchRecord>) -> bool {
    forall|i: int, j: int|
        #![trigger s[i], s[j]]
        0 <= i < s.len() && 0 <= j < s.len() && i != j ==> s[i].result.match_id != s[j].result.match_id
}

/// Some record has match id `id`.
pub open spec fn has_id(s: Seq<MatchRecord>, id: u64) -> bool {
    exists|i: int| 0 <= i < s.len() && #[trigger] s[i].result.match_id == id
}

/// The records by match id.
pub open spec fn records_map(s: Seq<MatchRecord>) -> Map<u64, MatchEntry> {
    Map::new(
        |id: u64| has_id(s, id),
        |id: u64| entry_of(s[choose|i: int| 0 <= i < s.len() && #[trigger] s[i].result.match_id == id]),
    )
}

proof fn lemma_records_map_at(s: Seq<MatchRecord>, i: int)
    requires
        ids_unique(s),
        0 <= i < s.len(),
    ensures
        records_map(s).dom().contains(s[i].result.match_id),
        records_map(s)[s[i].result.match_id] == entry_of(s[i]),
{
    let id = s[i].result.match_id;
    assert(has_id(s, id));
    let j = choose|j: int| 0 <= j < s.len() && #[trigger] s[j].result.match_id == id;
    assert(j == i);
}

proof fn lemma_records_map_push(s: Seq<MatchRecord>, r: MatchRecord)
    requires
        ids_unique(s),
        !records_map(s).dom().contains(r.result.match_id),
    ensures
        ids_unique(s.push(r)),
        records_map(s.push(r)) =~= records_map(s).insert(r.result.match_id, entry_of(r)),
{
    let t = s.push(r);
    assert forall|i: int| 0 <= i < s.len() implies #[trigger] s[i].result.match_id != r.result.match_id by {
        if s[i].result.match_id == r.result.match_id {
            assert(has_id(s, r.result.match_id));
        }
    }
    assert(ids_unique(t)) by {
        assert forall|i: int, j: int|
            0 <= i < t.len() && 0 <= j < t.len() && i != j implies #[trigger] t[i].result.match_id
            != #[trigger] t[j].result.match_id by {
            if i < s.len() && j < s.len() {
                assert(t[i] == s[i] && t[j] == s[j]);
            } else if i < s.len() {
                assert(t[i] == s[i]);
            } else {
                assert(t[j] == s[j]);
            }
        }
    }
    let m = records_map(s).insert(r.result.match_id, entry_of(r));
    assert forall|id: u64| #[trigger] m.dom().contains(id) <==> records_map(t).dom().contains(id) by {
        if has_id(s, id) {
            let i = choose|i: int| 0 <= i < s.len() && #[trigger] s[i].result.match_id == id;
            assert(t[i] == s[i]);
        }
        if id == r.result.match_id {
            assert(t[s.len() as int] == r);
        }
        if has_id(t, id) && id != r.result.match_id {
            let i = choose|i: int| 0 <= i < t.len() && #[trigger] t[i].result.match_id == id;
            assert(i < s.len());
            assert(s[i] == t[i]);
        }
    }
    assert forall|id: u64| #[trigger] m.dom().contains(id) implies m[id] == records_map(t)[id] by {
        if id == r.result.match_id {
            lemma_records_map_at(t, s.len() as int);
        } else {
            let i = choose|i: int| 0 <= i < s.len() && #[trigger] s[i].result.match_id == id;
            lemma_records_map_at(s, i);
            assert(t[i] == s[i]);
            lemma_records_map_at(t, i);
        }
    }
}

proof fn lemma_records_map_update(s: Seq<MatchRecord>, i: int, r: MatchRecord)
    requires
        ids_unique(s),
        0 <= i < s.len(),
        r.result.match_id == s[i].result.match_id,
    ensures
        ids_unique(s.update(i, r)),
        records_map(s.update(i, r)) =~= records_map(s).insert(r.result.match_id, entry_of(r)),
{
    let t = s.update(i, r);
    assert(ids_unique(t)) by {
        assert forall|a: int, b: int|
            0 <= a < t.len() && 0 <= b < t.len() && a != b implies #[trigger] t[a].result.match_id
            != #[trigger] t[b].result.match_id by {
            assert(t[a].result.match_id == s[a].result.match_id);
            assert(t[b].result.match_id == s[b].result.match_id);
        }
    }
    let m = records_map(s).insert(r.result.match_id, entry_of(r));
    assert forall|id: u64| #[trigger] m.dom().contains(id) <==> records_map(t).dom().contains(id) by {
        if has_id(s, id) {
            let k = choose|k: int| 0 <= k < s.len() && #[trigger] s[k].result.match_id == id;
            assert(t[k].result.match_id == id);
        }
        if has_id(t, id) {
            let k = choose|k: int| 0 <= k < t.len() && #[trigger] t[k].result.match_id == id;
            assert(s[k].result.match_id == id);
        }
        if id == r.result.match_id {
            assert(t[i] == r);
        }
    }
    assert forall|id: u64| #[trigger] m.dom().contains(id) implies m[id] == records_map(t)[id] by {
        if id == r.result.match_id {
            lemma_records_map_at(t, i);
        } else {
            let k = choose|k: int| 0 <= k < s.len() && #[trigger] s[k].result.match_id == id;
            lemma_records_map_at(s, k);
            assert(k != i);
            assert(t[k] == s[k]);
            lemma_records_map_at(t, k);
        }
    }
}

/// The keys of an oracle list that may be unset.
pub open spec fn oracles_of(oracles: Option<Vec<Address>>) -> Seq<Seq<char>> {
    match oracles {
        Some(v) => addresses_view(v@),
        None => Seq::empty(),
    }
}

/// Stored oracle state that the oracle's operations can work on: unique
/// match ids, every record consistent with the oracle list, and no record
/// before the oracle list is set.
pub open spec fn parts_ok(oracles: Option<Vec<Address>>, records: Seq<MatchRecord>) -> bool {
    &&& ids_unique(records)
    &&& forall|i: int| 0 <= i < records.len() ==> entry_ok(oracles_of(oracles), #[trigger] entry_of(records[i]))
    &&& (oracles is None ==> records.len() == 0)
}

/// The match-result oracle.
///
/// A configured list of oracles reports match results: one oracle submits a
/// result within the match's window, and the result becomes final once two
/// oracles (or every oracle, when fewer than two are configured) have
/// confirmed it; the submitter counts as the first confirmation.
pub struct OracleContract {
    oracles: Option<Vec<Address>>,
    records: Vec<MatchRecord>,
}

impl OracleContract {
    /// The oracle's internal consistency: match ids are unique, and every
    /// record satisfies `entry_ok` for the configured oracles.
    pub closed spec fn wf(self) -> bool {
        parts_ok(self.oracles, self.records@)
    }

    /// Whether the oracle list has been set.
    pub closed spec fn initialized(self) -> bool {
        self.oracles is Some
    }

    /// The keys of the configured oracles (empty before initialization).
    pub closed spec fn oracles_view(self) -> Seq<Seq<char>> {
        oracles_of(self.oracles)
    }

    /// The recorded matches, by match id.
    pub closed spec fn entries(self) -> Map<u64, MatchEntry> {
        records_map(self.records@)
    }

    /// Whether `a` is one of the configured oracles.
    pub open spec fn is_oracle(self, a: Seq<char>) -> bool {
        self.oracles_view().contains(a)
    }

    /// An oracle with no oracle list and no results.
    pub fn new() -> (c: OracleContract)
        ensures
            c.wf(),
            !c.initialized(),
            c.oracles_view() == Seq::<Seq<char>>::empty(),
            c.entries() == Map::<u64, MatchEntry>::empty(),
    {
        let c = OracleContract { oracles: None, records: Vec::new() };
        assert(c.entries() =~= Map::<u64, MatchEntry>::empty());
        c
    }

    /// Sets the list of authorised oracles; this can be done once only.
    pub fn initialize(&mut self, oracles: Vec<Address>) -> (r: Result<(), AlreadyInitialized>)
        requires
            old(self).wf(),
        ensures
            final(self).wf(),
            old(self).initialized() ==> r == Err::<(), AlreadyInitialized>(AlreadyInitialized) && *final(self) == *old(self),
            !old(self).initialized() ==> {
                &&& r is Ok
                &&& final(self).initialized()
                &&& final(self).oracles_view() == addresses_view(oracles@)
                &&& final(self).entries() == old(self).entries()
            },
    {
        if self.oracles.is_some() {
            return Err(AlreadyInitialized);
        }
        self.oracles = Some(oracles);
        Ok(())
    }

    fn oracle_count(&self) -> (n: usize)
        ensures
            n == self.oracles_view().len(),
    {
        match &self.oracles {
            Some(v) => v.len(),
            None => 0,
        }
    }

    fn require_oracle(&self, caller: &Address) -> (r: Result<(), OracleError>)
        ensures
            r is Ok <==> self.is_oracle(caller@),
            r is Err ==> r == Err::<(), OracleError>(OracleError::OracleUnauthorized),
    {
        match &self.oracles {
            Some(v) => {
                if contains_address(v, caller) {
                    Ok(())
                } else {
                    Err(OracleError::OracleUnauthorized)
                }
            },
            None => Err(OracleError::OracleUnauthorized),
        }
    }

    fn find_record(&self, match_id: u64) -> (r: Option<usize>)
        requires
            self.wf(),
        ensures
            match r {
                Some(i) => {
                    &&& i < self.records.len()
                    &&& self.records@[i as int].result.match_id == match_id
                    &&& self.entries().dom().contains(match_id)
                    &&& self.entries()[match_id] == entry_of(self.records@[i as int])
                },
                None => !self.entries().dom().contains(match_id),
            },
    {
        let n = self.records.len();
        for i in 0..n
            invariant
                n == self.records.len(),
                self.wf(),
                forall|k: int| 0 <= k < i ==> #[trigger] self.records@[k].result.match_id != match_id,
        {
            if self.records[i].result.match_id == match_id {
                proof {
                    lemma_records_map_at(self.records@, i as int);
                }
                return Some(i);
            }
        }
        None
    }

    /// Records a match result submitted by `caller` at ledger time `now`.
    ///
    /// The caller must be an oracle, `now` must lie within
    /// `[started_at, finished_at]`, and no result may exist yet for the
    /// match; the checks are made in that order. The submitter is the first
    /// confirmation, so the result is final at once when a single oracle is
    /// configured.
    pub fn submit_result(
        &mut self,
        caller: Address,
        match_id: u64,
        home_score: u32,
        away_score: u32,
        started_at: u64,
        finished_at: u64,
        now: u64,
    ) -> (r: Result<(), OracleError>)
        requires
            old(self).wf(),
        ensures
            final(self).wf(),
            !old(self).is_oracle(caller@) ==> r == Err::<(), OracleError>(OracleError::OracleUnauthorized),
            old(self).is_oracle(caller@) && (now < started_at || now > finished_at) ==> r == Err::<
                (),
                OracleError,
            >(OracleError::WindowViolation),
            old(self).is_oracle(caller@) && started_at <= now <= finished_at && old(
                self,
            ).entries().dom().contains(match_id) ==> r == Err::<(), OracleError>(
                OracleError::AlreadySubmitted,
            ),
            r is Ok <==> (old(self).is_oracle(caller@) && started_at <= now <= finished_at && !old(
                self,
            ).entries().dom().contains(match_id)),
            r is Err ==> *final(self) == *old(self),
            r is Ok ==> {
                &&& old(self).is_oracle(caller@)
                &&& started_at <= now <= finished_at
                &&& !old(self).entries().dom().contains(match_id)
                &&& final(self).oracles_view() == old(self).oracles_view()
                &&& final(self).initialized() == old(self).initialized()
                &&& final(self).entries()[match_id].result.finalized == (old(self).oracles_view().len() < 2)
                &&& final(self).entries() == old(self).entries().insert(
                    match_id,
                    MatchEntry {
                        result: MatchResult {
                            match_id,
                            home_score,
                            away_score,
                            started_at,
                            finished_at,
                            finalized: 1 >= threshold(old(self).oracles_view().len()),
                        },
                        submitter: caller@,
                        confirmations: seq![caller@],
                    },
                )
            },
            results_preserved(old(self).entries(), final(self).entries()),
    {
        let auth = self.require_oracle(&caller);
        if auth.is_err() {
            return Err(OracleError::OracleUnauthorized);
        }
        if now < started_at || now > finished_at {
            return Err(OracleError::WindowViolation);
        }
        if self.find_record(match_id).is_some() {
            return Err(OracleError::AlreadySubmitted);
        }
        let result = MatchResult {
            match_id,
            home_score,
            away_score,
            started_at,
            finished_at,
            finalized: false,
        };
        let mut confirmations: Vec<Address> = Vec::new();
        confirmations.push(caller.clone());
        let mut record = MatchRecord { result, submitter: caller, confirmations };
        let oracle_count = self.oracle_count();
        try_finalize(&mut record, oracle_count);
        proof {
            assert(addresses_view(record.confirmations@) =~= seq![caller@]);
            lemma_records_map_push(self.records@, record);
        }
        self.records.push(record);
        proof {
            let e = entry_of(record);
            let o = self.oracles_view();
            assert(e.confirmations.no_duplicates());
            assert(entry_ok(o, e));
            assert forall|i: int| 0 <= i < self.records@.len() implies entry_ok(o, #[trigger] entry_of(self.records@[i])) by {
                if i < old(self).records@.len() {
                    assert(self.records@[i] == old(self).records@[i]);
                }
            }
        }
        Ok(())
    }

    /// Adds `caller`'s confirmation to the result of `match_id`.
    ///
    /// The caller must be an oracle, a result must exist for the match, it
    /// must not be final yet, and the caller must not have confirmed it
    /// already; the checks are made in that order. Since a result that is
    /// not final holds fewer confirmations than the threshold, which is at
    /// most two, an accepted confirmation always makes it final.
    pub fn confirm_result(&mut self, caller: Address, match_id: u64) -> (r: Result<(), OracleError>)
        requires
            old(self).wf(),
        ensures
            final(self).wf(),
            !old(self).is_oracle(caller@) ==> r == Err::<(), OracleError>(OracleError::OracleUnauthorized),
            old(self).is_oracle(caller@) && !old(self).entries().dom().contains(match_id) ==> r == Err::<
                (),
                OracleError,
            >(OracleError::ResultNotFound),
            old(self).is_oracle(caller@) && old(self).entries().dom().contains(match_id) && old(
                self,
            ).entries()[match_id].result.finalized ==> r == Err::<(), OracleError>(
                OracleError::AlreadyFinalized,
            ),
            old(self).is_oracle(caller@) && old(self).entries().dom().contains(match_id) && !old(
                self,
            ).entries()[match_id].result.finalized && old(self).entries()[match_id].confirmations.contains(
                caller@,
            ) ==> r == Err::<(), OracleError>(OracleError::AlreadyConfirmed),
            r is Ok <==> (old(self).is_oracle(caller@) && old(self).entries().dom().contains(match_id)
                && !old(self).entries()[match_id].result.finalized && !old(
                self,
            ).entries()[match_id].confirmations.contains(caller@)),
            r is Err ==> *final(self) == *old(self),
            r is Ok ==> {
                let e = old(self).entries()[match_id];
                &&& old(self).is_oracle(caller@)
                &&& old(self).entries().dom().contains(match_id)
                &&& !e.result.finalized
                &&& !e.confirmations.contains(caller@)
                &&& final(self).oracles_view() == old(self).oracles_view()
                &&& final(self).initialized() == old(self).initialized()
                &&& final(self).entries() == old(self).entries().insert(
                    match_id,
                    MatchEntry {
                        result: MatchResult { finalized: true, ..e.result },
                        submitter: e.submitter,
                        confirmations: e.confirmations.push(caller@),
                    },
                )
            },
            results_preserved(old(self).entries(), final(self).entries()),
    {
        let auth = self.require_oracle(&caller);
        if auth.is_err() {
            return Err(OracleError::OracleUnauthorized);
        }
        let i = match self.find_record(match_id) {
            Some(i) => i,
            None => {
                return Err(OracleError::ResultNotFound);
            },
        };
        if self.records[i].result.finalized {
            return Err(OracleError::AlreadyFinalized);
        }
        if contains_address(&self.records[i].confirmations, &caller) {
            return Err(OracleError::AlreadyConfirmed);
        }
        let ghost old_records = self.records@;
        let ghost old_entry = entry_of(old_records[i as int]);
        let oracle_count = self.oracle_count();
        let mut record = self.records.remove(i);
        let ghost caller_key = caller@;
        record.confirmations.push(caller);
        proof {
            assert(addresses_view(record.confirmations@) =~= old_entry.confirmations.push(caller_key));
            assert(parts_ok(self.oracles, old_records));
            assert(entry_ok(oracles_of(self.oracles), old_entry));
        }
        try_finalize(&mut record, oracle_count);
        self.records.insert(i, record);
        proof {
            assert(self.records@ =~= old_records.update(i as int, record));
            lemma_records_map_update(old_records, i as int, record);
            let o = self.oracles_view();
            let e = entry_of(record);
            assert(e.confirmations == old_entry.confirmations.push(caller_key));
            assert(e.confirmations.no_duplicates()) by {
                assert forall|a: int, b: int|
                    0 <= a < e.confirmations.len() && 0 <= b < e.confirmations.len() && a != b implies e.confirmations[a]
                    != e.confirmations[b] by {
                    if a < old_entry.confirmations.len() && b < old_entry.confirmations.len() {
                    } else if a < old_entry.confirmations.len() {
                        assert(old_entry.confirmations[a] != caller_key);
                    } else {
                        assert(old_entry.confirmations[b] != caller_key);
                    }
                }
            }
            assert forall|k: int| 0 <= k < e.confirmations.len() implies o.contains(#[trigger] e.confirmations[k]) by {
                if k < old_entry.confirmations.len() {
                    assert(e.confirmations[k] == old_entry.confirmations[k]);
                }
            }
            assert(entry_ok(o, e));
            assert forall|k: int| 0 <= k < self.records@.len() implies entry_ok(o, #[trigger] entry_of(self.records@[k])) by {
                if k != i {
                    assert(self.records@[k] == old_records[k]);
                }
            }
            assert(e.result == MatchResult { finalized: true, ..old_entry.result });
        }
        Ok(())
    }

    /// The result recorded for `match_id`.
    pub fn get_result(&self, match_id: u64) -> (r: Result<MatchResult, OracleError>)
        requires
            self.wf(),
        ensures
            self.entries().dom().contains(match_id) ==> r == Ok::<MatchResult, OracleError>(
                self.entries()[match_id].result,
            ),
            !self.entries().dom().contains(match_id) ==> r == Err::<MatchResult, OracleError>(
                OracleError::ResultNotFound,
            ),
    {
        match self.find_record(match_id) {
            Some(i) => Ok(self.records[i].result),
            None => Err(OracleError::ResultNotFound),
        }
    }

    /// Whether the result of `match_id` exists and is final.
    pub fn is_finalized(&self, match_id: u64) -> (b: bool)
        requires
            self.wf(),
        ensures
            b == (self.entries().dom().contains(match_id) && self.entries()[match_id].result.finalized),
    {
        match self.find_record(match_id) {
            Some(i) => self.records[i].result.finalized,
            None => false,
        }
    }
}

/// Marks the record's result final when its confirmations reach the
/// threshold for `oracle_count` oracles.
fn try_finalize(record: &mut MatchRecord, oracle_count: usize)
    ensures
        final(record).submitter == old(record).submitter,
        final(record).confirmations == old(record).confirmations,
        final(record).result.finalized == (old(record).result.finalized || old(record).confirmations.len() >= 2
            || old(record).confirmations.len() >= oracle_count),
        final(record).result == (MatchResult {
            finalized: old(record).result.finalized || old(record).confirmations.len() >= threshold(
                oracle_count as nat,
            ),
            ..old(record).result
        }),
{
    let threshold: usize = if oracle_count >= 2 {
        2
    } else {
        oracle_count
    };
    if record.confirmations.len() >= threshold {
        record.result.finalized = true;
    }
}

/// Whether `record` is consistent with the oracle list `oracles`, as
/// `entry_ok` states it.
pub fn record_is_consistent(oracles: &Vec<Address>, record: &MatchRecord) -> (b: bool)
    ensures
        b == entry_ok(addresses_view(oracles@), entry_of(*record)),
        b ==> (record.result.finalized <==> (record.confirmations.len() >= 2 || record.confirmations.len()
            >= oracles.len())),
{
    let confs = &record.confirmations;
    let n = confs.len();
    let ghost e = entry_of(*record);
    let ghost o = addresses_view(oracles@);
    assert(e.confirmations.len() == n);
    assert(forall|k: int| 0 <= k < n ==> #[trigger] e.confirmations[k] == confs@[k]@);
    if n == 0 {
        return false;
    }
    if !confs[0].same_as(&record.submitter) {
        return false;
    }
    for i in 0..n
        invariant
            n == confs.len(),
            e == entry_of(*record),
            o == addresses_view(oracles@),
            e.confirmations.len() == n,
            forall|k: int| 0 <= k < n ==> #[trigger] e.confirmations[k] == confs@[k]@,
            forall|k: int| 0 <= k < i ==> o.contains(#[trigger] e.confirmations[k]),
    {
        if !contains_address(oracles, &confs[i]) {
            assert(!o.contains(e.confirmations[i as int]));
            return false;
        }
    }
    for i in 0..n
        invariant
            n == confs.len(),
            e == entry_of(*record),
            e.confirmations.len() == n,
            forall|k: int| 0 <= k < n ==> #[trigger] e.confirmations[k] == confs@[k]@,
            forall|a: int, b: int|
                #![trigger e.confirmations[a], e.confirmations[b]]
                0 <= a < i && 0 <= b < n && a != b ==> e.confirmations[a] != e.confirmations[b],
    {
        for j in 0..n
            invariant
                n == confs.len(),
                e == entry_of(*record),
                e.confirmations.len() == n,
                forall|k: int| 0 <= k < n ==> #[trigger] e.confirmations[k] == confs@[k]@,
                0 <= i < n,
                forall|a: int, b: int|
                    #![trigger e.confirmations[a], e.confirmations[b]]
                    0 <= a < i && 0 <= b < n && a != b ==> e.confirmations[a] != e.confirmations[b],
                forall|b: int| 0 <= b < j && b != i ==> e.confirmations[i as int] != #[trigger] e.confirmations[b],
        {
            if i != j && confs[i].same_as(&confs[j]) {
                assert(e.confirmations[i as int] == e.confirmations[j as int]);
                return false;
            }
        }
    }
    let oracle_count = oracles.len();
    let threshold: usize = if oracle_count >= 2 {
        2
    } else {
        oracle_count
    };
    record.result.finalized == (n >= threshold)
}

impl OracleContract {
    /// Rebuilds the oracle from its stored parts: the oracle list, if set,
    /// and the stored match records. Gives `None` when the parts are not
    /// consistent (see `parts_ok`).
    pub fn from_parts(oracles: Option<Vec<Address>>, records: Vec<MatchRecord>) -> (r: Option<OracleContract>)
        ensures
            r is Some <==> parts_ok(oracles, records@),
            r matches Some(c) ==> {
                &&& c.wf()
                &&& c.initialized() == oracles is Some
                &&& c.oracles_view() == oracles_of(oracles)
                &&& c.entries() == records_map(records@)
            },
    {
        let n = records.len();
        for i in 0..n
            invariant
                n == records.len(),
                forall|a: int, b: int|
                    #![trigger records@[a], records@[b]]
                    0 <= a < i && 0 <= b < n && a != b ==> records@[a].result.match_id != records@[b].result.match_id,
        {
            for j in 0..n
                invariant
                    n == records.len(),
                    0 <= i < n,
                    forall|a: int, b: int|
                        #![trigger records@[a], records@[b]]
                        0 <= a < i && 0 <= b < n && a != b ==> records@[a].result.match_id != records@[b].result.match_id,
                    forall|b: int|
                        0 <= b < j && b != i ==> records@[i as int].result.match_id != #[trigger] records@[b].result.match_id,
            {
                if i != j && records[i].result.match_id == records[j].result.match_id {
                    return None;
                }
            }
        }
        match &oracles {
            Some(list) => {
                assert(oracles_of(oracles) == addresses_view(list@));
                for i in 0..n
                    invariant
                        n == records.len(),
                        oracles_of(oracles) == addresses_view(list@),
                        ids_unique(records@),
                        forall|k: int| 0 <= k < i ==> entry_ok(addresses_view(list@), #[trigger] entry_of(records@[k])),
                {
                    if !record_is_consistent(list, &records[i]) {
                        assert(!entry_ok(addresses_view(list@), entry_of(records@[i as int])));
                        return None;
                    }
                }
            },
            None => {
                if n > 0 {
                    return None;
                }
            },
        }
        Some(OracleContract { oracles, records })
    }

    /// The configured oracle list, if it is set.
    pub fn oracles(&self) -> (o: Option<&Vec<Address>>)
        ensures
            o is Some == self.initialized(),
            o matches Some(v) ==> addresses_view(v@) == self.oracles_view(),
    {
        match &self.oracles {
            Some(v) => Some(v),
            None => None,
        }
    }

    /// The stored record of `match_id`, if there is one.
    pub fn record(&self, match_id: u64) -> (r: Option<&MatchRecord>)
        requires
            self.wf(),
        ensures
            r is Some == self.entries().dom().contains(match_id),
            r matches Some(rec) ==> self.entries()[match_id] == entry_of(*rec),
    {
        match self.find_record(match_id) {
            Some(i) => Some(&self.records[i]),
            None => None,
        }
    }
}

/// What every reachable oracle state satisfies: each recorded result is
/// stored under its own match id, has at least one confirmation, the first
/// being its submitter's, is confirmed at most once by each oracle and only
/// by oracles, and is final exactly when its confirmations reach the
/// threshold (two, or every oracle when fewer than two are configured).
/// Nothing is recorded before the oracle list is set.
pub proof fn lemma_oracle_state_consistent(c: &OracleContract)
    requires
        c.wf(),
    ensures
        forall|id: u64| #[trigger] c.entries().dom().contains(id) ==> {
            &&& c.entries()[id].result.match_id == id
            &&& entry_ok(c.oracles_view(), c.entries()[id])
        },
        !c.initialized() ==> c.entries().dom().is_empty(),
{
    let s = c.records@;
    assert forall|id: u64| #[trigger] c.entries().dom().contains(id) implies {
        &&& c.entries()[id].result.match_id == id
        &&& entry_ok(c.oracles_view(), c.entries()[id])
    } by {
        let i = choose|i: int| 0 <= i < s.len() && #[trigger] s[i].result.match_id == id;
        lemma_records_map_at(s, i);
    }
    if !c.initialized() {
        assert(c.entries().dom() =~= Set::<u64>::empty());
    }
}

/// The finality threshold is two confirmations, or every configured oracle
/// when fewer than two are configured.
pub proof fn lemma_threshold_is_two_or_all(n: nat)
    ensures
        threshold(n) == (if n >= 2 {
            2
        } else {
            n
        }),
        threshold(n) <= 2,
        threshold(n) <= n,
{
}

/// The finality rule, over every reachable oracle state: a recorded result
/// is final exactly when at least two oracles, or every configured oracle,
/// have confirmed it. In particular, with two or more oracles configured a
/// single oracle's submission is never final on its own.
pub proof fn lemma_finality_rule(c: &OracleContract)
    requires
        c.wf(),
    ensures
        forall|id: u64| #[trigger] c.entries().dom().contains(id) ==> {
            let e = c.entries()[id];
            &&& (e.result.finalized <==> (e.confirmations.len() >= 2 || e.confirmations.len()
                >= c.oracles_view().len()))
            &&& (c.oracles_view().len() >= 2 && e.confirmations.len() < 2 ==> !e.result.finalized)
        },
{
    lemma_oracle_state_consistent(c);
}

} // verus!
