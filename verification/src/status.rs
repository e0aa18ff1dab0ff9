//! The status resolver: readiness, restarts and lifecycle status of a pod,
//! merged from its container statuses and its phase.

use crate::error::ReportError;
use crate::json::{views, Json, JsonValue};
use crate::text::{count_string, decimal, join, joined, texts};
use vstd::prelude::*;

verus! {

/// The status of one container, as the resolver reads it.
pub struct StatusEntry {
    pub ready: bool,
    pub restarts: int,
    pub waiting: Option<Seq<char>>,
}

/// The status of one container, extracted from the pod's status list.
#[derive(Debug, PartialEq, Eq)]
pub struct ContainerStatusEntry {
    pub ready: bool,
    pub restart_count: i64,
    pub waiting_reason: Option<String>,
}

impl View for ContainerStatusEntry {
    type V = StatusEntry;

    open spec fn view(&self) -> StatusEntry {
        StatusEntry {
            ready: self.ready,
            restarts: self.restart_count as int,
            waiting: match self.waiting_reason {
                Some(reason) => Some(reason@),
                None => None,
            },
        }
    }
}

/// The entries of a sequence of container statuses.
pub open spec fn entry_views(entries: Seq<ContainerStatusEntry>) -> Seq<StatusEntry> {
    Seq::new(entries.len(), |i: int| entries[i]@)
}

/// What one element of a pod's container-status list says, where it gives
/// an integer restart count. Readiness counts only where it is the
/// boolean `true`; the waiting reason is the string at
/// `state.waiting.reason`, if there is one.
pub open spec fn status_entry(raw: JsonValue) -> Option<StatusEntry> {
    match raw.at("restartCount"@).as_int() {
        Some(restarts) => Some(
            StatusEntry {
                ready: raw.at("ready"@).as_bool() == Some(true),
                restarts,
                waiting: raw.at("state"@).at("waiting"@).at("reason"@).as_text(),
            },
        ),
        None => None,
    }
}

/// Whether every element of a container-status list gives an integer
/// restart count.
pub open spec fn statuses_readable(raw: Seq<JsonValue>) -> bool {
    forall|i: int| 0 <= i < raw.len() ==> (#[trigger] status_entry(raw[i])) is Some
}

/// The entries of a readable container-status list, in order.
pub open spec fn status_entries(raw: Seq<JsonValue>) -> Seq<StatusEntry> {
    Seq::new(raw.len(), |i: int| status_entry(raw[i])->0)
}

/// How many entries are ready.
pub open spec fn ready_count(entries: Seq<StatusEntry>) -> nat
    decreases entries.len(),
{
    if entries.len() == 0 {
        0
    } else {
        ready_count(entries.drop_last()) + if entries.last().ready {
            1nat
        } else {
            0nat
        }
    }
}

/// The ready fraction: ready entries over all entries, as `ready/total`.
pub open spec fn ready_fraction(entries: Seq<StatusEntry>) -> Seq<char> {
    decimal(ready_count(entries) as int) + seq!['/'] + decimal(entries.len() as int)
}

/// The sum of the restart counts.
pub open spec fn restart_sum(entries: Seq<StatusEntry>) -> int
    decreases entries.len(),
{
    if entries.len() == 0 {
        0
    } else {
        restart_sum(entries.drop_last()) + entries.last().restarts
    }
}

/// Whether no restart count is negative.
pub open spec fn restarts_valid(entries: Seq<StatusEntry>) -> bool {
    forall|i: int| 0 <= i < entries.len() ==> (#[trigger] entries[i]).restarts >= 0
}

/// The total of the restart counts: their exact sum, where none is
/// negative and the sum is in the range of `i64`.
pub open spec fn restart_total(entries: Seq<StatusEntry>) -> Result<i64, ReportError> {
    if restarts_valid(entries) && restart_sum(entries) <= i64::MAX {
        Ok(restart_sum(entries) as i64)
    } else {
        Err(ReportError::MalformedInput)
    }
}

/// The waiting reasons of the entries that have one, in order.
pub open spec fn waiting_reasons(entries: Seq<StatusEntry>) -> Seq<Seq<char>>
    decreases entries.len(),
{
    if entries.len() == 0 {
        Seq::empty()
    } else {
        let earlier = waiting_reasons(entries.drop_last());
        match entries.last().waiting {
            Some(reason) => earlier.push(reason),
            None => earlier,
        }
    }
}

/// The values of `s`, each once, in the order in which they first occur.
pub open spec fn distinct<A>(s: Seq<A>) -> Seq<A>
    decreases s.len(),
{
    if s.len() == 0 {
        Seq::empty()
    } else {
        let earlier = distinct(s.drop_last());
        if earlier.contains(s.last()) {
            earlier
        } else {
            earlier.push(s.last())
        }
    }
}

/// The phase that needs no further explanation.
pub open spec fn running() -> Seq<char> {
    seq!['R', 'u', 'n', 'n', 'i', 'n', 'g']
}

/// The separator between merged waiting reasons.
pub open spec fn reason_separator() -> Seq<char> {
    seq![',', ' ']
}

/// The merged status of a pod: `Running` for a running pod, whatever its
/// containers say; else the distinct waiting reasons of its containers,
/// joined in first-seen order; else, where no container waits, the phase.
pub open spec fn merged_status(phase: Seq<char>, entries: Seq<StatusEntry>) -> Seq<char> {
    if phase == running() || waiting_reasons(entries).len() == 0 {
        phase
    } else {
        joined(distinct(waiting_reasons(entries)), reason_separator())
    }
}

/// A running pod reports `Running`, whatever waiting reasons its
/// containers give.
pub proof fn lemma_running_pod_reports_running(entries: Seq<StatusEntry>)
    ensures
        merged_status(running(), entries) == running(),
{
}

/// Deduplication keeps exactly the values that occur, each once.
pub proof fn lemma_distinct_values<A>(s: Seq<A>)
    ensures
        distinct(s).no_duplicates(),
        forall|x: A|
            #![trigger distinct(s).contains(x)]
            #![trigger s.contains(x)]
            distinct(s).contains(x) <==> s.contains(x),
        distinct(s).len() <= s.len(),
        s.len() > 0 ==> distinct(s).len() > 0,
    decreases s.len(),
{
    if s.len() > 0 {
        let earlier = distinct(s.drop_last());
        lemma_distinct_values(s.drop_last());
        assert forall|x: A| distinct(s).contains(x) <==> s.contains(x) by {
            if s.contains(x) {
                let i = choose|i: int| 0 <= i < s.len() && s[i] == x;
                if i < s.len() - 1 {
                    assert(s.drop_last()[i] == x);
                    assert(s.drop_last().contains(x));
                    assert(earlier.contains(x));
                    let k = choose|k: int| 0 <= k < earlier.len() && earlier[k] == x;
                    assert(distinct(s)[k] == x);
                } else {
                    if !earlier.contains(x) {
                        assert(distinct(s)[earlier.len() as int] == x);
                    }
                }
            }
            if distinct(s).contains(x) {
                let k = choose|k: int| 0 <= k < distinct(s).len() && distinct(s)[k] == x;
                if k < earlier.len() {
                    assert(earlier[k] == x);
                    assert(earlier.contains(x));
                    assert(s.drop_last().contains(x));
                    let i = choose|i: int| 0 <= i < s.drop_last().len() && s.drop_last()[i] == x;
                    assert(s[i] == x);
                } else {
                    assert(s[s.len() - 1] == x);
                }
            }
        }
        if earlier.contains(s.last()) {
            let k = choose|k: int| 0 <= k < earlier.len() && earlier[k] == s.last();
        }
    }
}

impl ContainerStatusEntry {
    /// Extracts the status of one container from an element of the pod's
    /// container-status list. An element without an integer restart count
    /// is malformed input.
    pub fn from_json(raw: &Json) -> (r: Result<ContainerStatusEntry, ReportError>)
        ensures
            match status_entry(raw@) {
                Some(entry) => r matches Ok(extracted) && extracted@ == entry,
                None => r == Err::<ContainerStatusEntry, ReportError>(ReportError::MalformedInput),
            },
    {
        let restarts = match raw.get("restartCount") {
            Some(value) => value.as_i64(),
            None => None,
        };
        let restart_count = match restarts {
            Some(count) => count,
            None => {
                return Err(ReportError::MalformedInput);
            },
        };
        let ready = match raw.get("ready") {
            Some(value) => match value.as_bool() {
                Some(flag) => flag,
                None => false,
            },
            None => false,
        };
        let reason = match raw.get("state") {
            Some(state) => match state.get("waiting") {
                Some(waiting) => match waiting.get("reason") {
                    Some(reason) => reason.as_str(),
                    None => None,
                },
                None => None,
            },
            None => None,
        };
        let waiting_reason = match reason {
            Some(text) => Some(text.clone()),
            None => None,
        };
        Ok(ContainerStatusEntry { ready, restart_count, waiting_reason })
    }
}

/// Extracts the statuses of all containers of a pod, in order. One
/// element without an integer restart count makes the whole list
/// malformed input.
pub fn extract_statuses(raw: &Vec<Json>) -> (r: Result<Vec<ContainerStatusEntry>, ReportError>)
    ensures
        statuses_readable(views(raw@)) ==> (r matches Ok(entries) && entry_views(entries@)
            == status_entries(views(raw@))),
        !statuses_readable(views(raw@)) ==> r == Err::<Vec<ContainerStatusEntry>, ReportError>(
            ReportError::MalformedInput,
        ),
{
    let mut entries: Vec<ContainerStatusEntry> = Vec::new();
    let mut i: usize = 0;
    while i < raw.len()
        invariant
            i <= raw.len(),
            entries.len() == i,
            forall|k: int| 0 <= k < i ==> (#[trigger] status_entry(views(raw@)[k])) is Some,
            forall|k: int|
                0 <= k < i ==> (#[trigger] entries@[k])@ == status_entry(views(raw@)[k])->0,
        decreases raw.len() - i,
    {
        assert(views(raw@)[i as int] == raw@[i as int]@);
        match ContainerStatusEntry::from_json(&raw[i]) {
            Ok(entry) => {
                entries.push(entry);
            },
            Err(_) => {
                assert(status_entry(views(raw@)[i as int]) is None);
                return Err(ReportError::MalformedInput);
            },
        }
        i += 1;
    }
    assert(entry_views(entries@) =~= status_entries(views(raw@)));
    Ok(entries)
}

/// How many containers are ready, and how many there are.
pub fn ready_counts(entries: &Vec<ContainerStatusEntry>) -> (r: (usize, usize))
    ensures
        r.0 == ready_count(entry_views(entries@)),
        r.1 == entries.len(),
        r.0 <= r.1,
{
    let mut ready: usize = 0;
    let mut i: usize = 0;
    assert(entry_views(entries@).take(0) =~= Seq::<StatusEntry>::empty());
    while i < entries.len()
        invariant
            i <= entries.len(),
            ready <= i,
            ready == ready_count(entry_views(entries@).take(i as int)),
        decreases entries.len() - i,
    {
        let ghost before = entry_views(entries@).take(i as int);
        let ghost after = entry_views(entries@).take(i + 1);
        assert(after.drop_last() =~= before);
        assert(after.last() == entries@[i as int]@);
        if entries[i].ready {
            ready += 1;
        }
        i += 1;
    }
    assert(entry_views(entries@).take(i as int) =~= entry_views(entries@));
    (ready, entries.len())
}

/// The ready fraction of a pod, as `ready/total`.
pub fn render_ready_fraction(entries: &Vec<ContainerStatusEntry>) -> (r: String)
    ensures
        r@ == ready_fraction(entry_views(entries@)),
{
    let (ready, total) = ready_counts(entries);
    proof {
        reveal_strlit("/");
    }
    let mut out = count_string(ready);
    out.append("/");
    let denominator = count_string(total);
    out.append(denominator.as_str());
    assert(out@ =~= ready_fraction(entry_views(entries@)));
    out
}

/// The sum of restart counts none of which is negative never falls when
/// entries are added.
proof fn lemma_restart_sum_grows(entries: Seq<StatusEntry>, n: int)
    requires
        restarts_valid(entries),
        0 <= n <= entries.len(),
    ensures
        0 <= restart_sum(entries.take(n)) <= restart_sum(entries),
    decreases entries.len() - n,
{
    if n == entries.len() {
        assert(entries.take(n) =~= entries);
        lemma_restart_sum_nonnegative(entries);
    } else {
        lemma_restart_sum_grows(entries, n + 1);
        assert(entries.take(n + 1).drop_last() =~= entries.take(n));
        assert(entries.take(n + 1).last() == entries[n]);
        lemma_restart_sum_nonnegative(entries.take(n));
    }
}

proof fn lemma_restart_sum_nonnegative(entries: Seq<StatusEntry>)
    requires
        restarts_valid(entries),
    ensures
        0 <= restart_sum(entries),
    decreases entries.len(),
{
    if entries.len() > 0 {
        assert forall|i: int| 0 <= i < entries.drop_last().len() implies (
        #[trigger] entries.drop_last()[i]).restarts >= 0 by {
            assert(entries.drop_last()[i] == entries[i]);
        }
        lemma_restart_sum_nonnegative(entries.drop_last());
    }
}

/// The total of the restart counts of a pod. A negative count, or a sum
/// beyond the range of `i64`, is malformed input.
pub fn total_restarts(entries: &Vec<ContainerStatusEntry>) -> (r: Result<i64, ReportError>)
    ensures
        r == restart_total(entry_views(entries@)),
{
    let ghost all = entry_views(entries@);
    let mut total: i64 = 0;
    let mut i: usize = 0;
    assert(all.take(0) =~= Seq::<StatusEntry>::empty());
    while i < entries.len()
        invariant
            i <= entries.len(),
            all == entry_views(entries@),
            restarts_valid(all.take(i as int)),
            total == restart_sum(all.take(i as int)),
            0 <= total,
        decreases entries.len() - i,
    {
        let ghost before = all.take(i as int);
        let ghost after = all.take(i + 1);
        assert(after.drop_last() =~= before);
        assert(after.last() == entries@[i as int]@);
        let count = entries[i].restart_count;
        if count < 0 {
            assert(all[i as int].restarts < 0);
            return Err(ReportError::MalformedInput);
        }
        if total > i64::MAX - count {
            proof {
                if restarts_valid(all) {
                    lemma_restart_sum_grows(all, i + 1);
                }
            }
            return Err(ReportError::MalformedInput);
        }
        total = total + count;
        assert forall|k: int| 0 <= k < after.len() implies (#[trigger] after[k]).restarts >= 0 by {
            if k < i {
                assert(before[k] == after[k]);
            }
        }
        i += 1;
    }
    assert(all.take(i as int) =~= all);
    Ok(total)
}

/// Whether `items` holds a string that reads as `wanted`.
fn holds_text(items: &Vec<String>, wanted: &String) -> (r: bool)
    ensures
        r == texts(items@).contains(wanted@),
{
    let mut i: usize = 0;
    while i < items.len()
        invariant
            i <= items.len(),
            forall|k: int| 0 <= k < i ==> texts(items@)[k] != wanted@,
        decreases items.len() - i,
    {
        if items[i] == *wanted {
            assert(texts(items@)[i as int] == wanted@);
            return true;
        }
        i += 1;
    }
    false
}

/// The merged status of a pod.
pub fn resolve_status(phase: &str, entries: &Vec<ContainerStatusEntry>) -> (r: String)
    ensures
        r@ == merged_status(phase@, entry_views(entries@)),
        phase@ == running() ==> r@ == running(),
{
    let status = phase.to_owned();
    proof {
        reveal_strlit("Running");
        assert("Running"@ =~= running());
        reveal_strlit(", ");
        assert(", "@ =~= reason_separator());
    }
    let running_phase = "Running".to_owned();
    if status == running_phase {
        return status;
    }
    let ghost all = entry_views(entries@);
    let mut reasons: Vec<String> = Vec::new();
    let mut i: usize = 0;
    assert(all.take(0) =~= Seq::<StatusEntry>::empty());
    assert(texts(reasons@) =~= Seq::<Seq<char>>::empty());
    while i < entries.len()
        invariant
            i <= entries.len(),
            all == entry_views(entries@),
            texts(reasons@) == distinct(waiting_reasons(all.take(i as int))),
        decreases entries.len() - i,
    {
        let ghost before = all.take(i as int);
        let ghost after = all.take(i + 1);
        assert(after.drop_last() =~= before);
        assert(after.last() == entries@[i as int]@);
        let ghost old_reasons = reasons@;
        match &entries[i].waiting_reason {
            Some(reason) => {
                assert(waiting_reasons(after) == waiting_reasons(before).push(reason@));
                assert(waiting_reasons(after).drop_last() =~= waiting_reasons(before));
                if !holds_text(&reasons, reason) {
                    reasons.push(reason.clone());
                    assert(texts(reasons@) =~= texts(old_reasons).push(reason@));
                }
            },
            None => {},
        }
        i += 1;
    }
    assert(all.take(i as int) =~= all);
    proof {
        lemma_distinct_values(waiting_reasons(all));
    }
    if reasons.len() == 0 {
        status
    } else {
        join(&reasons, ", ")
    }
}

} // verus!
