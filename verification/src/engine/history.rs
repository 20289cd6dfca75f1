//! Which transfer-history entries a prune removes. The entries are kept per account: the
//! newest `limit` of an account stay, and of the older ones only finished entries whose
//! files are not under the clipboard lock go.
use crate::text::{chars_of, push_str, str_eq, string_from_chars};
use vstd::prelude::*;

verus! {

/// One history entry as the prune sees it.
#[derive(Debug, Clone)]
pub struct HistoryRow {
    pub session_id: String,
    /// The account it belongs to; `None` for entries from before accounts were recorded.
    pub account_id: Option<String>,
    /// "PENDING", "TRANSFERRING", "COMPLETED", "FAILED" or "CANCELLED".
    pub status: String,
    /// Some file of the session was put on the clipboard within the lock period.
    pub clipboard_locked: bool,
}

/// The entry belongs to the account.
pub open spec fn owned_by(r: HistoryRow, account_id: Seq<char>) -> bool {
    r.account_id matches Some(a) && a@ == account_id
}

/// The account's entries, in the given order.
pub open spec fn own_rows(rows: Seq<HistoryRow>, account_id: Seq<char>) -> Seq<HistoryRow>
    decreases rows.len(),
{
    if rows.len() == 0 {
        Seq::empty()
    } else if owned_by(rows.last(), account_id) {
        own_rows(rows.drop_last(), account_id).push(rows.last())
    } else {
        own_rows(rows.drop_last(), account_id)
    }
}

/// The entry is finished (completed, failed or cancelled).
pub open spec fn is_finished(status: Seq<char>) -> bool {
    status == "COMPLETED"@ || status == "FAILED"@ || status == "CANCELLED"@
}

/// The entry may be removed: finished and not under the clipboard lock.
pub open spec fn removable(r: HistoryRow) -> bool {
    is_finished(r.status@) && !r.clipboard_locked
}

/// The session ids of the removable entries, in order.
pub open spec fn removable_ids(rows: Seq<HistoryRow>) -> Seq<Seq<char>>
    decreases rows.len(),
{
    if rows.len() == 0 {
        Seq::empty()
    } else if removable(rows.last()) {
        removable_ids(rows.drop_last()).push(rows.last().session_id@)
    } else {
        removable_ids(rows.drop_last())
    }
}

/// How many of the account's oldest entries lie outside the kept window.
pub open spec fn outside_window(own: nat, limit: u32) -> nat {
    if own > limit {
        (own - limit) as nat
    } else {
        0
    }
}

/// The sessions a prune to `limit` entries removes for an account, `rows` being every
/// entry oldest first: none when the limit is zero (no limit); otherwise, among the
/// account's entries older than its newest `limit`, the removable ones, oldest first.
pub open spec fn spec_prune_candidates(rows: Seq<HistoryRow>, account_id: Seq<char>, limit: u32) -> Seq<
    Seq<char>,
> {
    if limit == 0 {
        Seq::empty()
    } else {
        let own = own_rows(rows, account_id);
        removable_ids(own.take(outside_window(own.len(), limit) as int))
    }
}

fn is_owned(r: &HistoryRow, account_id: &str) -> (b: bool)
    ensures
        b == owned_by(*r, account_id@),
{
    match &r.account_id {
        Some(a) => str_eq(a.as_str(), account_id),
        None => false,
    }
}

fn is_removable(r: &HistoryRow) -> (b: bool)
    ensures
        b == removable(*r),
{
    let s = r.status.as_str();
    (str_eq(s, "COMPLETED") || str_eq(s, "FAILED") || str_eq(s, "CANCELLED")) && !r.clipboard_locked
}

/// Chooses the sessions a history prune removes; `rows` holds every entry, oldest first
/// (by creation time, then insertion).
pub fn select_prune_candidates(rows: &[HistoryRow], account_id: &str, limit: u32) -> (r: Vec<
    String,
>)
    ensures
        r@.map_values(|s: String| s@) == spec_prune_candidates(rows@, account_id@, limit),
        limit == 0 ==> r@.len() == 0,
        forall|k: int|
            0 < limit && 0 <= k < own_rows(rows@, account_id@).len() - limit && (#[trigger] own_rows(
                rows@,
                account_id@,
            )[k].status@ == "COMPLETED"@ || own_rows(rows@, account_id@)[k].status@ == "FAILED"@
                || own_rows(rows@, account_id@)[k].status@ == "CANCELLED"@) && !own_rows(
                rows@,
                account_id@,
            )[k].clipboard_locked ==> r@.map_values(|s: String| s@).contains(
                own_rows(rows@, account_id@)[k].session_id@,
            ),
{
    if limit == 0 {
        let out: Vec<String> = Vec::new();
        assert(out@.map_values(|s: String| s@) =~= Seq::<Seq<char>>::empty());
        return out;
    }
    let n = rows.len();
    let ghost own = own_rows(rows@, account_id@);
    let mut own_count: usize = 0;
    let mut i: usize = 0;
    while i < n
        invariant
            i <= n,
            n == rows@.len(),
            own_count == own_rows(rows@.take(i as int), account_id@).len(),
            own_count <= i,
        decreases n - i,
    {
        assert(rows@.take(i + 1).drop_last() =~= rows@.take(i as int));
        if is_owned(&rows[i], account_id) {
            own_count = own_count + 1;
        }
        i = i + 1;
    }
    assert(rows@.take(n as int) =~= rows@);
    let cut: usize = if own_count > limit as usize {
        own_count - limit as usize
    } else {
        0
    };
    assert(cut == outside_window(own.len(), limit));
    let mut out: Vec<String> = Vec::new();
    let mut seen: usize = 0;
    let mut j: usize = 0;
    while j < n && seen < cut
        invariant
            j <= n,
            n == rows@.len(),
            cut <= own.len(),
            own == own_rows(rows@, account_id@),
            seen == own_rows(rows@.take(j as int), account_id@).len(),
            seen <= cut,
            own_rows(rows@.take(j as int), account_id@) == own.take(seen as int),
            out@.map_values(|s: String| s@) == removable_ids(own.take(seen as int)),
        decreases n - j,
    {
        assert(rows@.take(j + 1).drop_last() =~= rows@.take(j as int));
        proof {
            lemma_own_rows_prefix(rows@, account_id@, j + 1);
        }
        if is_owned(&rows[j], account_id) {
            assert(own_rows(rows@.take(j + 1), account_id@) == own.take(seen as int).push(rows@[j as int]));
            assert(own.take(seen + 1) == own_rows(rows@.take(j + 1), account_id@)) by {
                assert(own_rows(rows@.take(j + 1), account_id@) == own.take(own_rows(rows@.take(j + 1), account_id@).len() as int));
            }
            assert(own.take(seen + 1).drop_last() =~= own.take(seen as int));
            if is_removable(&rows[j]) {
                let ghost before = out@.map_values(|s: String| s@);
                let id = rows[j].session_id.clone();
                out.push(id);
                assert(out@.map_values(|s: String| s@) =~= before.push(rows@[j as int].session_id@));
            }
            seen = seen + 1;
        }
        j = j + 1;
    }
    proof {
        if seen < cut {
            assert(j == n);
            assert(rows@.take(n as int) =~= rows@);
        }
        assert(out@.map_values(|s: String| s@) == spec_prune_candidates(rows@, account_id@, limit));
        assert forall|k: int|
            0 < limit && 0 <= k < own_rows(rows@, account_id@).len() - limit && (#[trigger] own_rows(
                rows@,
                account_id@,
            )[k].status@ == "COMPLETED"@ || own_rows(rows@, account_id@)[k].status@ == "FAILED"@
                || own_rows(rows@, account_id@)[k].status@ == "CANCELLED"@) && !own_rows(
                rows@,
                account_id@,
            )[k].clipboard_locked implies out@.map_values(|s: String| s@).contains(
                own_rows(rows@, account_id@)[k].session_id@,
            ) by {
            lemma_prune_takes_every_old_finished_entry(rows@, account_id@, limit, k);
        }
    }
    out
}

/// The account's entries among a prefix of the rows are a prefix of its entries.
pub proof fn lemma_own_rows_prefix(rows: Seq<HistoryRow>, account_id: Seq<char>, k: int)
    requires
        0 <= k <= rows.len(),
    ensures
        own_rows(rows.take(k), account_id) == own_rows(rows, account_id).take(
            own_rows(rows.take(k), account_id).len() as int,
        ),
        own_rows(rows.take(k), account_id).len() <= own_rows(rows, account_id).len(),
    decreases rows.len(),
{
    if k == rows.len() {
        assert(rows.take(k) =~= rows);
        assert(own_rows(rows, account_id).take(own_rows(rows, account_id).len() as int) =~= own_rows(
            rows,
            account_id,
        ));
    } else {
        let prev = rows.drop_last();
        assert(rows.take(k) =~= prev.take(k));
        lemma_own_rows_prefix(prev, account_id, k);
        let a = own_rows(prev.take(k), account_id);
        let whole_prev = own_rows(prev, account_id);
        if owned_by(rows.last(), account_id) {
            assert(own_rows(rows, account_id) == whole_prev.push(rows.last()));
            assert(whole_prev.push(rows.last()).take(a.len() as int) =~= whole_prev.take(a.len() as int));
        } else {
            assert(own_rows(rows, account_id) == whole_prev);
        }
    }
}

/// Every id `removable_ids` lists comes from a removable row.
proof fn lemma_removable_ids_from(rows: Seq<HistoryRow>, x: Seq<char>)
    requires
        removable_ids(rows).contains(x),
    ensures
        exists|k: int| 0 <= k < rows.len() && #[trigger] rows[k].session_id@ == x && removable(rows[k]),
    decreases rows.len(),
{
    let prev = rows.drop_last();
    if removable(rows.last()) && removable_ids(prev).push(rows.last().session_id@).last() == x {
        assert(rows[rows.len() - 1].session_id@ == x);
    } else {
        if removable(rows.last()) {
            let ids = removable_ids(prev).push(rows.last().session_id@);
            let k = choose|k: int| 0 <= k < ids.len() && ids[k] == x;
            assert(k < ids.len() - 1);
            assert(removable_ids(prev)[k] == x);
        }
        lemma_removable_ids_from(prev, x);
        let k = choose|k: int| 0 <= k < prev.len() && #[trigger] prev[k].session_id@ == x && removable(prev[k]);
        assert(rows[k] == prev[k]);
    }
}

/// Every row `own_rows` keeps belongs to the account.
proof fn lemma_own_rows_owned(rows: Seq<HistoryRow>, account_id: Seq<char>)
    ensures
        forall|k: int| 0 <= k < own_rows(rows, account_id).len() ==> owned_by(
            #[trigger] own_rows(rows, account_id)[k],
            account_id,
        ),
    decreases rows.len(),
{
    if rows.len() > 0 {
        let prev = rows.drop_last();
        lemma_own_rows_owned(prev, account_id);
        let op = own_rows(prev, account_id);
        if owned_by(rows.last(), account_id) {
            assert forall|k: int| 0 <= k < own_rows(rows, account_id).len() implies owned_by(
                #[trigger] own_rows(rows, account_id)[k],
                account_id,
            ) by {
                if k < op.len() {
                    assert(own_rows(rows, account_id)[k] == op[k]);
                }
            }
        }
    }
}

/// A prune removes only entries of the pruning account, only finished ones whose files are
/// not under the clipboard lock, and never one of the account's newest `limit` entries.
pub proof fn lemma_prune_candidates_are_safe(rows: Seq<HistoryRow>, account_id: Seq<char>, limit: u32)
    ensures
        forall|x: Seq<char>| #[trigger] spec_prune_candidates(rows, account_id, limit).contains(x) ==> exists|k: int|
            {
                &&& 0 <= k < own_rows(rows, account_id).len() - limit
                &&& #[trigger] own_rows(rows, account_id)[k].session_id@ == x
                &&& owned_by(own_rows(rows, account_id)[k], account_id)
                &&& removable(own_rows(rows, account_id)[k])
                &&& (own_rows(rows, account_id)[k].status@ == "COMPLETED"@ || own_rows(rows, account_id)[k].status@
                    == "FAILED"@ || own_rows(rows, account_id)[k].status@ == "CANCELLED"@)
                &&& !own_rows(rows, account_id)[k].clipboard_locked
            },
        limit == 0 ==> spec_prune_candidates(rows, account_id, limit).len() == 0,
{
    let own = own_rows(rows, account_id);
    lemma_own_rows_owned(rows, account_id);
    assert forall|x: Seq<char>| #[trigger] spec_prune_candidates(rows, account_id, limit).contains(x) implies exists|k: int|
        {
            &&& 0 <= k < own.len() - limit
            &&& #[trigger] own[k].session_id@ == x
            &&& owned_by(own[k], account_id)
            &&& removable(own[k])
            &&& (own[k].status@ == "COMPLETED"@ || own[k].status@ == "FAILED"@ || own[k].status@
                == "CANCELLED"@)
            &&& !own[k].clipboard_locked
        } by {
        let cut = outside_window(own.len(), limit) as int;
        let head = own.take(cut);
        lemma_removable_ids_from(head, x);
        let k = choose|k: int| 0 <= k < head.len() && #[trigger] head[k].session_id@ == x && removable(head[k]);
        assert(head[k] == own[k]);
        assert(own[k].session_id@ == x);
    }
}

/// A removable row's session is among the removable ids of any list that holds the row.
proof fn lemma_removable_ids_has(rows: Seq<HistoryRow>, k: int)
    requires
        0 <= k < rows.len(),
        removable(rows[k]),
    ensures
        removable_ids(rows).contains(rows[k].session_id@),
    decreases rows.len(),
{
    let prev = rows.drop_last();
    if k == rows.len() - 1 {
        let ids = removable_ids(prev).push(rows.last().session_id@);
        assert(ids[ids.len() - 1] == rows[k].session_id@);
    } else {
        assert(prev[k] == rows[k]);
        lemma_removable_ids_has(prev, k);
        let ids = removable_ids(prev);
        let j = choose|j: int| 0 <= j < ids.len() && ids[j] == rows[k].session_id@;
        if removable(rows.last()) {
            assert(ids.push(rows.last().session_id@)[j] == rows[k].session_id@);
        }
    }
}

/// A prune keeps nothing it should remove: with a limit set, every entry of the account that
/// lies outside its newest `limit` entries, has finished (COMPLETED, FAILED or CANCELLED) and
/// is not under the clipboard lock is among the sessions the prune removes.
pub proof fn lemma_prune_takes_every_old_finished_entry(
    rows: Seq<HistoryRow>,
    account_id: Seq<char>,
    limit: u32,
    k: int,
)
    requires
        limit > 0,
        0 <= k < own_rows(rows, account_id).len() - limit,
        own_rows(rows, account_id)[k].status@ == "COMPLETED"@ || own_rows(rows, account_id)[k].status@
            == "FAILED"@ || own_rows(rows, account_id)[k].status@ == "CANCELLED"@,
        !own_rows(rows, account_id)[k].clipboard_locked,
    ensures
        spec_prune_candidates(rows, account_id, limit).contains(own_rows(rows, account_id)[k].session_id@),
{
    let own = own_rows(rows, account_id);
    let cut = outside_window(own.len(), limit) as int;
    let head = own.take(cut);
    assert(head[k] == own[k]);
    lemma_removable_ids_has(head, k);
}

/// Keeps the sessions that are not under the clipboard lock, in order.
pub fn without_locked(session_ids: &[String], locked: &[bool]) -> (r: Vec<String>)
    requires
        locked@.len() == session_ids@.len(),
    ensures
        r@.map_values(|s: String| s@) == unlocked_ids(session_ids@.map_values(|s: String| s@), locked@),
{
    let ghost ids = session_ids@.map_values(|s: String| s@);
    let mut out: Vec<String> = Vec::new();
    let n = session_ids.len();
    let mut i: usize = 0;
    while i < n
        invariant
            i <= n,
            n == session_ids@.len(),
            locked@.len() == n,
            ids == session_ids@.map_values(|s: String| s@),
            out@.map_values(|s: String| s@) == unlocked_ids(ids.take(i as int), locked@.take(i as int)),
        decreases n - i,
    {
        assert(ids.take(i + 1).drop_last() =~= ids.take(i as int));
        assert(locked@.take(i + 1).drop_last() =~= locked@.take(i as int));
        if !locked[i] {
            let ghost before = out@.map_values(|s: String| s@);
            out.push(session_ids[i].clone());
            assert(out@.map_values(|s: String| s@) =~= before.push(ids[i as int]));
        }
        i = i + 1;
    }
    assert(ids.take(n as int) =~= ids);
    assert(locked@.take(n as int) =~= locked@);
    out
}

/// The rows a clean-up deletes once it has tried to remove their files, in order: those whose
/// files are all gone and that are not under the clipboard lock (a row whose file could not
/// be removed stays, so that the next clean-up finds the file again).
pub open spec fn deletable_ids(ids: Seq<Seq<char>>, removed: Seq<bool>, locked: Seq<bool>) -> Seq<
    Seq<char>,
>
    decreases ids.len(),
{
    if ids.len() == 0 || removed.len() == 0 || locked.len() == 0 {
        Seq::empty()
    } else {
        let prev = deletable_ids(ids.drop_last(), removed.drop_last(), locked.drop_last());
        if removed.last() && !locked.last() {
            prev.push(ids.last())
        } else {
            prev
        }
    }
}

/// Chooses the rows to delete after the files were removed: `removed[k]` tells whether every
/// file of row `k` is gone, `locked[k]` whether it is under the clipboard lock now.
pub fn deletable_rows(ids: &[String], removed: &[bool], locked: &[bool]) -> (r: Vec<String>)
    requires
        removed@.len() == ids@.len(),
        locked@.len() == ids@.len(),
    ensures
        r@.map_values(|s: String| s@) == deletable_ids(ids@.map_values(|s: String| s@), removed@, locked@),
{
    let ghost all = ids@.map_values(|s: String| s@);
    let mut out: Vec<String> = Vec::new();
    let n = ids.len();
    let mut i: usize = 0;
    while i < n
        invariant
            i <= n,
            n == ids@.len(),
            removed@.len() == n,
            locked@.len() == n,
            all == ids@.map_values(|s: String| s@),
            out@.map_values(|s: String| s@) == deletable_ids(
                all.take(i as int),
                removed@.take(i as int),
                locked@.take(i as int),
            ),
        decreases n - i,
    {
        assert(all.take(i + 1).drop_last() =~= all.take(i as int));
        assert(removed@.take(i + 1).drop_last() =~= removed@.take(i as int));
        assert(locked@.take(i + 1).drop_last() =~= locked@.take(i as int));
        if removed[i] && !locked[i] {
            let ghost before = out@.map_values(|s: String| s@);
            out.push(ids[i].clone());
            assert(out@.map_values(|s: String| s@) =~= before.push(all[i as int]));
        }
        i = i + 1;
    }
    assert(all.take(n as int) =~= all);
    assert(removed@.take(n as int) =~= removed@);
    assert(locked@.take(n as int) =~= locked@);
    out
}

/// The ids whose flag is off, in order.
pub open spec fn unlocked_ids(ids: Seq<Seq<char>>, locked: Seq<bool>) -> Seq<Seq<char>>
    decreases ids.len(),
{
    if ids.len() == 0 || locked.len() == 0 {
        Seq::empty()
    } else if !locked.last() {
        unlocked_ids(ids.drop_last(), locked.drop_last()).push(ids.last())
    } else {
        unlocked_ids(ids.drop_last(), locked.drop_last())
    }
}

// ----- the card of a failed transfer -----

/// What the history knows of a transfer when it fails.
#[derive(Debug, Clone)]
pub struct TaskBrief {
    /// "SEND" or "RECEIVE".
    pub direction: String,
    pub data_type: String,
    pub preview_summary: Option<String>,
    pub total_size: i64,
}

/// The note on a transfer the peer refused.
pub const REJECTED_BY_PEER: &'static str = "对方拒绝了本次传输";

/// The transfer card shown for a failed transfer.
#[derive(Debug, Clone)]
pub struct FailedCard {
    pub direction: String,
    pub summary: String,
    pub total_size: i64,
    pub data_type: String,
}

/// The card's summary: the entry's preview (or "传输" when it has none or is unknown), with
/// the note in parentheses when there is one.
pub open spec fn failed_summary(brief: Option<TaskBrief>, note: Option<Seq<char>>) -> Seq<char> {
    let base = match brief {
        Some(b) => match b.preview_summary {
            Some(p) => p@,
            None => "传输"@,
        },
        None => "传输"@,
    };
    match note {
        Some(m) => base + " ("@ + m + ")"@,
        None => base,
    }
}

/// Builds the card of a failed or refused transfer from what the history knows of it; an
/// unknown transfer shows as an outgoing file transfer of size zero.
pub fn failed_transfer_card(brief: Option<TaskBrief>, note: Option<&str>) -> (c: FailedCard)
    ensures
        c.summary@ == failed_summary(
            brief,
            match note {
                Some(m) => Some(m@),
                None => None::<Seq<char>>,
            },
        ),
        match brief {
            Some(b) => c.direction@ == b.direction@ && c.total_size == b.total_size && c.data_type@
                == b.data_type@,
            None => c.direction@ == "SEND"@ && c.total_size == 0 && c.data_type@ == "FILES"@,
        },
{
    let ghost gb = brief;
    let (direction, base, total_size, data_type) = match brief {
        Some(b) => {
            let base = match b.preview_summary {
                Some(p) => p,
                None => "传输".to_owned(),
            };
            (b.direction, base, b.total_size, b.data_type)
        },
        None => ("SEND".to_owned(), "传输".to_owned(), 0i64, "FILES".to_owned()),
    };
    let summary = match note {
        Some(m) => {
            let mut t = chars_of(base.as_str());
            push_str(&mut t, " (");
            push_str(&mut t, m);
            push_str(&mut t, ")");
            string_from_chars(t)
        },
        None => base,
    };
    FailedCard { direction, summary, total_size, data_type }
}

} // verus!
