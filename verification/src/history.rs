use vstd::prelude::*;
use crate::keys::{Key, handle_list_navigation, is_navigation_key, spec_navigate};
use crate::activity::{JiraWorklogEntry, LocalWorklogEntry};
use crate::text::{chars_of, decimal, push_decimal, str_equal, string_from_chars, views};

verus! {

// The History tab lists push batches (each expandable into the days it
// covers) followed by one entry per sprint whose Jira worklogs no local
// history tracks. Expansion is remembered by id: a batch's history id, or a
// sprint's virtual id.

/// The ids held in a list of ids, as a set.
pub open spec fn id_set(ids: Seq<String>) -> Set<Seq<char>> {
    views(ids).to_set()
}

/// Whether `ids` holds `id`.
pub fn ids_contain(ids: &Vec<String>, id: &str) -> (b: bool)
    ensures
        b == id_set(ids@).contains(id@),
{
    let mut i: usize = 0;
    while i < ids.len()
        invariant
            i <= ids.len(),
            forall|j: int| 0 <= j < i ==> ids@[j]@ != id@,
        decreases ids.len() - i,
    {
        if str_equal(ids[i].as_str(), id) {
            assert(views(ids@)[i as int] == id@);
            return true;
        }
        i = i + 1;
    }
    proof {
        if views(ids@).contains(id@) {
            let k = choose|k: int| 0 <= k < views(ids@).len() && views(ids@)[k] == id@;
            assert(ids@[k]@ == id@);
        }
    }
    false
}

/// Adds `id` to the set of ids.
pub fn insert_id(ids: &mut Vec<String>, id: String)
    ensures
        id_set(final(ids)@) == id_set(old(ids)@).insert(id@),
{
    if !ids_contain(ids, id.as_str()) {
        let ghost before = ids@;
        ids.push(id);
        proof {
            assert(views(ids@) == views(before).push(id@));
            assert(id_set(ids@) =~= id_set(before).insert(id@)) by {
                assert forall|k: Seq<char>| views(ids@).contains(k) <==> (views(before).contains(k) || k == id@) by {
                    if views(ids@).contains(k) {
                        let p = choose|p: int| 0 <= p < views(ids@).len() && views(ids@)[p] == k;
                        if p < before.len() {
                            assert(views(before)[p] == k);
                        }
                    }
                    if views(before).contains(k) {
                        let p = choose|p: int| 0 <= p < views(before).len() && views(before)[p] == k;
                        assert(views(ids@)[p] == k);
                    }
                    if k == id@ {
                        assert(views(ids@)[before.len() as int] == k);
                    }
                }
            }
        }
    } else {
        assert(id_set(ids@) =~= id_set(ids@).insert(id@));
    }
}

/// Takes `id` out of the set of ids.
pub fn remove_id(ids: &mut Vec<String>, id: &str)
    ensures
        id_set(final(ids)@) == id_set(old(ids)@).remove(id@),
{
    let ghost before = views(ids@);
    let mut kept: Vec<String> = Vec::new();
    let mut i: usize = 0;
    while i < ids.len()
        invariant
            i <= ids.len(),
            before == views(ids@),
            forall|k: Seq<char>| views(kept@).contains(k) <==> (views(ids@).take(i as int).contains(k) && k != id@),
        decreases ids.len() - i,
    {
        let ghost kept_before = views(kept@);
        let same = str_equal(ids[i].as_str(), id);
        if !same {
            kept.push(ids[i].clone());
        }
        proof {
            let cur = views(ids@).take(i as int);
            let nxt = views(ids@).take(i as int + 1);
            assert(nxt == cur.push(ids@[i as int]@));
            assert forall|k: Seq<char>| views(kept@).contains(k) <==> (nxt.contains(k) && k != id@) by {
                if same {
                    assert(views(kept@) == kept_before);
                } else {
                    assert(views(kept@) == kept_before.push(ids@[i as int]@));
                }
                if views(kept@).contains(k) {
                    let p = choose|p: int| 0 <= p < views(kept@).len() && views(kept@)[p] == k;
                    if p < kept_before.len() {
                        assert(kept_before[p] == k);
                        assert(kept_before.contains(k));
                        let q = choose|q: int| 0 <= q < cur.len() && cur[q] == k;
                        assert(nxt[q] == k);
                    } else {
                        assert(nxt[i as int] == k);
                    }
                }
                if nxt.contains(k) && k != id@ {
                    let q = choose|q: int| 0 <= q < nxt.len() && nxt[q] == k;
                    if q < i {
                        assert(cur[q] == k);
                        assert(cur.contains(k));
                        assert(kept_before.contains(k));
                        let p = choose|p: int| 0 <= p < kept_before.len() && kept_before[p] == k;
                        assert(views(kept@)[p] == k);
                    } else {
                        assert(views(kept@)[kept_before.len() as int] == k);
                    }
                }
            }
        }
        i = i + 1;
    }
    proof {
        assert(before.take(before.len() as int) == before);
        assert(id_set(kept@) =~= id_set(ids@).remove(id@));
    }
    *ids = kept;
}

/// A row of the History list: a batch header, one day of an expanded batch,
/// or the entry of a sprint with untracked Jira worklogs.
#[derive(Debug, Clone, Copy, PartialEq, Eq, Structural)]
pub enum HistoryRow {
    Batch(usize),
    Day(usize, i32),
    JiraOnly(usize),
}

/// A pushed batch: its history id and the distinct days its worklogs
/// started on, in increasing order.
#[derive(Debug, Clone)]
pub struct HistoryBatch {
    pub id: String,
    pub days: Vec<i32>,
}

/// Strictly increasing (so free of repeats).
pub open spec fn strictly_increasing(days: Seq<i32>) -> bool {
    forall|a: int, b: int| 0 <= a < b < days.len() ==> days[a] < days[b]
}

/// Inserts `d` into the strictly increasing `days`, unless it is there.
fn insert_day(days: &mut Vec<i32>, d: i32)
    requires
        strictly_increasing(old(days)@),
    ensures
        strictly_increasing(final(days)@),
        forall|x: i32| final(days)@.contains(x) <==> (old(days)@.contains(x) || x == d),
{
    let mut p: usize = 0;
    while p < days.len() && days[p] < d
        invariant
            p <= days@.len(),
            days@ == old(days)@,
            forall|k: int| 0 <= k < p ==> days@[k] < d,
        decreases days@.len() - p,
    {
        p = p + 1;
    }
    if p < days.len() && days[p] == d {
        assert(days@[p as int] == d);
        assert(days@.contains(d));
        return;
    }
    let ghost before = days@;
    days.insert(p, d);
    proof {
        assert(days@ == before.insert(p as int, d));
        assert forall|a: int, b: int| 0 <= a < b < days@.len() implies days@[a] < days@[b] by {
            if b < p {
                assert(days@[a] == before[a] && days@[b] == before[b]);
            } else if b == p {
                assert(days@[a] == before[a]);
            } else if a < p {
                assert(days@[a] == before[a] && days@[b] == before[b - 1]);
            } else if a == p {
                assert(days@[b] == before[b - 1]);
                assert(before[p as int] > d || before[p as int] == d);
            } else {
                assert(days@[a] == before[a - 1] && days@[b] == before[b - 1]);
            }
        }
        assert forall|x: i32| days@.contains(x) <==> (before.contains(x) || x == d) by {
            if days@.contains(x) {
                let k = choose|k: int| 0 <= k < days@.len() && days@[k] == x;
                if k < p {
                    assert(before[k] == x);
                } else if k > p {
                    assert(before[k - 1] == x);
                }
            }
            if before.contains(x) {
                let k = choose|k: int| 0 <= k < before.len() && before[k] == x;
                if k < p {
                    assert(days@[k] == x);
                } else {
                    assert(days@[k + 1] == x);
                }
            }
            if x == d {
                assert(days@[p as int] == d);
            }
        }
        assert(before == old(days)@);
        assert(forall|x: i32| #[trigger] days@.contains(x) <==> (old(days)@.contains(x) || x == d));
    }
}

impl HistoryBatch {
    /// A batch with history id `id` whose worklogs started on `worklog_days`:
    /// its days are those days, each once, in increasing order.
    pub fn from_worklog_days(id: String, worklog_days: &[i32]) -> (b: HistoryBatch)
        ensures
            b.id@ == id@,
            strictly_increasing(b.days@),
            forall|x: i32| b.days@.contains(x) <==> worklog_days@.contains(x),
    {
        let mut days: Vec<i32> = Vec::new();
        let mut i: usize = 0;
        while i < worklog_days.len()
            invariant
                i <= worklog_days@.len(),
                strictly_increasing(days@),
                forall|x: i32| days@.contains(x) <==> worklog_days@.take(i as int).contains(x),
            decreases worklog_days@.len() - i,
        {
            insert_day(&mut days, worklog_days[i]);
            proof {
                let prev = worklog_days@.take(i as int);
                let next = worklog_days@.take(i as int + 1);
                assert(next == prev.push(worklog_days@[i as int]));
                assert forall|x: i32| next.contains(x) <==> (prev.contains(x) || x == worklog_days@[i as int]) by {
                    if next.contains(x) {
                        let k = choose|k: int| 0 <= k < next.len() && next[k] == x;
                        if k < prev.len() {
                            assert(prev[k] == x);
                        }
                    }
                    if prev.contains(x) {
                        let k = choose|k: int| 0 <= k < prev.len() && prev[k] == x;
                        assert(next[k] == x);
                    }
                    if x == worklog_days@[i as int] {
                        assert(next[i as int] == x);
                    }
                }
            }
            i = i + 1;
        }
        proof {
            assert(worklog_days@.take(worklog_days@.len() as int) == worklog_days@);
        }
        HistoryBatch { id, days }
    }
}

/// The day rows of batch `b`.
pub open spec fn day_rows(b: int, days: Seq<i32>) -> Seq<HistoryRow> {
    days.map_values(|d: i32| HistoryRow::Day(b as usize, d))
}

/// The rows of the batches: each header, followed by its days when expanded.
pub open spec fn batch_rows(batches: Seq<HistoryBatch>, expanded: Set<Seq<char>>) -> Seq<HistoryRow>
    decreases batches.len(),
{
    if batches.len() == 0 {
        Seq::empty()
    } else {
        let n = batches.len() - 1;
        batch_rows(batches.drop_last(), expanded).push(HistoryRow::Batch(n as usize)) + if expanded.contains(
            batches.last().id@,
        ) {
            day_rows(n, batches.last().days@)
        } else {
            Seq::empty()
        }
    }
}

/// The rows of the untracked sprints.
pub open spec fn jira_only_rows(count: nat) -> Seq<HistoryRow> {
    Seq::new(count, |i: int| HistoryRow::JiraOnly(i as usize))
}

/// The navigable rows: batch headers precede their day rows; untracked sprints come last.
pub open spec fn spec_rows(batches: Seq<HistoryBatch>, expanded: Set<Seq<char>>, jira_count: nat) -> Seq<HistoryRow> {
    batch_rows(batches, expanded) + jira_only_rows(jira_count)
}

/// Every row names a batch or a sprint entry that exists.
pub open spec fn rows_in_range(rows: Seq<HistoryRow>, batch_count: int, jira_count: int) -> bool {
    forall|k: int|
        0 <= k < rows.len() ==> match #[trigger] rows[k] {
            HistoryRow::Batch(b) => b < batch_count,
            HistoryRow::Day(b, _) => b < batch_count,
            HistoryRow::JiraOnly(j) => j < jira_count,
        }
}

proof fn lemma_batch_rows_step(batches: Seq<HistoryBatch>, expanded: Set<Seq<char>>, i: int)
    requires
        0 <= i < batches.len(),
    ensures
        batch_rows(batches.take(i + 1), expanded) == batch_rows(batches.take(i), expanded).push(
            HistoryRow::Batch(i as usize),
        ) + if expanded.contains(batches[i].id@) {
            day_rows(i, batches[i].days@)
        } else {
            Seq::empty()
        },
{
    assert(batches.take(i + 1).drop_last() == batches.take(i));
    assert(batches.take(i + 1).last() == batches[i]);
}

proof fn lemma_batch_rows_in_range(batches: Seq<HistoryBatch>, expanded: Set<Seq<char>>)
    ensures
        rows_in_range(batch_rows(batches, expanded), batches.len() as int, 0),
    decreases batches.len(),
{
    if batches.len() > 0 {
        lemma_batch_rows_in_range(batches.drop_last(), expanded);
    }
}

proof fn lemma_rows_in_range(batches: Seq<HistoryBatch>, expanded: Set<Seq<char>>, jira_count: nat)
    ensures
        rows_in_range(spec_rows(batches, expanded, jira_count), batches.len() as int, jira_count as int),
{
    lemma_batch_rows_in_range(batches, expanded);
    let br = batch_rows(batches, expanded);
    let rows = spec_rows(batches, expanded, jira_count);
    assert forall|k: int| 0 <= k < rows.len() implies match #[trigger] rows[k] {
        HistoryRow::Batch(b) => b < batches.len(),
        HistoryRow::Day(b, _) => b < batches.len(),
        HistoryRow::JiraOnly(j) => j < jira_count,
    } by {
        if k < br.len() {
            assert(rows[k] == br[k]);
        } else {
            assert(rows[k] == HistoryRow::JiraOnly((k - br.len()) as usize));
        }
    }
}

proof fn lemma_batch_rows_prefix(batches: Seq<HistoryBatch>, expanded: Set<Seq<char>>, i: int, j: int)
    requires
        0 <= i <= j <= batches.len(),
    ensures
        batch_rows(batches.take(i), expanded).len() <= batch_rows(batches.take(j), expanded).len(),
        batch_rows(batches.take(j), expanded).take(batch_rows(batches.take(i), expanded).len() as int)
            == batch_rows(batches.take(i), expanded),
    decreases j - i,
{
    if i < j {
        lemma_batch_rows_prefix(batches, expanded, i, j - 1);
        lemma_batch_rows_step(batches, expanded, j - 1);
        let a = batch_rows(batches.take(i), expanded);
        let b = batch_rows(batches.take(j - 1), expanded);
        let c = batch_rows(batches.take(j), expanded);
        assert(c.take(a.len() as int) =~= b.take(a.len() as int));
    } else {
        assert(batch_rows(batches.take(j), expanded).take(batch_rows(batches.take(i), expanded).len() as int)
            =~= batch_rows(batches.take(i), expanded));
    }
}

/// Where the header of batch `b` stands among the rows.
pub open spec fn header_position(batches: Seq<HistoryBatch>, expanded: Set<Seq<char>>, b: int) -> int {
    batch_rows(batches.take(b), expanded).len() as int
}

proof fn lemma_no_later_header(batches: Seq<HistoryBatch>, expanded: Set<Seq<char>>, b: int, k: int)
    requires
        0 <= b < batches.len() <= usize::MAX,
        0 <= k < batch_rows(batches.take(b), expanded).len(),
    ensures
        batch_rows(batches.take(b), expanded)[k] != HistoryRow::Batch(b as usize),
{
    lemma_batch_rows_in_range(batches.take(b), expanded);
    let before = batch_rows(batches.take(b), expanded);
    assert(rows_in_range(before, b, 0));
    let r = before[k];
    match r {
        HistoryRow::Batch(c) => {
            assert(c < b);
        },
        _ => {},
    }
}

proof fn lemma_header_in_batch_rows(batches: Seq<HistoryBatch>, expanded: Set<Seq<char>>, b: int)
    requires
        0 <= b < batches.len() <= usize::MAX,
    ensures
        header_position(batches, expanded, b) < batch_rows(batches, expanded).len(),
        batch_rows(batches, expanded)[header_position(batches, expanded, b)] == HistoryRow::Batch(b as usize),
        forall|k: int|
            0 <= k < header_position(batches, expanded, b) ==> batch_rows(batches, expanded)[k]
                != HistoryRow::Batch(b as usize),
{
    let pos = header_position(batches, expanded, b);
    let before = batch_rows(batches.take(b), expanded);
    let upto = batch_rows(batches.take(b + 1), expanded);
    let all = batch_rows(batches, expanded);
    lemma_batch_rows_step(batches, expanded, b);
    assert(upto[pos] == HistoryRow::Batch(b as usize));
    lemma_batch_rows_prefix(batches, expanded, b + 1, batches.len() as int);
    assert(batches.take(batches.len() as int) == batches);
    assert(all.take(upto.len() as int) == upto);
    assert(all[pos] == upto[pos]);
    assert forall|k: int| 0 <= k < pos implies all[k] != HistoryRow::Batch(b as usize) by {
        assert(all[k] == upto[k]);
        assert(upto[k] == before[k]);
        lemma_no_later_header(batches, expanded, b, k);
    }
}

/// The header of batch `b` is the first row naming batch `b` as a header,
/// at `header_position`: the rows of earlier batches come before it.
pub proof fn law_header_position(batches: Seq<HistoryBatch>, expanded: Set<Seq<char>>, jira_count: nat, b: int)
    requires
        0 <= b < batches.len() <= usize::MAX,
    ensures
        header_position(batches, expanded, b) < spec_rows(batches, expanded, jira_count).len(),
        spec_rows(batches, expanded, jira_count)[header_position(batches, expanded, b)] == HistoryRow::Batch(b as usize),
        forall|k: int|
            0 <= k < header_position(batches, expanded, b) ==> spec_rows(batches, expanded, jira_count)[k]
                != HistoryRow::Batch(b as usize),
{
    lemma_header_in_batch_rows(batches, expanded, b);
    let all = batch_rows(batches, expanded);
    let rows = spec_rows(batches, expanded, jira_count);
    assert forall|k: int| 0 <= k < all.len() implies rows[k] == all[k] by {}
}

/// Lists the navigable rows of the History tab.
pub fn build_flat_rows(batches: &[HistoryBatch], expanded: &Vec<String>, jira_count: usize) -> (rows: Vec<HistoryRow>)
    ensures
        rows@ == spec_rows(batches@, id_set(expanded@), jira_count as nat),
{
    let ghost e = id_set(expanded@);
    let mut rows: Vec<HistoryRow> = Vec::new();
    let mut i: usize = 0;
    while i < batches.len()
        invariant
            i <= batches.len(),
            e == id_set(expanded@),
            rows@ == batch_rows(batches@.take(i as int), e),
        decreases batches.len() - i,
    {
        proof {
            lemma_batch_rows_step(batches@, e, i as int);
        }
        let ghost base = rows@.push(HistoryRow::Batch(i));
        rows.push(HistoryRow::Batch(i));
        if ids_contain(expanded, batches[i].id.as_str()) {
            let days = &batches[i].days;
            let mut k: usize = 0;
            while k < days.len()
                invariant
                    k <= days.len(),
                    days == &batches@[i as int].days,
                    rows@ == base + day_rows(i as int, days@.take(k as int)),
                decreases days.len() - k,
            {
                rows.push(HistoryRow::Day(i, days[k]));
                proof {
                    assert(days@.take(k as int + 1) == days@.take(k as int).push(days@[k as int]));
                    assert(rows@ =~= base + day_rows(i as int, days@.take(k as int + 1)));
                }
                k = k + 1;
            }
            proof {
                assert(days@.take(days.len() as int) == days@);
            }
        } else {
            assert(rows@ =~= base + Seq::<HistoryRow>::empty());
        }
        i = i + 1;
    }
    proof {
        assert(batches@.take(batches.len() as int) == batches@);
    }
    let ghost br = rows@;
    let mut j: usize = 0;
    while j < jira_count
        invariant
            j <= jira_count,
            rows@ == br + jira_only_rows(j as nat),
        decreases jira_count - j,
    {
        rows.push(HistoryRow::JiraOnly(j));
        assert(rows@ =~= br + jira_only_rows(j as nat + 1));
        j = j + 1;
    }
    rows
}

/// What a key on the History tab asks of the caller, beyond moving the
/// selection and expanding or collapsing rows.
#[derive(Debug, Clone, Copy, PartialEq, Eq, Structural)]
pub enum HistoryAction {
    Nothing,
    /// Ask for confirmation before reverting this batch.
    ConfirmRevert(usize),
    /// Delete this batch's history entry (its worklogs stay in Jira).
    DeleteHistory(usize),
    /// Import this sprint's untracked Jira worklogs into a new history entry.
    ImportJiraOnly(usize),
    /// Create a recovery history for pushed worklogs that no history holds.
    CreateRecoveryHistory,
}

/// The last index of a list of `n` rows (0 for an empty list).
pub open spec fn last_index(n: int) -> usize {
    if n > 0 { (n - 1) as usize } else { 0 }
}

/// Collapse keys: the arrow and vi's `h`.
pub open spec fn is_collapse_key(key: Key) -> bool {
    key == Key::Left || key == Key::Char('h')
}

/// Expand keys: the arrow and vi's `l`.
pub open spec fn is_expand_key(key: Key) -> bool {
    key == Key::Right || key == Key::Char('l')
}

/// The id that expands a row: its batch's history id or its sprint's virtual id.
pub open spec fn row_id(batches: Seq<HistoryBatch>, jira_ids: Seq<Seq<char>>, row: HistoryRow) -> Seq<char> {
    match row {
        HistoryRow::Batch(b) => batches[b as int].id@,
        HistoryRow::Day(b, _) => batches[b as int].id@,
        HistoryRow::JiraOnly(j) => jira_ids[j as int],
    }
}

/// Toggles membership of `id`.
pub open spec fn toggle(expanded: Set<Seq<char>>, id: Seq<char>) -> Set<Seq<char>> {
    if expanded.contains(id) { expanded.remove(id) } else { expanded.insert(id) }
}

/// The History tab's response to `key` with row `selected` selected and the
/// ids in `expanded` expanded: the new selection, the new expanded ids and
/// what the caller is to do.
pub open spec fn spec_history_key(
    batches: Seq<HistoryBatch>,
    jira_ids: Seq<Seq<char>>,
    selected: usize,
    expanded: Set<Seq<char>>,
    key: Key,
) -> (usize, Set<Seq<char>>, HistoryAction) {
    let jc = jira_ids.len();
    let rows = spec_rows(batches, expanded, jc);
    let max_index = last_index(rows.len() as int);
    let row: Option<HistoryRow> = if selected < rows.len() { Some(rows[selected as int]) } else { None };
    if batches.len() == 0 && jc == 0 {
        (selected, expanded, HistoryAction::Nothing)
    } else if is_navigation_key(key) {
        (spec_navigate(key, selected, max_index), expanded, HistoryAction::Nothing)
    } else if is_collapse_key(key) {
        match row {
            Some(HistoryRow::Day(b, _)) => {
                let collapsed = expanded.remove(batches[b as int].id@);
                (header_position(batches, collapsed, b as int) as usize, collapsed, HistoryAction::Nothing)
            },
            Some(r) => (selected, expanded.remove(row_id(batches, jira_ids, r)), HistoryAction::Nothing),
            None => (selected, expanded, HistoryAction::Nothing),
        }
    } else if is_expand_key(key) {
        match row {
            Some(HistoryRow::Day(_, _)) => (selected, expanded, HistoryAction::Nothing),
            Some(r) => (selected, expanded.insert(row_id(batches, jira_ids, r)), HistoryAction::Nothing),
            None => (selected, expanded, HistoryAction::Nothing),
        }
    } else if key == Key::Enter {
        match row {
            Some(HistoryRow::Batch(b)) => {
                let id = batches[b as int].id@;
                if expanded.contains(id) {
                    let collapsed = expanded.remove(id);
                    let new_max = last_index(spec_rows(batches, collapsed, jc).len() as int);
                    (if selected < new_max { selected } else { new_max }, collapsed, HistoryAction::Nothing)
                } else {
                    (selected, expanded.insert(id), HistoryAction::Nothing)
                }
            },
            Some(HistoryRow::JiraOnly(j)) => (selected, toggle(expanded, jira_ids[j as int]), HistoryAction::Nothing),
            _ => (selected, expanded, HistoryAction::Nothing),
        }
    } else if key == Key::Delete {
        match row {
            Some(HistoryRow::Batch(b)) => (selected, expanded, HistoryAction::ConfirmRevert(b)),
            _ => (selected, expanded, HistoryAction::Nothing),
        }
    } else if key == Key::Char('D') {
        match row {
            Some(HistoryRow::Batch(b)) => (selected, expanded, HistoryAction::DeleteHistory(b)),
            _ => (selected, expanded, HistoryAction::Nothing),
        }
    } else if key == Key::Char('c') || key == Key::Char('C') {
        match row {
            Some(HistoryRow::JiraOnly(j)) => (selected, expanded, HistoryAction::ImportJiraOnly(j)),
            _ => (selected, expanded, HistoryAction::CreateRecoveryHistory),
        }
    } else if key == Key::PageUp {
        (if selected >= 10 { (selected - 10) as usize } else { 0 }, expanded, HistoryAction::Nothing)
    } else if key == Key::PageDown {
        (if selected + 10 < max_index { (selected + 10) as usize } else { max_index }, expanded, HistoryAction::Nothing)
    } else {
        (selected, expanded, HistoryAction::Nothing)
    }
}

proof fn lemma_batch_rows_ignore_other_id(batches: Seq<HistoryBatch>, expanded: Set<Seq<char>>, x: Seq<char>)
    requires
        forall|k: int| 0 <= k < batches.len() ==> (#[trigger] batches[k]).id@ != x,
    ensures
        batch_rows(batches, expanded.insert(x)) == batch_rows(batches, expanded),
    decreases batches.len(),
{
    if batches.len() > 0 {
        lemma_batch_rows_ignore_other_id(batches.drop_last(), expanded, x);
        assert(expanded.insert(x).contains(batches.last().id@) == expanded.contains(batches.last().id@));
    }
}

/// Expanding a batch with Enter and pressing Enter again collapses it back:
/// the selection stays on its header and the expanded ids are as before
/// (history ids being distinct).
pub proof fn law_enter_twice_restores(
    batches: Seq<HistoryBatch>,
    jira_ids: Seq<Seq<char>>,
    expanded: Set<Seq<char>>,
    b: int,
)
    requires
        0 <= b < batches.len() <= usize::MAX,
        forall|i: int, j: int| 0 <= i < j < batches.len() ==> (#[trigger] batches[i]).id@ != (#[trigger] batches[j]).id@,
        !expanded.contains(batches[b].id@),
        spec_rows(batches, expanded.insert(batches[b].id@), jira_ids.len()).len() <= usize::MAX,
    ensures
        ({
            let selected = header_position(batches, expanded, b) as usize;
            let (s1, e1, a1) = spec_history_key(batches, jira_ids, selected, expanded, Key::Enter);
            let (s2, e2, a2) = spec_history_key(batches, jira_ids, s1, e1, Key::Enter);
            &&& a1 == HistoryAction::Nothing
            &&& a2 == HistoryAction::Nothing
            &&& e1 == expanded.insert(batches[b].id@)
            &&& s2 == selected
            &&& e2 == expanded
        }),
{
    let id = batches[b].id@;
    let jc = jira_ids.len();
    let pos = header_position(batches, expanded, b);
    let e1 = expanded.insert(id);
    law_header_position(batches, expanded, jc, b);
    law_header_position(batches, e1, jc, b);
    assert forall|k: int| 0 <= k < batches.take(b).len() implies (#[trigger] batches.take(b)[k]).id@ != id by {
        assert(batches.take(b)[k] == batches[k]);
    }
    lemma_batch_rows_ignore_other_id(batches.take(b), expanded, id);
    assert(header_position(batches, e1, b) == pos);
    assert(e1.remove(id) =~= expanded);
    let rows0 = spec_rows(batches, expanded, jc);
    let rows1 = spec_rows(batches, e1, jc);
    lemma_rows_grow(batches, expanded, id, jc);
    let selected = pos as usize;
    assert(selected as int == pos);
    assert(rows0[selected as int] == HistoryRow::Batch(b as usize));
    assert(row_id(batches, jira_ids, HistoryRow::Batch(b as usize)) == id);
    let r1 = spec_history_key(batches, jira_ids, selected, expanded, Key::Enter);
    assert(r1 == (selected, e1, HistoryAction::Nothing));
    assert(rows1[selected as int] == HistoryRow::Batch(b as usize));
    let r2 = spec_history_key(batches, jira_ids, selected, e1, Key::Enter);
    assert(r2.1 == expanded);
    assert(r2 == (selected, expanded, HistoryAction::Nothing));
}

proof fn lemma_rows_grow(batches: Seq<HistoryBatch>, expanded: Set<Seq<char>>, x: Seq<char>, jc: nat)
    ensures
        spec_rows(batches, expanded, jc).len() <= spec_rows(batches, expanded.insert(x), jc).len(),
{
    lemma_batch_rows_grow(batches, expanded, x);
}

proof fn lemma_batch_rows_grow(batches: Seq<HistoryBatch>, expanded: Set<Seq<char>>, x: Seq<char>)
    ensures
        batch_rows(batches, expanded).len() <= batch_rows(batches, expanded.insert(x)).len(),
    decreases batches.len(),
{
    if batches.len() > 0 {
        lemma_batch_rows_grow(batches.drop_last(), expanded, x);
    }
}

/// The position of the header of batch `b` in `rows`.
fn find_header(rows: &Vec<HistoryRow>, b: usize) -> (pos: usize)
    requires
        exists|k: int| 0 <= k < rows.len() && rows@[k] == HistoryRow::Batch(b),
    ensures
        pos < rows.len(),
        rows@[pos as int] == HistoryRow::Batch(b),
        forall|k: int| 0 <= k < pos ==> rows@[k] != HistoryRow::Batch(b),
{
    let mut i: usize = 0;
    while i < rows.len()
        invariant
            i <= rows.len(),
            forall|k: int| 0 <= k < i ==> rows@[k] != HistoryRow::Batch(b),
            exists|k: int| 0 <= k < rows.len() && rows@[k] == HistoryRow::Batch(b),
        decreases rows.len() - i,
    {
        if rows[i] == HistoryRow::Batch(b) {
            return i;
        }
        i = i + 1;
    }
    i
}

/// Handles a key on the History tab (outside the revert confirmation): moves
/// the selection, expands or collapses batches and sprint entries, and says
/// what else the key asks for.
pub fn history_handle_key(
    batches: &[HistoryBatch],
    jira_ids: &[String],
    selected: &mut usize,
    expanded: &mut Vec<String>,
    key: Key,
) -> (action: HistoryAction)
    requires
        key == Key::PageDown ==> *old(selected) + 10 <= usize::MAX,
    ensures
        (*final(selected), id_set(final(expanded)@), action) == spec_history_key(
            batches@,
            views(jira_ids@),
            *old(selected),
            id_set(old(expanded)@),
            key,
        ),
{
    let ghost jv = views(jira_ids@);
    let ghost e0 = id_set(expanded@);
    let jc = jira_ids.len();
    if batches.len() == 0 && jc == 0 {
        return HistoryAction::Nothing;
    }
    let rows = build_flat_rows(batches, expanded, jc);
    proof {
        lemma_rows_in_range(batches@, e0, jc as nat);
    }
    let max_index = if rows.len() > 0 { rows.len() - 1 } else { 0 };
    if handle_list_navigation(key, selected, max_index) {
        return HistoryAction::Nothing;
    }
    let row: Option<HistoryRow> = if *selected < rows.len() { Some(rows[*selected]) } else { None };
    proof {
        if *selected < rows.len() {
            assert(rows_in_range(rows@, batches@.len() as int, jc as int));
        }
    }
    match key {
        Key::Left | Key::Char('h') => {
            match row {
                Some(HistoryRow::Batch(b)) => {
                    remove_id(expanded, batches[b].id.as_str());
                },
                Some(HistoryRow::Day(b, _)) => {
                    remove_id(expanded, batches[b].id.as_str());
                    let new_rows = build_flat_rows(batches, expanded, jc);
                    proof {
                        law_header_position(batches@, id_set(expanded@), jc as nat, b as int);
                    }
                    let pos = find_header(&new_rows, b);
                    proof {
                        let hp = header_position(batches@, id_set(expanded@), b as int);
                        if (pos as int) < hp {
                        } else if (pos as int) > hp {
                            assert(new_rows@[hp] == HistoryRow::Batch(b));
                        }
                    }
                    *selected = pos;
                },
                Some(HistoryRow::JiraOnly(j)) => {
                    assert(jv[j as int] == jira_ids@[j as int]@);
                    remove_id(expanded, jira_ids[j].as_str());
                },
                None => {},
            }
            HistoryAction::Nothing
        },
        Key::Right | Key::Char('l') => {
            match row {
                Some(HistoryRow::Batch(b)) => {
                    insert_id(expanded, batches[b].id.clone());
                },
                Some(HistoryRow::JiraOnly(j)) => {
                    assert(jv[j as int] == jira_ids@[j as int]@);
                    insert_id(expanded, jira_ids[j].clone());
                },
                _ => {},
            }
            HistoryAction::Nothing
        },
        Key::Enter => {
            match row {
                Some(HistoryRow::Batch(b)) => {
                    if ids_contain(expanded, batches[b].id.as_str()) {
                        remove_id(expanded, batches[b].id.as_str());
                        let new_rows = build_flat_rows(batches, expanded, jc);
                        let new_max = if new_rows.len() > 0 { new_rows.len() - 1 } else { 0 };
                        if *selected > new_max {
                            *selected = new_max;
                        }
                    } else {
                        insert_id(expanded, batches[b].id.clone());
                    }
                },
                Some(HistoryRow::JiraOnly(j)) => {
                    assert(jv[j as int] == jira_ids@[j as int]@);
                    if ids_contain(expanded, jira_ids[j].as_str()) {
                        remove_id(expanded, jira_ids[j].as_str());
                    } else {
                        insert_id(expanded, jira_ids[j].clone());
                    }
                },
                _ => {},
            }
            HistoryAction::Nothing
        },
        Key::Delete => {
            match row {
                Some(HistoryRow::Batch(b)) => HistoryAction::ConfirmRevert(b),
                _ => HistoryAction::Nothing,
            }
        },
        Key::Char('D') => {
            match row {
                Some(HistoryRow::Batch(b)) => HistoryAction::DeleteHistory(b),
                _ => HistoryAction::Nothing,
            }
        },
        Key::Char('c') | Key::Char('C') => {
            match row {
                Some(HistoryRow::JiraOnly(j)) => HistoryAction::ImportJiraOnly(j),
                _ => HistoryAction::CreateRecoveryHistory,
            }
        },
        Key::PageUp => {
            *selected = selected.saturating_sub(10);
            HistoryAction::Nothing
        },
        Key::PageDown => {
            let further = *selected + 10;
            *selected = if further < max_index { further } else { max_index };
            HistoryAction::Nothing
        },
        _ => HistoryAction::Nothing,
    }
}

/// The popup that guards a revert: the user retypes the batch's total hours.
pub struct RevertConfirmationState {
    pub history_id: String,
    pub user_input: String,
    /// Set while the revert runs; keys are then ignored.
    pub reverting: bool,
}

/// What a key in the revert confirmation leads to.
#[derive(Debug, Clone, Copy, PartialEq, Eq, Structural)]
pub enum RevertOutcome {
    /// The key changed nothing.
    Ignored,
    /// The typed hours changed.
    Edited,
    /// The popup is dismissed.
    Closed,
    /// The hours were confirmed: revert the batch.
    Revert,
    /// The hours typed are not the batch's total.
    WrongHours,
}

/// Characters accepted in the hours field.
pub open spec fn is_hours_char(c: char) -> bool {
    ('0' <= c && c <= '9') || c == '.'
}

/// The hours field after `key`.
pub open spec fn spec_edit_hours(input: Seq<char>, key: Key) -> Seq<char> {
    match key {
        Key::Char(c) => if is_hours_char(c) { input.push(c) } else { input },
        Key::Backspace => if input.len() > 0 { input.drop_last() } else { input },
        _ => input,
    }
}

/// The outcome of `key`; `hours_match` tells, for Enter, whether the typed
/// hours parse and agree with the batch's total to one decimal (`None` when
/// they do not parse or the batch is gone).
pub open spec fn spec_revert_outcome(reverting: bool, key: Key, hours_match: Option<bool>) -> RevertOutcome {
    if reverting {
        RevertOutcome::Ignored
    } else {
        match key {
            Key::Char(c) => if is_hours_char(c) { RevertOutcome::Edited } else { RevertOutcome::Ignored },
            Key::Backspace => RevertOutcome::Edited,
            Key::Enter => match hours_match {
                Some(true) => RevertOutcome::Revert,
                Some(false) => RevertOutcome::WrongHours,
                None => RevertOutcome::Ignored,
            },
            Key::Esc => RevertOutcome::Closed,
            _ => RevertOutcome::Ignored,
        }
    }
}

impl RevertConfirmationState {
    /// A fresh confirmation for the batch with history id `history_id`.
    pub fn new(history_id: String) -> (s: Self)
        ensures
            s.history_id@ == history_id@,
            s.user_input@.len() == 0,
            !s.reverting,
    {
        RevertConfirmationState { history_id, user_input: String::new(), reverting: false }
    }

    /// Handles a key while the confirmation is shown.
    pub fn handle_key(&mut self, key: Key, hours_match: Option<bool>) -> (outcome: RevertOutcome)
        ensures
            outcome == spec_revert_outcome(old(self).reverting, key, hours_match),
            final(self).user_input@ == if old(self).reverting {
                old(self).user_input@
            } else {
                spec_edit_hours(old(self).user_input@, key)
            },
            final(self).history_id == old(self).history_id,
            final(self).reverting == old(self).reverting,
    {
        if self.reverting {
            return RevertOutcome::Ignored;
        }
        match key {
            Key::Char(c) => {
                if ('0' <= c && c <= '9') || c == '.' {
                    let mut chars = chars_of(self.user_input.as_str());
                    chars.push(c);
                    self.user_input = string_from_chars(chars.as_slice());
                    RevertOutcome::Edited
                } else {
                    RevertOutcome::Ignored
                }
            },
            Key::Backspace => {
                let mut chars = chars_of(self.user_input.as_str());
                if chars.len() > 0 {
                    chars.pop();
                    proof {
                        assert(chars@ == old(self).user_input@.drop_last());
                    }
                    self.user_input = string_from_chars(chars.as_slice());
                }
                RevertOutcome::Edited
            },
            Key::Enter => match hours_match {
                Some(true) => RevertOutcome::Revert,
                Some(false) => RevertOutcome::WrongHours,
                None => RevertOutcome::Ignored,
            },
            Key::Esc => RevertOutcome::Closed,
            _ => RevertOutcome::Ignored,
        }
    }
}

/// A sprint's id and time window, in seconds since the Unix epoch (UTC).
#[derive(Debug, Clone, Copy, PartialEq, Eq, Structural)]
pub struct SprintWindow {
    pub id: usize,
    pub start: Option<i64>,
    pub end: Option<i64>,
}

/// Day number (see `calendar`) of the UTC date of an instant; 1970-01-01 is day 719163.
pub open spec fn utc_day(timestamp: int) -> int {
    timestamp / 86400 + 719163
}

/// The UTC day of an instant.
pub fn utc_day_of(timestamp: i64) -> (d: i64)
    ensures
        d == utc_day(timestamp as int),
{
    if timestamp >= 0 {
        let q = (timestamp as u64 / 86400) as i64;
        proof {
            assert(q == timestamp as int / 86400);
        }
        q + 719163
    } else {
        let n: u64 = (-(timestamp + 1)) as u64;
        let q: u64 = n / 86400;
        proof {
            let r = n as int % 86400;
            assert(n as int == q as int * 86400 + r) by (nonlinear_arith)
                requires
                    q as int == n as int / 86400,
                    r == n as int % 86400,
            ;
            assert(timestamp as int == (-(q as int) - 1) * 86400 + (86399 - r)) by (nonlinear_arith)
                requires
                    n as int == q as int * 86400 + r,
                    timestamp as int == -(n as int) - 1,
            ;
            vstd::arithmetic::div_mod::lemma_fundamental_div_mod_converse(
                timestamp as int,
                86400,
                -(q as int) - 1,
                86399 - r,
            );
        }
        -(q as i64) - 1 + 719163
    }
}

/// Some local worklog was pushed as the Jira worklog with id `id`.
pub open spec fn tracked_by(local: Seq<LocalWorklogEntry>, id: Seq<char>) -> bool {
    exists|i: int| 0 <= i < local.len() && pushed_as(#[trigger] local[i], id)
}

/// The local worklog was pushed as the Jira worklog with id `id`.
pub open spec fn pushed_as(l: LocalWorklogEntry, id: Seq<char>) -> bool {
    match l.worklog_id {
        Some(w) => w@ == id,
        None => false,
    }
}

/// A worklog started on `day` falls within the sprint's first and last UTC days.
pub open spec fn in_window(sprint: SprintWindow, day: int) -> bool {
    match (sprint.start, sprint.end) {
        (Some(a), Some(b)) => utc_day(a as int) <= day <= utc_day(b as int),
        _ => false,
    }
}

/// The Jira worklogs among the first `n` that no local worklog tracks and
/// that fall within the sprint, by index, in order.
pub open spec fn sprint_untracked(
    local: Seq<LocalWorklogEntry>,
    jira: Seq<JiraWorklogEntry>,
    sprint: SprintWindow,
    n: int,
) -> Seq<usize>
    decreases n,
{
    if n <= 0 {
        Seq::empty()
    } else {
        let rest = sprint_untracked(local, jira, sprint, n - 1);
        if !tracked_by(local, jira[n - 1].id@) && in_window(sprint, jira[n - 1].day as int) {
            rest.push((n - 1) as usize)
        } else {
            rest
        }
    }
}

/// A sprint is listed when some untracked Jira worklog falls within it.
pub open spec fn has_untracked(local: Seq<LocalWorklogEntry>, jira: Seq<JiraWorklogEntry>, sprint: SprintWindow) -> bool {
    sprint_untracked(local, jira, sprint, jira.len() as int).len() > 0
}

/// Sprint `a` is listed before sprint `b`: it started later, or at the same
/// instant and comes first in the sprint list.
pub open spec fn listed_before(sprints: Seq<SprintWindow>, a: usize, b: usize) -> bool {
    let sa = sprints[a as int].start.unwrap();
    let sb = sprints[b as int].start.unwrap();
    sa > sb || (sa == sb && a < b)
}

/// Whether any local worklog was pushed as the Jira worklog `id`.
fn is_tracked(local: &[LocalWorklogEntry], id: &str) -> (b: bool)
    ensures
        b == tracked_by(local@, id@),
{
    let mut i: usize = 0;
    while i < local.len()
        invariant
            i <= local.len(),
            forall|k: int| 0 <= k < i ==> !pushed_as(#[trigger] local@[k], id@),
        decreases local.len() - i,
    {
        match &local[i].worklog_id {
            Some(w) => {
                if str_equal(w.as_str(), id) {
                    return true;
                }
            },
            None => {},
        }
        i = i + 1;
    }
    false
}

proof fn lemma_untracked_bounds(local: Seq<LocalWorklogEntry>, jira: Seq<JiraWorklogEntry>, sprint: SprintWindow, n: int)
    requires
        0 <= n <= jira.len(),
    ensures
        forall|k: int| 0 <= k < sprint_untracked(local, jira, sprint, n).len() ==>
            (#[trigger] sprint_untracked(local, jira, sprint, n)[k]) < n,
        sprint_untracked(local, jira, sprint, n).len() > 0 ==> sprint.start is Some && sprint.end is Some,
    decreases n,
{
    if n > 0 {
        lemma_untracked_bounds(local, jira, sprint, n - 1);
        let rest = sprint_untracked(local, jira, sprint, n - 1);
        let all = sprint_untracked(local, jira, sprint, n);
        assert forall|k: int| 0 <= k < all.len() implies (#[trigger] all[k]) < n by {
            if k < rest.len() {
                assert(all[k] == rest[k]);
            }
        }
    }
}

/// The untracked Jira worklogs of one sprint, by index.
fn untracked_in_sprint(
    local: &[LocalWorklogEntry],
    jira: &[JiraWorklogEntry],
    untracked: &Vec<bool>,
    sprint: SprintWindow,
) -> (picked: Vec<usize>)
    requires
        untracked@.len() == jira@.len(),
        forall|j: int| 0 <= j < jira@.len() ==> untracked@[j] == !tracked_by(local@, (#[trigger] jira@[j]).id@),
    ensures
        picked@ == sprint_untracked(local@, jira@, sprint, jira@.len() as int),
{
    let mut picked: Vec<usize> = Vec::new();
    let (first, last) = match (sprint.start, sprint.end) {
        (Some(a), Some(b)) => (utc_day_of(a), utc_day_of(b)),
        _ => {
            let ghost n = jira@.len() as int;
            proof {
                lemma_none_untracked(local@, jira@, sprint, n);
            }
            return picked;
        },
    };
    let mut j: usize = 0;
    while j < jira.len()
        invariant
            j <= jira.len(),
            untracked@.len() == jira@.len(),
            forall|k: int| 0 <= k < jira@.len() ==> untracked@[k] == !tracked_by(local@, (#[trigger] jira@[k]).id@),
            sprint.start is Some && first == utc_day(sprint.start.unwrap() as int),
            sprint.end is Some && last == utc_day(sprint.end.unwrap() as int),
            picked@ == sprint_untracked(local@, jira@, sprint, j as int),
        decreases jira.len() - j,
    {
        let day = jira[j].day as i64;
        if untracked[j] && first <= day && day <= last {
            picked.push(j);
        }
        j = j + 1;
    }
    picked
}

proof fn lemma_none_untracked(local: Seq<LocalWorklogEntry>, jira: Seq<JiraWorklogEntry>, sprint: SprintWindow, n: int)
    requires
        !(sprint.start is Some && sprint.end is Some),
    ensures
        sprint_untracked(local, jira, sprint, n) == Seq::<usize>::empty(),
    decreases n,
{
    if n > 0 {
        lemma_none_untracked(local, jira, sprint, n - 1);
    }
}

/// The sprints with Jira worklogs that no local history tracks, each with
/// those worklogs (by index, in order): most recently started sprint first,
/// sprints started at the same instant in list order.
pub fn jira_only_by_sprint(
    local: &[LocalWorklogEntry],
    jira: &[JiraWorklogEntry],
    sprints: &[SprintWindow],
) -> (entries: Vec<(usize, Vec<usize>)>)
    ensures
        forall|k: int|
            0 <= k < entries@.len() ==> {
                let (s, picked) = #[trigger] entries@[k];
                &&& s < sprints@.len()
                &&& has_untracked(local@, jira@, sprints@[s as int])
                &&& picked@ == sprint_untracked(local@, jira@, sprints@[s as int], jira@.len() as int)
            },
        forall|s: int|
            0 <= s < sprints@.len() && has_untracked(local@, jira@, #[trigger] sprints@[s]) ==> exists|k: int|
                0 <= k < entries@.len() && entries@[k].0 == s,
        forall|a: int, b: int|
            0 <= a < b < entries@.len() ==> listed_before(sprints@, (#[trigger] entries@[a]).0, (#[trigger] entries@[b]).0),
{
    let mut untracked: Vec<bool> = Vec::new();
    let mut j: usize = 0;
    while j < jira.len()
        invariant
            j <= jira.len(),
            untracked@.len() == j,
            forall|k: int| 0 <= k < j ==> untracked@[k] == !tracked_by(local@, (#[trigger] jira@[k]).id@),
        decreases jira.len() - j,
    {
        let t = is_tracked(local, jira[j].id.as_str());
        untracked.push(!t);
        j = j + 1;
    }
    let mut entries: Vec<(usize, Vec<usize>)> = Vec::new();
    let mut i: usize = 0;
    while i < sprints.len()
        invariant
            i <= sprints.len(),
            untracked@.len() == jira@.len(),
            forall|k: int| 0 <= k < jira@.len() ==> untracked@[k] == !tracked_by(local@, (#[trigger] jira@[k]).id@),
            forall|k: int|
                0 <= k < entries@.len() ==> {
                    let (s, picked) = #[trigger] entries@[k];
                    &&& s < i
                    &&& sprints@[s as int].start is Some
                    &&& has_untracked(local@, jira@, sprints@[s as int])
                    &&& picked@ == sprint_untracked(local@, jira@, sprints@[s as int], jira@.len() as int)
                },
            forall|s: int|
                0 <= s < i && has_untracked(local@, jira@, #[trigger] sprints@[s]) ==> exists|k: int|
                    0 <= k < entries@.len() && entries@[k].0 == s,
            forall|a: int, b: int|
                0 <= a < b < entries@.len() ==> listed_before(sprints@, (#[trigger] entries@[a]).0, (#[trigger] entries@[b]).0),
        decreases sprints.len() - i,
    {
        let sprint = sprints[i];
        let picked = untracked_in_sprint(local, jira, &untracked, sprint);
        if picked.len() > 0 {
            proof {
                lemma_untracked_bounds(local@, jira@, sprint, jira@.len() as int);
            }
            let start = sprint.start.unwrap();
            let mut p: usize = 0;
            while p < entries.len() && sprints[entries[p].0].start.unwrap() >= start
                invariant
                    p <= entries@.len(),
                    i < sprints@.len(),
                    forall|k: int| 0 <= k < entries@.len() ==> (#[trigger] entries@[k]).0 < i && sprints@[entries@[k].0 as int].start is Some,
                    forall|k: int| 0 <= k < p ==> sprints@[(#[trigger] entries@[k]).0 as int].start.unwrap() >= start,
                decreases entries@.len() - p,
            {
                p = p + 1;
            }
            let ghost before = entries@;
            entries.insert(p, (i, picked));
            proof {
                assert(entries@ == before.insert(p as int, entries@[p as int]));
                assert forall|a: int, b: int| 0 <= a < b < entries@.len() implies listed_before(
                    sprints@,
                    (#[trigger] entries@[a]).0,
                    (#[trigger] entries@[b]).0,
                ) by {
                    if b < p {
                        assert(entries@[a] == before[a] && entries@[b] == before[b]);
                    } else if b == p {
                        assert(entries@[a] == before[a]);
                    } else if a < p {
                        assert(entries@[a] == before[a] && entries@[b] == before[b - 1]);
                        if b - 1 > p {
                            assert(listed_before(sprints@, before[p as int].0, before[b - 1].0));
                        }
                    } else if a == p {
                        assert(entries@[b] == before[b - 1]);
                        if b - 1 > p {
                            assert(listed_before(sprints@, before[p as int].0, before[b - 1].0));
                        }
                    } else {
                        assert(entries@[a] == before[a - 1] && entries@[b] == before[b - 1]);
                    }
                }
                assert forall|s: int| 0 <= s <= i && has_untracked(local@, jira@, #[trigger] sprints@[s]) implies exists|k: int|
                    0 <= k < entries@.len() && entries@[k].0 == s by {
                    if s == i {
                        assert(entries@[p as int].0 == s);
                    } else {
                        let k = choose|k: int| 0 <= k < before.len() && before[k].0 == s;
                        if k < p {
                            assert(entries@[k].0 == s);
                        } else {
                            assert(entries@[k + 1].0 == s);
                        }
                    }
                }
            }
        } else {
            assert forall|s: int| 0 <= s <= i && has_untracked(local@, jira@, #[trigger] sprints@[s]) implies exists|k: int|
                0 <= k < entries@.len() && entries@[k].0 == s by {
                if s == i {
                    assert(picked@.len() == 0);
                }
            }
        }
        i = i + 1;
    }
    entries
}

/// The id that remembers the expansion of the untracked entry of a sprint.
pub open spec fn jira_only_virtual_id(sprint_id: usize) -> Seq<char> {
    "__jira_only__"@ + decimal(sprint_id as nat)
}

/// The virtual id of a sprint's untracked entry: `__jira_only__` and the sprint id.
pub fn jira_only_id(sprint_id: usize) -> (id: String)
    ensures
        id@ == jira_only_virtual_id(sprint_id),
{
    let prefix = "__jira_only__";
    proof {
        reveal_strlit("__jira_only__");
    }
    let mut chars = chars_of(prefix);
    push_decimal(&mut chars, sprint_id as u64);
    string_from_chars(chars.as_slice())
}

/// Total seconds of the worklogs `(day, seconds)` that started on `day`.
pub open spec fn day_seconds(worklogs: Seq<(i32, i64)>, day: i32) -> int
    decreases worklogs.len(),
{
    if worklogs.len() == 0 {
        0
    } else {
        day_seconds(worklogs.drop_last(), day) + if worklogs.last().0 == day {
            worklogs.last().1 as int
        } else {
            0
        }
    }
}

/// Number of the worklogs that started on `day`.
pub open spec fn day_count(worklogs: Seq<(i32, i64)>, day: i32) -> nat
    decreases worklogs.len(),
{
    if worklogs.len() == 0 {
        0
    } else {
        day_count(worklogs.drop_last(), day) + if worklogs.last().0 == day {
            1nat
        } else {
            0nat
        }
    }
}

/// The seconds of every day stay within `i64` however far the worklogs are summed.
pub open spec fn day_sums_fit(worklogs: Seq<(i32, i64)>) -> bool {
    forall|k: int, day: i32| 0 <= k <= worklogs.len() ==> i64::MIN <= #[trigger] day_seconds(worklogs.take(k), day) <= i64::MAX
}

proof fn lemma_day_count_bounded(worklogs: Seq<(i32, i64)>, day: i32)
    ensures
        day_count(worklogs, day) <= worklogs.len(),
    decreases worklogs.len(),
{
    if worklogs.len() > 0 {
        lemma_day_count_bounded(worklogs.drop_last(), day);
    }
}

/// The seconds and the number of a batch's worklogs, given as `(day, seconds)`,
/// on `day`.
pub fn day_totals(worklogs: &[(i32, i64)], day: i32) -> (totals: (i64, usize))
    requires
        day_sums_fit(worklogs@),
    ensures
        totals.0 == day_seconds(worklogs@, day),
        totals.1 == day_count(worklogs@, day),
{
    let mut secs: i64 = 0;
    let mut count: usize = 0;
    let mut i: usize = 0;
    while i < worklogs.len()
        invariant
            0 <= i <= worklogs@.len(),
            day_sums_fit(worklogs@),
            secs == day_seconds(worklogs@.take(i as int), day),
            count == day_count(worklogs@.take(i as int), day),
            count <= i,
        decreases worklogs@.len() - i,
    {
        assert(worklogs@.take(i + 1).drop_last() =~= worklogs@.take(i as int));
        assert(worklogs@.take(i + 1).last() == worklogs@[i as int]);
        let (d, t) = worklogs[i];
        if d == day {
            assert(i64::MIN <= day_seconds(worklogs@.take(i + 1), day) <= i64::MAX);
            secs = secs + t;
            count = count + 1;
        }
        i = i + 1;
    }
    assert(worklogs@.take(worklogs@.len() as int) =~= worklogs@);
    (secs, count)
}

/// The longest day of a batch, in seconds, over the days `days`; at least 1
/// (the scale of the day bars).
pub open spec fn spec_longest_day(worklogs: Seq<(i32, i64)>, days: Seq<i32>) -> int
    decreases days.len(),
{
    if days.len() == 0 {
        1
    } else {
        let rest = spec_longest_day(worklogs, days.drop_last());
        let here = day_seconds(worklogs, days.last());
        if here > rest {
            here
        } else {
            rest
        }
    }
}

proof fn lemma_longest_day_bounds(worklogs: Seq<(i32, i64)>, days: Seq<i32>)
    requires
        day_sums_fit(worklogs),
    ensures
        1 <= spec_longest_day(worklogs, days) <= i64::MAX,
    decreases days.len(),
{
    if days.len() > 0 {
        lemma_longest_day_bounds(worklogs, days.drop_last());
        assert(worklogs.take(worklogs.len() as int) =~= worklogs);
        assert(i64::MIN <= day_seconds(worklogs.take(worklogs.len() as int), days.last()) <= i64::MAX);
    }
}

/// The scale of a batch's day bars covers every day: it is at least 1 and
/// at least the total seconds of each listed day, and it is the total of
/// one of those days unless it is 1.
pub proof fn law_longest_day_is_the_maximum(worklogs: Seq<(i32, i64)>, days: Seq<i32>)
    ensures
        spec_longest_day(worklogs, days) >= 1,
        forall|k: int| 0 <= k < days.len() ==> spec_longest_day(worklogs, days) >= day_seconds(worklogs, #[trigger] days[k]),
        spec_longest_day(worklogs, days) == 1 || exists|k: int|
            0 <= k < days.len() && spec_longest_day(worklogs, days) == day_seconds(worklogs, #[trigger] days[k]),
    decreases days.len(),
{
    if days.len() > 0 {
        let rest = days.drop_last();
        law_longest_day_is_the_maximum(worklogs, rest);
        assert forall|k: int| 0 <= k < days.len() implies spec_longest_day(worklogs, days) >= day_seconds(
            worklogs,
            #[trigger] days[k],
        ) by {
            if k < days.len() - 1 {
                assert(days[k] == rest[k]);
            }
        }
        if spec_longest_day(worklogs, days) != 1 {
            if spec_longest_day(worklogs, days) == day_seconds(worklogs, days.last()) {
                assert(days[days.len() - 1] == days.last());
            } else {
                let k = choose|k: int| 0 <= k < rest.len() && spec_longest_day(worklogs, rest) == day_seconds(worklogs, #[trigger] rest[k]);
                assert(days[k] == rest[k]);
            }
        }
    }
}

/// The scale of a batch's day bars: its longest day in seconds, at least 1.
pub fn longest_day(worklogs: &[(i32, i64)], days: &[i32]) -> (max: i64)
    requires
        day_sums_fit(worklogs@),
    ensures
        max == spec_longest_day(worklogs@, days@),
        max >= 1,
{
    let mut max: i64 = 1;
    let mut i: usize = 0;
    while i < days.len()
        invariant
            0 <= i <= days@.len(),
            day_sums_fit(worklogs@),
            max == spec_longest_day(worklogs@, days@.take(i as int)),
        decreases days@.len() - i,
    {
        assert(days@.take(i + 1).drop_last() =~= days@.take(i as int));
        let (secs, _) = day_totals(worklogs, days[i]);
        if secs > max {
            max = secs;
        }
        i = i + 1;
    }
    proof {
        assert(days@.take(days@.len() as int) =~= days@);
        lemma_longest_day_bounds(worklogs@, days@);
    }
    max
}

/// How a batch's worklog count is highlighted: over 100, over 50, over 10, or fewer.
#[derive(Debug, Clone, Copy, PartialEq, Eq, Structural)]
pub enum CountTier {
    VeryMany,
    Many,
    Several,
    Few,
}

/// The highlight of a batch of `count` worklogs.
pub fn count_tier(count: usize) -> (t: CountTier)
    ensures
        t == (if count > 100 {
            CountTier::VeryMany
        } else if count > 50 {
            CountTier::Many
        } else if count > 10 {
            CountTier::Several
        } else {
            CountTier::Few
        }),
{
    if count > 100 {
        CountTier::VeryMany
    } else if count > 50 {
        CountTier::Many
    } else if count > 10 {
        CountTier::Several
    } else {
        CountTier::Few
    }
}

/// Whether row `i`, a day of a batch, is drawn as that batch's last day:
/// the next row is not a day of the same batch.
pub open spec fn spec_is_last_day(rows: Seq<HistoryRow>, i: int) -> bool {
    match rows[i] {
        HistoryRow::Day(b, _) => !(i + 1 < rows.len() && (rows[i + 1] matches HistoryRow::Day(b2, _) && b2 == b)),
        _ => false,
    }
}

/// Whether the day row at `i` closes its batch's branch in the list.
pub fn is_last_day(rows: &[HistoryRow], i: usize) -> (b: bool)
    requires
        i < rows@.len(),
    ensures
        b == spec_is_last_day(rows@, i as int),
{
    match rows[i] {
        HistoryRow::Day(b, _) => {
            if i + 1 < rows.len() {
                match rows[i + 1] {
                    HistoryRow::Day(b2, _) => b2 != b,
                    _ => true,
                }
            } else {
                true
            }
        },
        _ => false,
    }
}

/// How many worklogs an expanded Jira-only sprint lists (at most five), and
/// whether a line tells of the others.
pub fn jira_only_preview(total: usize) -> (p: (usize, bool))
    ensures
        p.0 == (if total < 5 { total } else { 5 }),
        p.1 == (total > 5),
{
    (if total < 5 { total } else { 5 }, total > 5)
}

} // verus!
