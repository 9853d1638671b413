//! A bounded history of triggered captures.
//!
//! The history keeps captures in arrival order under two budgets, a number of
//! entries and a number of in-memory bytes. When a new capture pushes it over
//! either budget, the oldest unpinned entries leave first; pinned entries are
//! never evicted. One entry may be selected; navigation, edits and removals
//! never leave the selection on an entry that is gone.

use std::collections::VecDeque;
use std::sync::Arc;

use vstd::prelude::*;

use crate::scope_format::numbered_message;
use crate::trigger::{capture_byte_size, capture_bytes, TriggerCapture, TriggerCaptureV, TriggerConfig};

verus! {

pub const DEFAULT_CAPTURE_HISTORY_ENTRIES: usize = 100;

pub const DEFAULT_CAPTURE_HISTORY_BYTES: usize = 128 * 1024 * 1024;

/// Identity of one capture in a history.
#[derive(Clone, Copy, Debug, PartialEq, Eq, Structural, Hash)]
pub struct CaptureId(pub u64);

/// Where a capture came from.
#[derive(Clone, Debug, PartialEq, Eq)]
pub enum CaptureOrigin {
    Live,
    Recording { source_id: String, trigger_ordinal: usize },
}

/// Where a capture's rows are.
#[derive(Clone, Debug)]
pub enum CapturePayload {
    InMemory(Arc<TriggerCapture>),
    RecordingRange { start_sample: u64, end_sample: u64 },
}

/// What is known to be missing or unusual in a capture.
#[derive(Clone, Copy, Debug, Default, PartialEq, Eq, Structural)]
pub struct CaptureQuality {
    pub auto_timeout: bool,
    pub contains_gap: bool,
    pub incomplete_pre: bool,
    pub incomplete_post: bool,
}

/// One entry of the history.
#[derive(Clone, Debug)]
pub struct CaptureEntry {
    pub id: CaptureId,
    pub origin: CaptureOrigin,
    pub payload: CapturePayload,
    pub trigger_config: TriggerConfig,
    pub trigger_sample_index: u64,
    pub trigger_timestamp: u64,
    pub label: String,
    pub note: String,
    pub pinned: bool,
    pub created_unix_ms: u64,
    pub approximate_bytes: usize,
    pub quality: CaptureQuality,
}

/// What an accepted insertion produced: the new id and, oldest first, the
/// ids of the entries it evicted.
#[derive(Clone, Debug, PartialEq, Eq)]
pub struct CaptureInsertOutcome {
    pub id: CaptureId,
    pub evicted: Vec<CaptureId>,
}

/// Why a history operation was refused.
#[derive(Clone, Copy, Debug, PartialEq, Eq, Structural)]
pub enum CaptureHistoryError {
    InvalidLimits,
    PinnedBudgetExceeded,
}

/// The words `message` gives for each refusal.
pub open spec fn capture_history_error_text(e: CaptureHistoryError) -> Seq<char> {
    match e {
        CaptureHistoryError::InvalidLimits => "capture history limits must be greater than zero"@,
        CaptureHistoryError::PinnedBudgetExceeded => "capture cannot be retained because pinned entries consume the history budget"@,
    }
}

impl CaptureHistoryError {
    /// The refusal in words.
    pub fn message(&self) -> (r: String)
        ensures
            r@ == capture_history_error_text(*self),
    {
        match self {
            CaptureHistoryError::InvalidLimits => "capture history limits must be greater than zero".to_string(),
            CaptureHistoryError::PinnedBudgetExceeded => "capture cannot be retained because pinned entries consume the history budget".to_string(),
        }
    }
}

pub enum CaptureOriginV {
    Live,
    Recording { source_id: Seq<char>, trigger_ordinal: usize },
}

pub enum CapturePayloadV {
    InMemory(TriggerCaptureV),
    RecordingRange { start_sample: u64, end_sample: u64 },
}

/// Mathematical content of an entry.
pub struct CaptureEntryV {
    pub id: CaptureId,
    pub origin: CaptureOriginV,
    pub payload: CapturePayloadV,
    pub trigger_config: TriggerConfig,
    pub trigger_sample_index: u64,
    pub trigger_timestamp: u64,
    pub label: Seq<char>,
    pub note: Seq<char>,
    pub pinned: bool,
    pub created_unix_ms: u64,
    pub approximate_bytes: usize,
    pub quality: CaptureQuality,
}

impl View for CaptureEntry {
    type V = CaptureEntryV;

    open spec fn view(&self) -> CaptureEntryV {
        CaptureEntryV {
            id: self.id,
            origin: match self.origin {
                CaptureOrigin::Live => CaptureOriginV::Live,
                CaptureOrigin::Recording { source_id, trigger_ordinal } => CaptureOriginV::Recording {
                    source_id: source_id@,
                    trigger_ordinal,
                },
            },
            payload: match self.payload {
                CapturePayload::InMemory(c) => CapturePayloadV::InMemory((*c)@),
                CapturePayload::RecordingRange { start_sample, end_sample } => CapturePayloadV::RecordingRange {
                    start_sample,
                    end_sample,
                },
            },
            trigger_config: self.trigger_config,
            trigger_sample_index: self.trigger_sample_index,
            trigger_timestamp: self.trigger_timestamp,
            label: self.label@,
            note: self.note@,
            pinned: self.pinned,
            created_unix_ms: self.created_unix_ms,
            approximate_bytes: self.approximate_bytes,
            quality: self.quality,
        }
    }
}

pub open spec fn views(s: Seq<CaptureEntry>) -> Seq<CaptureEntryV> {
    s.map_values(|e: CaptureEntry| e@)
}

/// The entries of a history, oldest first, and what it keeps beside them.
pub struct CaptureHistory {
    entries: VecDeque<CaptureEntry>,
    max_entries: usize,
    max_bytes: usize,
    in_memory_bytes: usize,
    next_id: u64,
    selected: Option<CaptureId>,
}

pub struct CaptureHistoryView {
    pub entries: Seq<CaptureEntryV>,
    pub max_entries: nat,
    pub max_bytes: nat,
    pub in_memory_bytes: nat,
    pub next_id: u64,
    pub selected: Option<CaptureId>,
}

impl View for CaptureHistory {
    type V = CaptureHistoryView;

    closed spec fn view(&self) -> CaptureHistoryView {
        CaptureHistoryView {
            entries: views(self.entries@),
            max_entries: self.max_entries as nat,
            max_bytes: self.max_bytes as nat,
            in_memory_bytes: self.in_memory_bytes as nat,
            next_id: self.next_id,
            selected: self.selected,
        }
    }
}

/// In-memory bytes an entry is charged: its size when its rows are held in
/// memory, nothing when they stay in a recording.
pub open spec fn entry_bytes(e: CaptureEntryV) -> nat {
    match e.payload {
        CapturePayloadV::InMemory(_) => e.approximate_bytes as nat,
        CapturePayloadV::RecordingRange { .. } => 0,
    }
}

/// In-memory bytes of all entries.
pub open spec fn held_bytes(s: Seq<CaptureEntryV>) -> nat
    decreases s.len(),
{
    if s.len() == 0 {
        0
    } else {
        held_bytes(s.drop_last()) + entry_bytes(s.last())
    }
}

/// Position of the first entry with this id, or -1.
pub open spec fn index_of(s: Seq<CaptureEntryV>, id: CaptureId) -> int
    decreases s.len(),
{
    if s.len() == 0 {
        -1
    } else {
        let r = index_of(s.drop_last(), id);
        if r >= 0 {
            r
        } else if s.last().id == id {
            s.len() - 1
        } else {
            -1
        }
    }
}

pub open spec fn has_id(s: Seq<CaptureEntryV>, id: CaptureId) -> bool {
    index_of(s, id) >= 0
}

/// Position of the oldest unpinned entry, or -1.
pub open spec fn first_unpinned(s: Seq<CaptureEntryV>) -> int
    decreases s.len(),
{
    if s.len() == 0 {
        -1
    } else {
        let r = first_unpinned(s.drop_last());
        if r >= 0 {
            r
        } else if !s.last().pinned {
            s.len() - 1
        } else {
            -1
        }
    }
}

/// The history's bookkeeping agrees with its entries.
pub open spec fn history_wf(h: CaptureHistoryView) -> bool {
    &&& h.max_entries > 0
    &&& h.max_bytes > 0
    &&& h.in_memory_bytes == held_bytes(h.entries)
    &&& ids_within(h.entries, h.next_id)
}

/// Every retained id is below the id counter, unless the counter has
/// saturated.
pub open spec fn ids_within(s: Seq<CaptureEntryV>, next: u64) -> bool {
    forall|i: int| 0 <= i < s.len() ==> (#[trigger] s[i]).id.0 < next || next == u64::MAX
}

proof fn lemma_ids_kept_on_clear(s: Seq<CaptureEntryV>, include_pinned: bool, next: u64)
    requires
        ids_within(s, next),
    ensures
        ids_within(kept_on_clear(s, include_pinned), next),
    decreases s.len(),
{
    if s.len() > 0 {
        let t = s.drop_last();
        assert(ids_within(t, next)) by {
            assert forall|i: int| 0 <= i < t.len() implies (#[trigger] t[i]).id.0 < next || next == u64::MAX by {
                assert(t[i] == s[i]);
            }
        }
        lemma_ids_kept_on_clear(t, include_pinned, next);
        let r = kept_on_clear(t, include_pinned);
        if !include_pinned && s.last().pinned {
            assert forall|i: int| 0 <= i < r.push(s.last()).len() implies (#[trigger] r.push(s.last())[i]).id.0 < next
                || next == u64::MAX by {
                if i == r.len() {
                    assert(s.last() == s[s.len() - 1]);
                }
            }
        }
    }
}

/// The selection, if any, names an entry that is present.
pub open spec fn selection_valid(h: CaptureHistoryView) -> bool {
    match h.selected {
        Some(id) => has_id(h.entries, id),
        None => true,
    }
}

pub open spec fn last_id(s: Seq<CaptureEntryV>) -> Option<CaptureId> {
    if s.len() == 0 {
        None
    } else {
        Some(s.last().id)
    }
}

/// Position of the selected entry, or -1 when nothing present is selected.
pub open spec fn selected_index(h: CaptureHistoryView) -> int {
    match h.selected {
        Some(id) => index_of(h.entries, id),
        None => -1,
    }
}

pub open spec fn with_selected(h: CaptureHistoryView, s: Option<CaptureId>) -> CaptureHistoryView {
    CaptureHistoryView { selected: s, ..h }
}

pub open spec fn with_entries(h: CaptureHistoryView, s: Seq<CaptureEntryV>) -> CaptureHistoryView {
    CaptureHistoryView { entries: s, ..h }
}

/// Position `select_previous` moves to: the one before the selected entry,
/// or the newest when nothing present is selected; -1 when there is none.
pub open spec fn previous_index(h: CaptureHistoryView) -> int {
    let i = selected_index(h);
    if i >= 0 {
        i - 1
    } else {
        h.entries.len() - 1
    }
}

/// Position `select_next` moves to: the one after the selected entry, or
/// the oldest when nothing is selected; -1 when the selected id is absent.
pub open spec fn next_index(h: CaptureHistoryView) -> int {
    match h.selected {
        Some(id) => if index_of(h.entries, id) >= 0 {
            index_of(h.entries, id) + 1
        } else {
            -1
        },
        None => 0,
    }
}

pub open spec fn pinned_as(e: CaptureEntryV, pinned: bool) -> CaptureEntryV {
    CaptureEntryV { pinned, ..e }
}

pub open spec fn edited(e: CaptureEntryV, label: Seq<char>, note: Seq<char>, pinned: bool) -> CaptureEntryV {
    CaptureEntryV { label, note, pinned, ..e }
}

/// The history after the entry at `i` left it; a selection of the removed id
/// moves to the entry that took its place, or to the new newest entry.
pub open spec fn removed_at(h: CaptureHistoryView, i: int) -> CaptureHistoryView {
    let id = h.entries[i].id;
    let rest = h.entries.remove(i);
    CaptureHistoryView {
        entries: rest,
        in_memory_bytes: held_bytes(rest),
        selected: if h.selected == Some(id) {
            if rest.len() == 0 {
                None
            } else if i < rest.len() {
                Some(rest[i].id)
            } else {
                Some(rest.last().id)
            }
        } else {
            h.selected
        },
        ..h
    }
}

/// The entries a clear keeps: the pinned ones, unless pinned entries go too.
pub open spec fn kept_on_clear(s: Seq<CaptureEntryV>, include_pinned: bool) -> Seq<CaptureEntryV>
    decreases s.len(),
{
    if s.len() == 0 {
        s
    } else {
        let r = kept_on_clear(s.drop_last(), include_pinned);
        if !include_pinned && s.last().pinned {
            r.push(s.last())
        } else {
            r
        }
    }
}

pub open spec fn cleared(h: CaptureHistoryView, include_pinned: bool) -> CaptureHistoryView {
    let kept = kept_on_clear(h.entries, include_pinned);
    CaptureHistoryView {
        entries: kept,
        in_memory_bytes: held_bytes(kept),
        selected: last_id(kept),
        ..h
    }
}

/// Whether the entries exceed either budget.
pub open spec fn over_budget(s: Seq<CaptureEntryV>, max_entries: nat, max_bytes: nat) -> bool {
    s.len() > max_entries || held_bytes(s) > max_bytes
}

/// Evicts the oldest unpinned entry while over budget; gives the entries
/// that stay and, oldest first, the ids that left.
pub open spec fn evict(s: Seq<CaptureEntryV>, max_entries: nat, max_bytes: nat) -> (
    Seq<CaptureEntryV>,
    Seq<CaptureId>,
)
    decreases s.len(),
{
    let i = first_unpinned(s);
    if over_budget(s, max_entries, max_bytes) && 0 <= i < s.len() {
        let r = evict(s.remove(i), max_entries, max_bytes);
        (r.0, seq![s[i].id] + r.1)
    } else {
        (s, Seq::empty())
    }
}

pub open spec fn digit_char(d: nat) -> char {
    (d + 48) as char
}

/// Decimal digits of `n`, most significant first.
pub open spec fn decimal(n: nat) -> Seq<char>
    decreases n,
{
    if n < 10 {
        seq![digit_char(n)]
    } else {
        decimal(n / 10).push(digit_char(n % 10))
    }
}

/// Label of a new live capture: `Capture ` and its id in decimal.
pub open spec fn capture_label(id: u64) -> Seq<char> {
    seq!['C', 'a', 'p', 't', 'u', 'r', 'e', ' '] + decimal(id as nat)
}

pub open spec fn sat_sub(a: int, b: int) -> int {
    if a > b {
        a - b
    } else {
        0
    }
}

/// The entry a live capture becomes. Its trigger row is the capture's
/// trigger position, clamped to the last captured row.
pub open spec fn new_live_entry(c: TriggerCaptureV, cfg: TriggerConfig, created: u64, id: u64) -> CaptureEntryV {
    let n = c.sample_indices.len();
    let tp = if c.trigger_position < sat_sub(n as int, 1) {
        c.trigger_position as int
    } else {
        sat_sub(n as int, 1)
    };
    let after = if c.trigger_position == usize::MAX {
        usize::MAX as int
    } else {
        c.trigger_position + 1
    };
    CaptureEntryV {
        id: CaptureId(id),
        origin: CaptureOriginV::Live,
        payload: CapturePayloadV::InMemory(c),
        trigger_config: cfg,
        trigger_sample_index: if tp < n {
            c.sample_indices[tp]
        } else {
            0
        },
        trigger_timestamp: if tp < c.timestamps.len() {
            c.timestamps[tp]
        } else {
            0
        },
        label: capture_label(id),
        note: Seq::empty(),
        pinned: false,
        created_unix_ms: created,
        approximate_bytes: capture_bytes(c) as usize,
        quality: CaptureQuality {
            auto_timeout: c.auto_timeout,
            contains_gap: false,
            incomplete_pre: c.trigger_position < cfg.pre_samples,
            incomplete_post: sat_sub(n as int, after) < cfg.post_samples,
        },
    }
}

pub open spec fn next_id_after(id: u64) -> u64 {
    if id == u64::MAX {
        id
    } else {
        (id + 1) as u64
    }
}

/// The entries and evicted ids once a new live entry has arrived.
pub open spec fn after_arrival(h: CaptureHistoryView, e: CaptureEntryV) -> (
    Seq<CaptureEntryV>,
    Seq<CaptureId>,
) {
    evict(h.entries.push(e), h.max_entries, h.max_bytes)
}

/// The selection after an accepted insertion of `id`.
pub open spec fn selection_after_insert(
    h: CaptureHistoryView,
    id: CaptureId,
    kept: Seq<CaptureEntryV>,
    evicted: Seq<CaptureId>,
    select_new: bool,
) -> Option<CaptureId> {
    let s = if select_new || h.selected is None {
        Some(id)
    } else {
        h.selected
    };
    match s {
        Some(x) => if evicted.contains(x) {
            last_id(kept)
        } else {
            s
        },
        None => s,
    }
}

proof fn lemma_index_of(s: Seq<CaptureEntryV>, id: CaptureId)
    ensures
        -1 <= index_of(s, id) < s.len(),
        index_of(s, id) >= 0 ==> s[index_of(s, id)].id == id,
        forall|j: int|
            0 <= j < s.len() && (index_of(s, id) < 0 || j < index_of(s, id)) ==> #[trigger] s[j].id
                != id,
    decreases s.len(),
{
    if s.len() > 0 {
        let t = s.drop_last();
        lemma_index_of(t, id);
        assert forall|j: int|
            0 <= j < s.len() && (index_of(s, id) < 0 || j < index_of(s, id)) implies #[trigger] s[j].id
                != id by {
            if j < t.len() {
                assert(t[j] == s[j]);
            }
        }
    }
}

proof fn lemma_has_id(s: Seq<CaptureEntryV>, id: CaptureId, j: int)
    requires
        0 <= j < s.len(),
        s[j].id == id,
    ensures
        has_id(s, id),
{
    lemma_index_of(s, id);
}

proof fn lemma_first_unpinned(s: Seq<CaptureEntryV>)
    ensures
        -1 <= first_unpinned(s) < s.len(),
        first_unpinned(s) >= 0 ==> !s[first_unpinned(s)].pinned,
        forall|j: int|
            0 <= j < s.len() && (first_unpinned(s) < 0 || j < first_unpinned(s)) ==> #[trigger] s[j].pinned,
    decreases s.len(),
{
    if s.len() > 0 {
        let t = s.drop_last();
        lemma_first_unpinned(t);
        assert forall|j: int|
            0 <= j < s.len() && (first_unpinned(s) < 0 || j < first_unpinned(s)) implies #[trigger] s[j].pinned by {
            if j < t.len() {
                assert(t[j] == s[j]);
            }
        }
    }
}

proof fn lemma_held_push(s: Seq<CaptureEntryV>, e: CaptureEntryV)
    ensures
        held_bytes(s.push(e)) == held_bytes(s) + entry_bytes(e),
{
    assert(s.push(e).drop_last() =~= s);
}

proof fn lemma_held_remove(s: Seq<CaptureEntryV>, i: int)
    requires
        0 <= i < s.len(),
    ensures
        held_bytes(s.remove(i)) + entry_bytes(s[i]) == held_bytes(s),
    decreases s.len(),
{
    if i == s.len() - 1 {
        assert(s.remove(i) =~= s.drop_last());
    } else {
        lemma_held_remove(s.drop_last(), i);
        assert(s.remove(i).drop_last() =~= s.drop_last().remove(i));
    }
}

proof fn lemma_held_update(s: Seq<CaptureEntryV>, i: int, e: CaptureEntryV)
    requires
        0 <= i < s.len(),
        entry_bytes(e) == entry_bytes(s[i]),
    ensures
        held_bytes(s.update(i, e)) == held_bytes(s),
    decreases s.len(),
{
    if i == s.len() - 1 {
        assert(s.update(i, e).drop_last() =~= s.drop_last());
    } else {
        lemma_held_update(s.drop_last(), i, e);
        assert(s.update(i, e).drop_last() =~= s.drop_last().update(i, e));
    }
}

proof fn lemma_has_id_remove(s: Seq<CaptureEntryV>, i: int, x: CaptureId)
    requires
        0 <= i < s.len(),
        has_id(s, x),
        s[i].id != x,
    ensures
        has_id(s.remove(i), x),
{
    lemma_index_of(s, x);
    let j = index_of(s, x);
    if j < i {
        lemma_has_id(s.remove(i), x, j);
    } else {
        lemma_has_id(s.remove(i), x, j - 1);
    }
}

proof fn lemma_has_id_update(s: Seq<CaptureEntryV>, i: int, e: CaptureEntryV, x: CaptureId)
    requires
        0 <= i < s.len(),
        e.id == s[i].id,
    ensures
        has_id(s.update(i, e), x) == has_id(s, x),
{
    lemma_index_of(s, x);
    lemma_index_of(s.update(i, e), x);
    if has_id(s, x) {
        lemma_has_id(s.update(i, e), x, index_of(s, x));
    }
    if has_id(s.update(i, e), x) {
        lemma_has_id(s, x, index_of(s.update(i, e), x));
    }
}

/// Eviction either brings the entries within budget or leaves only pinned
/// entries; an id present before is still present or among the evicted;
/// every pinned entry stays.
proof fn lemma_evict(s: Seq<CaptureEntryV>, me: nat, mb: nat)
    ensures
        !over_budget(evict(s, me, mb).0, me, mb) || first_unpinned(evict(s, me, mb).0) < 0,
        forall|x: CaptureId|
            has_id(s, x) ==> has_id(#[trigger] evict(s, me, mb).0, x) || evict(s, me, mb).1.contains(x),
        forall|e: CaptureEntryV| s.contains(e) && e.pinned ==> evict(s, me, mb).0.contains(e),
        forall|e: CaptureEntryV| evict(s, me, mb).0.contains(e) ==> s.contains(e),
    decreases s.len(),
{
    lemma_first_unpinned(s);
    let i = first_unpinned(s);
    if over_budget(s, me, mb) && 0 <= i < s.len() {
        let t = s.remove(i);
        lemma_evict(t, me, mb);
        let r = evict(t, me, mb);
        assert forall|x: CaptureId| has_id(s, x) implies has_id(#[trigger] evict(s, me, mb).0, x)
            || evict(s, me, mb).1.contains(x) by {
            if s[i].id == x {
                assert((seq![s[i].id] + r.1)[0] == x);
            } else {
                lemma_has_id_remove(s, i, x);
                if r.1.contains(x) {
                    let k = choose|k: int| 0 <= k < r.1.len() && r.1[k] == x;
                    assert((seq![s[i].id] + r.1)[k + 1] == x);
                }
            }
        }
        assert forall|e: CaptureEntryV| s.contains(e) && e.pinned implies evict(s, me, mb).0.contains(
            e,
        ) by {
            let j = choose|j: int| 0 <= j < s.len() && s[j] == e;
            if j < i {
                assert(t[j] == e);
            } else {
                assert(j != i);
                assert(t[j - 1] == e);
            }
            assert(t.contains(e));
            assert(evict(s, me, mb).0 == r.0);
        }
        assert forall|e: CaptureEntryV| evict(s, me, mb).0.contains(e) implies s.contains(e) by {
            assert(evict(s, me, mb).0 == r.0);
            assert(r.0.contains(e));
            assert(t.contains(e));
            let j = choose|j: int| 0 <= j < t.len() && t[j] == e;
            if j < i {
                assert(s[j] == t[j]);
            } else {
                assert(s[j + 1] == t[j]);
            }
        }
    }
}

/// The label of a new live capture: "Capture " and the id in decimal.
fn live_capture_label(id: u64) -> (s: String)
    ensures
        s@ == capture_label(id),
{
    let s = numbered_message("Capture ", id, "");
    proof {
        reveal_strlit("Capture ");
        reveal_strlit("");
    }
    assert(s@ =~= capture_label(id));
    s
}

fn find_index(entries: &VecDeque<CaptureEntry>, id: CaptureId) -> (r: Option<usize>)
    ensures
        match r {
            Some(i) => index_of(views(entries@), id) == i,
            None => index_of(views(entries@), id) < 0,
        },
{
    let ghost s = views(entries@);
    let mut i: usize = 0;
    while i < entries.len()
        invariant
            s == views(entries@),
            0 <= i <= entries@.len(),
            forall|j: int| 0 <= j < i ==> #[trigger] s[j].id != id,
        decreases entries@.len() - i,
    {
        if entries[i].id == id {
            proof {
                lemma_index_of(s, id);
                assert(s[i as int].id == id);
            }
            return Some(i);
        }
        assert(s[i as int].id != id);
        i = i + 1;
    }
    proof {
        lemma_index_of(s, id);
        if index_of(s, id) >= 0 {
            assert(s[index_of(s, id)].id != id);
        }
    }
    None
}

fn find_unpinned(entries: &VecDeque<CaptureEntry>) -> (r: Option<usize>)
    ensures
        match r {
            Some(i) => first_unpinned(views(entries@)) == i,
            None => first_unpinned(views(entries@)) < 0,
        },
{
    let ghost s = views(entries@);
    let mut i: usize = 0;
    while i < entries.len()
        invariant
            s == views(entries@),
            0 <= i <= entries@.len(),
            forall|j: int| 0 <= j < i ==> #[trigger] s[j].pinned,
        decreases entries@.len() - i,
    {
        if !entries[i].pinned {
            proof {
                lemma_first_unpinned(s);
                assert(!s[i as int].pinned);
            }
            return Some(i);
        }
        assert(s[i as int].pinned);
        i = i + 1;
    }
    proof {
        lemma_first_unpinned(s);
        if first_unpinned(s) >= 0 {
            assert(s[first_unpinned(s)].pinned);
        }
    }
    None
}

fn entry_in_memory_bytes(e: &CaptureEntry) -> (r: usize)
    ensures
        r == entry_bytes(e@),
{
    match &e.payload {
        CapturePayload::InMemory(_) => e.approximate_bytes,
        CapturePayload::RecordingRange { .. } => 0,
    }
}

fn ids_contain(ids: &Vec<CaptureId>, id: CaptureId) -> (r: bool)
    ensures
        r == ids@.contains(id),
{
    let mut i: usize = 0;
    while i < ids.len()
        invariant
            0 <= i <= ids@.len(),
            forall|j: int| 0 <= j < i ==> ids@[j] != id,
        decreases ids@.len() - i,
    {
        if ids[i] == id {
            assert(ids@[i as int] == id);
            return true;
        }
        i = i + 1;
    }
    false
}

fn last_entry_id(entries: &VecDeque<CaptureEntry>) -> (r: Option<CaptureId>)
    ensures
        r == last_id(views(entries@)),
{
    let n = entries.len();
    if n == 0 {
        None
    } else {
        Some(entries[n - 1].id)
    }
}

/// The history after a new entry arrived: over-budget eviction of the
/// oldest unpinned entries, and, if the new entry stayed, the new selection.
pub open spec fn inserted(h: CaptureHistoryView, e: CaptureEntryV, select_new: bool) -> CaptureHistoryView {
    let kept = after_arrival(h, e).0;
    let evicted = after_arrival(h, e).1;
    CaptureHistoryView {
        entries: kept,
        in_memory_bytes: held_bytes(kept),
        next_id: next_id_after(h.next_id),
        selected: if has_id(kept, e.id) {
            selection_after_insert(h, e.id, kept, evicted, select_new)
        } else {
            h.selected
        },
        ..h
    }
}

impl CaptureHistory {
    /// An empty history with these budgets; refused when either is zero.
    pub fn new(max_entries: usize, max_bytes: usize) -> (r: Result<Self, CaptureHistoryError>)
        ensures
            r is Err <==> (max_entries == 0 || max_bytes == 0),
            r is Err ==> r->Err_0 == CaptureHistoryError::InvalidLimits,
            r matches Ok(h) ==> {
                &&& h@.entries.len() == 0
                &&& h@.max_entries == max_entries
                &&& h@.max_bytes == max_bytes
                &&& h@.in_memory_bytes == 0
                &&& h@.next_id == 1
                &&& h@.selected is None
                &&& history_wf(h@)
            },
    {
        if max_entries == 0 || max_bytes == 0 {
            return Err(CaptureHistoryError::InvalidLimits);
        }
        let h = CaptureHistory {
            entries: VecDeque::new(),
            max_entries,
            max_bytes,
            in_memory_bytes: 0,
            next_id: 1,
            selected: None,
        };
        assert(views(h.entries@) =~= Seq::<CaptureEntryV>::empty());
        Ok(h)
    }

    /// The entries, oldest first.
    pub fn entries(&self) -> (r: &VecDeque<CaptureEntry>)
        ensures
            views(r@) == self@.entries,
    {
        &self.entries
    }

    pub fn selected_id(&self) -> (r: Option<CaptureId>)
        ensures
            r == self@.selected,
    {
        self.selected
    }

    /// The selected entry, when the selection names one that is present.
    pub fn selected(&self) -> (r: Option<&CaptureEntry>)
        ensures
            selected_index(self@) >= 0 ==> r is Some && r.unwrap()@ == self@.entries[selected_index(
                self@,
            )],
            selected_index(self@) < 0 ==> r is None,
    {
        match self.selected {
            None => None,
            Some(id) => match find_index(&self.entries, id) {
                None => None,
                Some(i) => {
                    proof {
                        lemma_index_of(views(self.entries@), id);
                    }
                    Some(&self.entries[i])
                },
            },
        }
    }

    /// Selects the entry with this id, when one is present.
    pub fn select(&mut self, id: CaptureId) -> (r: bool)
        ensures
            r == has_id(old(self)@.entries, id),
            final(self)@ == (if r {
                with_selected(old(self)@, Some(id))
            } else {
                old(self)@
            }),
            selection_valid(final(self)@) <== selection_valid(old(self)@),
    {
        match find_index(&self.entries, id) {
            Some(_) => {
                self.selected = Some(id);
                true
            },
            None => false,
        }
    }

    /// Pins or unpins the first entry with this id; false when there is none.
    pub fn set_pinned(&mut self, id: CaptureId, pinned: bool) -> (r: bool)
        requires
            history_wf(old(self)@),
        ensures
            r == has_id(old(self)@.entries, id),
            final(self)@ == (if r {
                with_entries(
                    old(self)@,
                    old(self)@.entries.update(
                        index_of(old(self)@.entries, id),
                        pinned_as(old(self)@.entries[index_of(old(self)@.entries, id)], pinned),
                    ),
                )
            } else {
                old(self)@
            }),
            history_wf(final(self)@),
            selection_valid(final(self)@) <== selection_valid(old(self)@),
    {
        let ghost h = self@;
        match find_index(&self.entries, id) {
            None => false,
            Some(i) => {
                proof {
                    lemma_index_of(h.entries, id);
                }
                let mut e = self.entries.remove(i).unwrap();
                e.pinned = pinned;
                self.entries.insert(i, e);
                proof {
                    let u = h.entries.update(i as int, pinned_as(h.entries[i as int], pinned));
                    assert(views(self.entries@) =~= u);
                    lemma_held_update(h.entries, i as int, pinned_as(h.entries[i as int], pinned));
                    if let Some(x) = h.selected {
                        lemma_has_id_update(h.entries, i as int, pinned_as(h.entries[i as int], pinned), x);
                    }
                }
                true
            },
        }
    }

    /// Replaces label, note and pin of the first entry with this id; false
    /// when there is none.
    pub fn set_metadata(&mut self, id: CaptureId, label: String, note: String, pinned: bool) -> (r: bool)
        requires
            history_wf(old(self)@),
        ensures
            r == has_id(old(self)@.entries, id),
            final(self)@ == (if r {
                with_entries(
                    old(self)@,
                    old(self)@.entries.update(
                        index_of(old(self)@.entries, id),
                        edited(old(self)@.entries[index_of(old(self)@.entries, id)], label@, note@, pinned),
                    ),
                )
            } else {
                old(self)@
            }),
            history_wf(final(self)@),
            selection_valid(final(self)@) <== selection_valid(old(self)@),
    {
        let ghost h = self@;
        match find_index(&self.entries, id) {
            None => false,
            Some(i) => {
                proof {
                    lemma_index_of(h.entries, id);
                }
                let ghost lv = label@;
                let ghost nv = note@;
                let mut e = self.entries.remove(i).unwrap();
                e.label = label;
                e.note = note;
                e.pinned = pinned;
                self.entries.insert(i, e);
                proof {
                    let ne = edited(h.entries[i as int], lv, nv, pinned);
                    let u = h.entries.update(i as int, ne);
                    assert(views(self.entries@) =~= u);
                    lemma_held_update(h.entries, i as int, ne);
                    if let Some(x) = h.selected {
                        lemma_has_id_update(h.entries, i as int, ne, x);
                    }
                }
                true
            },
        }
    }

    /// Moves the selection one entry towards the oldest; from no present
    /// selection, to the newest entry. None, and nothing changes, when there
    /// is no such entry.
    pub fn select_previous(&mut self) -> (r: Option<CaptureId>)
        ensures
            previous_index(old(self)@) < 0 ==> r is None && final(self)@ == old(self)@,
            previous_index(old(self)@) >= 0 ==> r == Some(old(self)@.entries[previous_index(old(self)@)].id)
                && final(self)@ == with_selected(old(self)@, r),
            selection_valid(final(self)@) <== selection_valid(old(self)@),
    {
        let ghost h = self@;
        let current = match self.selected {
            Some(selected) => match find_index(&self.entries, selected) {
                Some(i) => i,
                None => self.entries.len(),
            },
            None => self.entries.len(),
        };
        proof {
            if let Some(x) = h.selected {
                lemma_index_of(h.entries, x);
            }
        }
        if current == 0 {
            return None;
        }
        let index = current - 1;
        let id = self.entries[index].id;
        self.selected = Some(id);
        proof {
            lemma_has_id(h.entries, id, index as int);
        }
        Some(id)
    }

    /// Moves the selection one entry towards the newest; from no selection,
    /// to the oldest entry. None, and nothing changes, when there is no such
    /// entry or the selected id is absent.
    pub fn select_next(&mut self) -> (r: Option<CaptureId>)
        ensures
            (next_index(old(self)@) < 0 || next_index(old(self)@) >= old(self)@.entries.len()) ==> r is None
                && final(self)@ == old(self)@,
            (0 <= next_index(old(self)@) < old(self)@.entries.len()) ==> r == Some(
                old(self)@.entries[next_index(old(self)@)].id,
            ) && final(self)@ == with_selected(old(self)@, r),
            selection_valid(final(self)@) <== selection_valid(old(self)@),
    {
        let ghost h = self@;
        let index = match self.selected {
            Some(selected) => match find_index(&self.entries, selected) {
                Some(i) => {
                    proof {
                        lemma_index_of(views(self.entries@), selected);
                    }
                    assert(i < self.entries.len());
                    i + 1
                },
                None => return None,
            },
            None => 0,
        };
        proof {
            if let Some(x) = h.selected {
                lemma_index_of(h.entries, x);
            }
        }
        if index >= self.entries.len() {
            return None;
        }
        let id = self.entries[index].id;
        self.selected = Some(id);
        proof {
            lemma_has_id(h.entries, id, index as int);
        }
        Some(id)
    }

    /// Removes the first entry with this id; false when there is none. A
    /// selection of the removed id moves to the entry that took its place,
    /// or to the new newest entry.
    pub fn remove(&mut self, id: CaptureId) -> (r: bool)
        requires
            history_wf(old(self)@),
        ensures
            r == has_id(old(self)@.entries, id),
            r ==> final(self)@ == removed_at(old(self)@, index_of(old(self)@.entries, id)),
            !r ==> final(self)@ == old(self)@,
            history_wf(final(self)@),
            selection_valid(final(self)@) <== selection_valid(old(self)@),
    {
        let ghost h = self@;
        let index = match find_index(&self.entries, id) {
            Some(i) => i,
            None => return false,
        };
        proof {
            lemma_index_of(h.entries, id);
            lemma_held_remove(h.entries, index as int);
        }
        let removed = self.entries.remove(index).unwrap();
        let bytes = entry_in_memory_bytes(&removed);
        self.in_memory_bytes = self.in_memory_bytes - bytes;
        let ghost rest = h.entries.remove(index as int);
        assert(views(self.entries@) =~= rest);
        if self.selected == Some(id) {
            let n = self.entries.len();
            if n == 0 {
                self.selected = None;
            } else {
                let k = if index < n - 1 {
                    index
                } else {
                    n - 1
                };
                self.selected = Some(self.entries[k].id);
                proof {
                    lemma_has_id(rest, rest[k as int].id, k as int);
                }
            }
        } else {
            proof {
                if let Some(x) = h.selected {
                    if has_id(h.entries, x) {
                        lemma_has_id_remove(h.entries, index as int, x);
                    }
                }
            }
        }
        true
    }

    /// Keeps a live capture. Refused, with nothing changed, when the capture
    /// alone exceeds the byte budget. Otherwise the capture becomes the
    /// newest entry under a fresh id, and while the history is over budget
    /// the oldest unpinned entry is evicted. The capture is refused when it
    /// was evicted itself; the evictions stand.
    pub fn insert_live(
        &mut self,
        capture: TriggerCapture,
        trigger_config: TriggerConfig,
        created_unix_ms: u64,
        select_new: bool,
    ) -> (r: Result<CaptureInsertOutcome, CaptureHistoryError>)
        requires
            history_wf(old(self)@),
            held_bytes(old(self)@.entries) + capture_bytes(capture@) <= usize::MAX,
        ensures
            capture_bytes(capture@) > old(self)@.max_bytes ==> r == Err::<
                CaptureInsertOutcome,
                CaptureHistoryError,
            >(CaptureHistoryError::PinnedBudgetExceeded) && final(self)@ == old(self)@,
            capture_bytes(capture@) <= old(self)@.max_bytes ==> {
                let e = new_live_entry(capture@, trigger_config, created_unix_ms, old(self)@.next_id);
                let kept = after_arrival(old(self)@, e).0;
                &&& final(self)@ == inserted(old(self)@, e, select_new)
                &&& has_id(kept, e.id) ==> (r matches Ok(o) && o.id == e.id && o.evicted@ == after_arrival(
                    old(self)@,
                    e,
                ).1)
                &&& !has_id(kept, e.id) ==> r == Err::<CaptureInsertOutcome, CaptureHistoryError>(
                    CaptureHistoryError::PinnedBudgetExceeded,
                )
            },
            history_wf(final(self)@),
            r is Ok && selection_valid(old(self)@) ==> selection_valid(final(self)@),
    {
        proof {
            lemma_ids_after_insert(self@, new_live_entry(capture@, trigger_config, created_unix_ms, self@.next_id));
        }
        let ghost h = self@;
        let ghost cv = capture@;
        let approximate_bytes = capture_byte_size(&capture);
        if approximate_bytes > self.max_bytes {
            return Err(CaptureHistoryError::PinnedBudgetExceeded);
        }
        let id = CaptureId(self.next_id);
        self.next_id = self.next_id.saturating_add(1);
        let n = capture.sample_indices.len();
        let last = if n > 0 {
            n - 1
        } else {
            0
        };
        let tp = if capture.trigger_position < last {
            capture.trigger_position
        } else {
            last
        };
        let trigger_sample_index = if tp < n {
            capture.sample_indices[tp]
        } else {
            0
        };
        let trigger_timestamp = if tp < capture.timestamps.len() {
            capture.timestamps[tp]
        } else {
            0
        };
        let after = if capture.trigger_position == usize::MAX {
            usize::MAX
        } else {
            capture.trigger_position + 1
        };
        let remaining = if n > after {
            n - after
        } else {
            0
        };
        let quality = CaptureQuality {
            auto_timeout: capture.auto_timeout,
            contains_gap: false,
            incomplete_pre: capture.trigger_position < trigger_config.pre_samples,
            incomplete_post: remaining < trigger_config.post_samples,
        };
        let entry = CaptureEntry {
            id,
            origin: CaptureOrigin::Live,
            trigger_sample_index,
            trigger_timestamp,
            label: live_capture_label(id.0),
            note: String::new(),
            pinned: false,
            created_unix_ms,
            approximate_bytes,
            quality,
            payload: CapturePayload::InMemory(Arc::new(capture)),
            trigger_config,
        };
        let ghost e = new_live_entry(cv, trigger_config, created_unix_ms, h.next_id);
        assert(entry@ == e);
        proof {
            lemma_held_push(h.entries, e);
        }
        self.in_memory_bytes = self.in_memory_bytes + approximate_bytes;
        self.entries.push_back(entry);
        let ghost s0 = h.entries.push(e);
        assert(views(self.entries@) =~= s0);
        let ghost me = h.max_entries;
        let ghost mb = h.max_bytes;
        let mut evicted: Vec<CaptureId> = Vec::new();
        loop
            invariant
                evict(s0, me, mb) == (evict(views(self.entries@), me, mb).0, evicted@ + evict(
                    views(self.entries@),
                    me,
                    mb,
                ).1),
                self.in_memory_bytes == held_bytes(views(self.entries@)),
                self.max_entries == me,
                self.max_bytes == mb,
                self.next_id == next_id_after(h.next_id),
                self.selected == h.selected,
            ensures
                evict(views(self.entries@), me, mb) == (views(self.entries@), Seq::<CaptureId>::empty()),
            decreases self.entries@.len(),
        {
            let ghost cur = views(self.entries@);
            if !(self.entries.len() > self.max_entries || self.in_memory_bytes > self.max_bytes) {
                break;
            }
            let index = match find_unpinned(&self.entries) {
                Some(i) => i,
                None => break,
            };
            proof {
                lemma_first_unpinned(cur);
                lemma_held_remove(cur, index as int);
            }
            let removed = self.entries.remove(index).unwrap();
            let bytes = entry_in_memory_bytes(&removed);
            self.in_memory_bytes = self.in_memory_bytes - bytes;
            let ghost before = evicted@;
            evicted.push(removed.id);
            proof {
                let next = cur.remove(index as int);
                assert(views(self.entries@) =~= next);
                let r = evict(next, me, mb);
                assert(evict(cur, me, mb) == (r.0, seq![cur[index as int].id] + r.1));
                assert(before + (seq![cur[index as int].id] + r.1) =~= evicted@ + r.1);
            }
        }
        let ghost kept = views(self.entries@);
        assert(evict(s0, me, mb).1 =~= evicted@);
        if find_index(&self.entries, id).is_none() {
            return Err(CaptureHistoryError::PinnedBudgetExceeded);
        }
        if select_new || self.selected.is_none() {
            self.selected = Some(id);
        }
        match self.selected {
            Some(s) => {
                if ids_contain(&evicted, s) {
                    self.selected = last_entry_id(&self.entries);
                }
            },
            None => {},
        }
        proof {
            lemma_evict(s0, me, mb);
            lemma_index_of(kept, id);
            if kept.len() > 0 {
                lemma_has_id(kept, kept.last().id, kept.len() - 1);
            }
            if let Some(x) = h.selected {
                if has_id(h.entries, x) {
                    lemma_index_of(h.entries, x);
                    lemma_has_id(s0, x, index_of(h.entries, x));
                }
            }
        }
        Ok(CaptureInsertOutcome { id, evicted })
    }

    /// Empties the history, keeping the pinned entries unless they go too;
    /// the newest kept entry becomes the selection.
    pub fn clear(&mut self, include_pinned: bool)
        requires
            history_wf(old(self)@),
        ensures
            final(self)@ == cleared(old(self)@, include_pinned),
            history_wf(final(self)@),
            selection_valid(final(self)@),
    {
        let ghost h = self@;
        let ghost s = h.entries;
        let mut kept: VecDeque<CaptureEntry> = VecDeque::new();
        let mut bytes: usize = 0;
        let mut k: usize = 0;
        let n = self.entries.len();
        proof {
            lemma_kept_bytes(s, include_pinned);
        }
        while k < n
            invariant
                n == s.len(),
                0 <= k <= n,
                views(self.entries@) == s.skip(k as int),
                views(kept@) == kept_on_clear(s.take(k as int), include_pinned),
                bytes == held_bytes(kept_on_clear(s.take(k as int), include_pinned)),
                held_bytes(s) <= usize::MAX,
                self.max_entries == h.max_entries,
                self.max_bytes == h.max_bytes,
                self.next_id == h.next_id,
                forall|j: int| 0 <= j <= s.len() ==> held_bytes(kept_on_clear(#[trigger] s.take(j), include_pinned)) <= held_bytes(s),
            decreases n - k,
        {
            let ghost pre = kept_on_clear(s.take(k as int), include_pinned);
            let ghost before = self.entries@;
            assert(before.len() == s.skip(k as int).len());
            let e = self.entries.pop_front().unwrap();
            proof {
                assert(views(before)[0] == s.skip(k as int)[0]);
                assert(e@ == s[k as int]);
                assert(s.take(k + 1).drop_last() =~= s.take(k as int));
                assert(s.take(k + 1).last() == s[k as int]);
                assert(views(self.entries@) =~= views(before).subrange(1, views(before).len() as int));
                assert(views(before).subrange(1, views(before).len() as int) =~= s.skip(k + 1));
            }
            if !include_pinned && e.pinned {
                let b = entry_in_memory_bytes(&e);
                proof {
                    lemma_held_push(pre, e@);
                }
                bytes = bytes + b;
                kept.push_back(e);
                assert(views(kept@) =~= pre.push(s[k as int]));
            }
            k = k + 1;
        }
        assert(s.take(n as int) =~= s);
        self.entries = kept;
        self.in_memory_bytes = bytes;
        self.selected = last_entry_id(&self.entries);
        proof {
            lemma_ids_kept_on_clear(s, include_pinned, h.next_id);
            let kv = views(self.entries@);
            if kv.len() > 0 {
                lemma_has_id(kv, kv.last().id, kv.len() - 1);
            }
        }
    }
}

proof fn lemma_kept_bytes(s: Seq<CaptureEntryV>, include_pinned: bool)
    ensures
        forall|j: int| 0 <= j <= s.len() ==> held_bytes(kept_on_clear(#[trigger] s.take(j), include_pinned)) <= held_bytes(s),
    decreases s.len(),
{
    if s.len() > 0 {
        let t = s.drop_last();
        lemma_kept_bytes(t, include_pinned);
        assert forall|j: int| 0 <= j <= s.len() implies held_bytes(kept_on_clear(#[trigger] s.take(j), include_pinned)) <= held_bytes(s) by {
            if j < s.len() {
                assert(t.take(j) =~= s.take(j));
            } else {
                assert(s.take(j) =~= s);
                assert(t.take(t.len() as int) =~= t);
                let r = kept_on_clear(t, include_pinned);
                if !include_pinned && s.last().pinned {
                    lemma_held_push(r, s.last());
                }
            }
        }
    }
}

impl Default for CaptureHistory {
    fn default() -> (r: Self)
        ensures
            r@.entries.len() == 0,
            r@.max_entries == DEFAULT_CAPTURE_HISTORY_ENTRIES,
            r@.max_bytes == DEFAULT_CAPTURE_HISTORY_BYTES,
            r@.next_id == 1,
            r@.selected is None,
            history_wf(r@),
    {
        Self::new(DEFAULT_CAPTURE_HISTORY_ENTRIES, DEFAULT_CAPTURE_HISTORY_BYTES).unwrap()
    }
}

/// An accepted live capture leaves the history within both budgets. (When
/// the id it receives is already taken by an older entry, which only a
/// saturated id counter allows, the retained entry with that id may be the
/// older one.)
pub proof fn lemma_accepted_insert_within_budget(
    h: CaptureHistoryView,
    c: TriggerCaptureV,
    cfg: TriggerConfig,
    created: u64,
)
    requires
        history_wf(h),
        !has_id(h.entries, CaptureId(h.next_id)),
    ensures
        ({
            let e = new_live_entry(c, cfg, created, h.next_id);
            has_id(after_arrival(h, e).0, e.id) ==> !over_budget(
                after_arrival(h, e).0,
                h.max_entries,
                h.max_bytes,
            )
        }),
{
    let e = new_live_entry(c, cfg, created, h.next_id);
    let s0 = h.entries.push(e);
    let kept = after_arrival(h, e).0;
    lemma_evict(s0, h.max_entries, h.max_bytes);
    lemma_first_unpinned(kept);
    if has_id(kept, e.id) {
        lemma_index_of(kept, e.id);
        let j = index_of(kept, e.id);
        assert(kept.contains(kept[j]));
        assert(s0.contains(kept[j]));
        let k = choose|k: int| 0 <= k < s0.len() && s0[k] == kept[j];
        if k < h.entries.len() {
            lemma_has_id(h.entries, e.id, k);
        }
        assert(!kept[j].pinned);
    }
}

/// Pinned entries are never evicted by the arrival of a new entry.
pub proof fn lemma_arrival_keeps_pinned(h: CaptureHistoryView, e: CaptureEntryV, x: CaptureEntryV)
    requires
        h.entries.contains(x),
        x.pinned,
    ensures
        after_arrival(h, e).0.contains(x),
{
    let s0 = h.entries.push(e);
    lemma_evict(s0, h.max_entries, h.max_bytes);
    let j = choose|j: int| 0 <= j < h.entries.len() && h.entries[j] == x;
    assert(s0[j] == x);
    assert(s0.contains(x));
}

/// Every entry a new arrival evicts was unpinned, and was in the history or
/// is the new entry; the evicted ids come oldest first.
pub proof fn lemma_arrival_evicts_only_unpinned(h: CaptureHistoryView, e: CaptureEntryV, x: CaptureEntryV)
    requires
        h.entries.push(e).contains(x),
        !after_arrival(h, e).0.contains(x),
    ensures
        !x.pinned,
{
    let s0 = h.entries.push(e);
    lemma_evict(s0, h.max_entries, h.max_bytes);
}

/// A clear that keeps pinned entries keeps exactly those, in order of
/// arrival; a clear that includes them empties the history.
pub proof fn lemma_clear_keeps_exactly_pinned(s: Seq<CaptureEntryV>, x: CaptureEntryV)
    ensures
        kept_on_clear(s, false).contains(x) <==> (s.contains(x) && x.pinned),
        kept_on_clear(s, true).len() == 0,
    decreases s.len(),
{
    if s.len() > 0 {
        let t = s.drop_last();
        lemma_clear_keeps_exactly_pinned(t, x);
        let r = kept_on_clear(t, false);
        if s.contains(x) && x.pinned {
            let j = choose|j: int| 0 <= j < s.len() && s[j] == x;
            if j < t.len() {
                assert(t[j] == x);
                assert(t.contains(x));
                if s.last().pinned {
                    let k = choose|k: int| 0 <= k < r.len() && r[k] == x;
                    assert(r.push(s.last())[k] == x);
                }
            } else {
                assert(r.push(s.last())[r.len() as int] == x);
            }
        }
        if kept_on_clear(s, false).contains(x) {
            if s.last().pinned {
                let k = choose|k: int| 0 <= k < r.len() + 1 && r.push(s.last())[k] == x;
                if k < r.len() {
                    assert(r.contains(x));
                    let j = choose|j: int| 0 <= j < t.len() && t[j] == x;
                    assert(s[j] == x);
                } else {
                    assert(s[s.len() - 1] == x);
                }
            } else {
                let j = choose|j: int| 0 <= j < t.len() && t[j] == x;
                assert(s[j] == x);
            }
        }
    }
}


/// The entries kept after an arrival keep their ids within the advanced
/// counter.
proof fn lemma_ids_after_insert(h: CaptureHistoryView, e: CaptureEntryV)
    requires
        history_wf(h),
        e.id == CaptureId(h.next_id),
    ensures
        ids_within(after_arrival(h, e).0, next_id_after(h.next_id)),
{
    let s0 = h.entries.push(e);
    lemma_evict(s0, h.max_entries, h.max_bytes);
    let kept = after_arrival(h, e).0;
    assert forall|i: int| 0 <= i < kept.len() implies (#[trigger] kept[i]).id.0 < next_id_after(h.next_id)
        || next_id_after(h.next_id) == u64::MAX by {
        assert(kept == evict(s0, h.max_entries, h.max_bytes).0);
        assert(kept.contains(kept[i]));
        assert(s0.contains(kept[i]));
        let k = choose|k: int| 0 <= k < s0.len() && s0[k] == kept[i];
        if k < h.entries.len() {
            assert(s0[k] == h.entries[k]);
        } else {
            assert(s0[k] == e);
        }
    }
}

/// While the id counter has not saturated, a new live capture's id exceeds
/// every id the history keeps, and an accepted capture leaves the history
/// within both budgets.
pub proof fn lemma_new_id_exceeds_kept(
    h: CaptureHistoryView,
    c: TriggerCaptureV,
    cfg: TriggerConfig,
    created: u64,
    select_new: bool,
)
    requires
        history_wf(h),
        h.next_id < u64::MAX,
    ensures
        ({
            let e = new_live_entry(c, cfg, created, h.next_id);
            let h2 = inserted(h, e, select_new);
            &&& forall|i: int| 0 <= i < h.entries.len() ==> (#[trigger] h.entries[i]).id.0 < e.id.0
            &&& has_id(h2.entries, e.id) ==> !over_budget(h2.entries, h.max_entries, h.max_bytes)
        }),
{
    lemma_index_of(h.entries, CaptureId(h.next_id));
    if has_id(h.entries, CaptureId(h.next_id)) {
        assert(h.entries[index_of(h.entries, CaptureId(h.next_id))].id.0 < h.next_id);
    }
    lemma_accepted_insert_within_budget(h, c, cfg, created);
}

// ---------------------------------------------------------------------------
// Where the selection goes when its entry is removed
// ---------------------------------------------------------------------------

/// Removing the selected entry from a history that keeps at least one
/// entry leaves a selection: the entry that followed the removed one, or
/// the entry before it when the removed one was the newest. Removing an
/// entry that is not selected leaves the selection alone. Either way the
/// entries are the old ones without the removed one, in order.
pub proof fn lemma_remove_moves_selection(h: CaptureHistoryView, i: int)
    requires
        0 <= i < h.entries.len(),
    ensures
        removed_at(h, i).entries == h.entries.remove(i),
        h.selected == Some(h.entries[i].id) && h.entries.len() >= 2 && i + 1 < h.entries.len()
            ==> removed_at(h, i).selected == Some(h.entries[i + 1].id),
        h.selected == Some(h.entries[i].id) && h.entries.len() >= 2 && i + 1 == h.entries.len()
            ==> removed_at(h, i).selected == Some(h.entries[i - 1].id),
        h.selected == Some(h.entries[i].id) && h.entries.len() == 1 ==> removed_at(h, i).selected
            == None::<CaptureId>,
        h.selected != Some(h.entries[i].id) ==> removed_at(h, i).selected == h.selected,
{
}

/// After removing the selected entry, a selection remains whenever an entry
/// remains, and it names a remaining entry.
pub proof fn lemma_remove_keeps_a_selection(h: CaptureHistoryView, i: int)
    requires
        0 <= i < h.entries.len(),
        h.selected == Some(h.entries[i].id),
        h.entries.len() >= 2,
    ensures
        removed_at(h, i).selected matches Some(x) && exists|j: int|
            0 <= j < removed_at(h, i).entries.len() && (#[trigger] removed_at(h, i).entries[j]).id == x,
{
    let rest = h.entries.remove(i);
    if i + 1 < h.entries.len() {
        assert(rest[i] == h.entries[i + 1]);
        assert(removed_at(h, i).entries[i].id == h.entries[i + 1].id);
    } else {
        assert(rest[i - 1] == h.entries[i - 1]);
        assert(removed_at(h, i).entries[i - 1].id == h.entries[i - 1].id);
    }
}

} // verus!
