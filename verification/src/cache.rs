//! The scan cache's decisions: content fingerprints, merging a fresh scan with
//! what was cached and selected before, and what to store back.
use vstd::prelude::*;
use crate::candidate::Candidate;
use crate::selection::{AUTO_SELECT_SCORE, CacheStatus, CandidateState, SelectionMode, SelectionState, auto_state};
use crate::text::{digit_char, dec_chars, dec_seq, hex_fixed, hex_fixed_chars, string_from_chars};
use crate::time::Timestamp;
use crate::text::{push_all, push_str};
use crate::path_order::{path_components, components_of, comp_views, key_views, is_sorted_unique, sorted_unique};
use vstd::string::*;
use vstd::utf8::encode_utf8;

verus! {

/// Result of a quick metadata check.
#[derive(Debug, Clone, Copy, PartialEq, Eq, Structural)]
pub enum QuickCheckResult {
    /// Likely unchanged according to the modification time.
    LikelyUnchanged,
    /// Needs a deeper check.
    NeedsVerification,
}

/// Metadata for quick change detection.
#[derive(Debug, Clone)]
pub struct DirectoryMetadata {
    pub mtime: Timestamp,
    pub child_count: usize,
    pub total_size: u64,
}

/// Counts from merging a scan with the cache.
#[derive(Debug, Clone)]
pub struct ScanStats {
    pub items_found: usize,
    pub new_items: usize,
    pub changed_items: usize,
}

impl Default for ScanStats {
    fn default() -> (r: ScanStats)
        ensures
            r.items_found == 0 && r.new_items == 0 && r.changed_items == 0,
    {
        ScanStats { items_found: 0, new_items: 0, changed_items: 0 }
    }
}

/// Cached metadata of a path.
#[derive(Debug, Clone)]
pub struct CachedEntry {
    pub path: String,
    pub content_hash: String,
    pub size_bytes: u64,
    pub mtime: u64,
    pub first_seen: Timestamp,
    pub last_seen: Timestamp,
}

/// A selection the user made by hand.
#[derive(Debug, Clone)]
pub struct UserSelection {
    pub path: String,
    pub is_checked: bool,
    pub selection_mode: SelectionMode,
    pub timestamp: Timestamp,
}

/// What the seahash crate's `hash` returns for a byte string.
pub uninterp spec fn seahash_value(bytes: Seq<u8>) -> u64;

/// seahash's `hash` of a byte string (its fixed-seed 64-bit hash). The contract
/// names the result.
#[verifier::external_body]
pub(crate) fn seahash_of(bytes: &Vec<u8>) -> (h: u64)
    ensures
        h == seahash_value(bytes@),
{
    seahash::hash(bytes.as_slice())
}

/// The bytes of a text made only of ASCII characters.
pub open spec fn ascii_bytes(s: Seq<char>) -> Seq<u8> {
    Seq::new(s.len(), |i: int| (s[i] as u32) as u8)
}

/// The text hashed for a path's fingerprint: modification seconds, a dash, size.
pub open spec fn fingerprint_text(mtime_secs: u64, size: u64) -> Seq<char> {
    dec_seq(mtime_secs as nat) + seq!['-'] + dec_seq(size as nat)
}

/// The fingerprint of a path from its metadata: seahash of
/// `"{mtime_secs}-{size}"`, as sixteen lowercase hexadecimal digits.
pub open spec fn fingerprint(mtime_secs: u64, size: u64) -> Seq<char> {
    hex_fixed(seahash_value(ascii_bytes(fingerprint_text(mtime_secs, size))) as nat, 16)
}

/// Decimal digits are ASCII.
proof fn lemma_dec_ascii(n: nat)
    ensures
        forall|i: int| 0 <= i < dec_seq(n).len() ==> '0' <= #[trigger] dec_seq(n)[i] <= '9',
    decreases n,
{
    if n >= 10 {
        lemma_dec_ascii(n / 10);
        assert(n % 10 < 10);
        let d = digit_char((n % 10) as nat);
        assert('0' <= d <= '9');
        assert(dec_seq(n) == dec_seq(n / 10).push(d));
    } else {
        assert('0' <= digit_char(n) <= '9');
    }
}

/// The bytes of an ASCII text.
fn bytes_of(c: &Vec<char>) -> (b: Vec<u8>)
    requires
        forall|i: int| 0 <= i < c@.len() ==> (#[trigger] c@[i] as u32) < 128,
    ensures
        b@ == ascii_bytes(c@),
{
    let mut b: Vec<u8> = Vec::new();
    let mut i: usize = 0;
    while i < c.len()
        invariant
            i <= c@.len(),
            forall|j: int| 0 <= j < c@.len() ==> (#[trigger] c@[j] as u32) < 128,
            b@.len() == i,
            forall|j: int| 0 <= j < i ==> #[trigger] b@[j] == (c@[j] as u32) as u8,
        decreases c.len() - i,
    {
        let code: u32 = c[i] as u32;
        b.push(code as u8);
        i += 1;
    }
    assert(b@ =~= ascii_bytes(c@));
    b
}

/// The fingerprint of a path from its modification time (seconds since the epoch)
/// and size.
pub fn fingerprint_of(mtime_secs: u64, size: u64) -> (r: String)
    ensures
        r@ == fingerprint(mtime_secs, size),
{
    let mut text = dec_chars(mtime_secs);
    text.push('-');
    let s = dec_chars(size);
    crate::text::push_all(&mut text, &s);
    proof {
        lemma_dec_ascii(mtime_secs as nat);
        lemma_dec_ascii(size as nat);
        assert(text@ =~= fingerprint_text(mtime_secs, size));
        assert forall|i: int| 0 <= i < text@.len() implies (#[trigger] text@[i] as u32) < 128 by {
            let a = dec_seq(mtime_secs as nat);
            if i < a.len() {
                assert(text@[i] == a[i]);
            } else if i > a.len() {
                assert(text@[i] == dec_seq(size as nat)[i - a.len() - 1]);
            }
        }
    }
    let bytes = bytes_of(&text);
    let h = seahash_of(&bytes);
    let hex = hex_fixed_chars(h, 16);
    string_from_chars(&hex)
}

/// The shallow hash of a file from its length and modification time (whole seconds
/// since the epoch, 0 when unknown): seahash of `"{len}-{mtime}"` as sixteen
/// lowercase hexadecimal digits.
pub fn file_shallow_hash(len: u64, mtime_secs: Option<u64>) -> (r: String)
    ensures
        r@ == fingerprint(
            len,
            match mtime_secs {
                Some(s) => s,
                None => 0,
            },
        ),
{
    let m: u64 = match mtime_secs {
        Some(s) => s,
        None => 0,
    };
    fingerprint_of(len, m)
}

/// One entry of a directory, for the directory's shallow hash: its full path (which
/// orders the entries), its name, and, when its metadata could be read, its length
/// and its modification time in whole seconds since the epoch (when known).
#[derive(Debug, Clone)]
pub struct ShallowChild {
    pub path: String,
    pub name: String,
    pub len: Option<u64>,
    pub mtime_secs: Option<u64>,
}

/// The line an entry contributes to its directory's shallow hash:
/// `"{name}|{len}|{mtime}\n"`, where the length part is left out when the metadata
/// could not be read and the time when it is unknown.
pub open spec fn shallow_line(c: ShallowChild) -> Seq<char> {
    c.name@ + seq!['|'] + (match c.len {
        Some(l) => dec_seq(l as nat) + seq!['|'] + (match c.mtime_secs {
            Some(t) => dec_seq(t as nat),
            None => Seq::empty(),
        }),
        None => Seq::empty(),
    }) + seq!['\n']
}

/// The lines of the entries taken in the given order, one after another.
pub open spec fn shallow_text(cs: Seq<ShallowChild>, order: Seq<usize>) -> Seq<char>
    decreases order.len(),
{
    if order.len() == 0 {
        Seq::empty()
    } else {
        shallow_text(cs, order.drop_last()) + shallow_line(cs[order.last() as int])
    }
}

/// The component lists of the entries' paths.
pub open spec fn child_path_keys(cs: Seq<ShallowChild>) -> Seq<Seq<Seq<char>>> {
    Seq::new(cs.len(), |i: int| path_components(cs[i].path@))
}

/// The shallow hash of a directory from its direct entries (not walked deeper):
/// the entries' lines in path order, hashed with seahash, as sixteen lowercase
/// hexadecimal digits. A path listed twice counts once.
pub fn dir_shallow_hash(children: &Vec<ShallowChild>) -> (r: String)
    ensures
        exists|order: Seq<usize>|
            is_sorted_unique(child_path_keys(children@), order) && r@ == hex_fixed(
                seahash_value(encode_utf8(shallow_text(children@, order))) as nat,
                16,
            ),
{
    let mut keys: Vec<Vec<Vec<char>>> = Vec::new();
    let mut i: usize = 0;
    while i < children.len()
        invariant
            i <= children@.len(),
            keys@.len() == i,
            forall|j: int| 0 <= j < i ==> comp_views(#[trigger] keys@[j]@) == path_components(children@[j].path@),
        decreases children.len() - i,
    {
        keys.push(components_of(children[i].path.as_str()));
        i += 1;
    }
    proof {
        assert forall|j: int| 0 <= j < keys@.len() implies #[trigger] key_views(keys@)[j] == child_path_keys(children@)[j] by {
            assert(comp_views(keys@[j]@) == path_components(children@[j].path@));
        }
        assert(key_views(keys@) =~= child_path_keys(children@));
    }
    let order = sorted_unique(&keys);
    let mut text: Vec<char> = Vec::new();
    let mut k: usize = 0;
    while k < order.len()
        invariant
            is_sorted_unique(child_path_keys(children@), order@),
            child_path_keys(children@).len() == children@.len(),
            k <= order@.len(),
            text@ == shallow_text(children@, order@.take(k as int)),
        decreases order.len() - k,
    {
        let c = &children[order[k]];
        let ghost before = text@;
        push_str(&mut text, c.name.as_str());
        text.push('|');
        match c.len {
            Some(l) => {
                let d = dec_chars(l);
                push_all(&mut text, &d);
                text.push('|');
                match c.mtime_secs {
                    Some(t) => {
                        let e = dec_chars(t);
                        push_all(&mut text, &e);
                    },
                    None => {},
                }
            },
            None => {},
        }
        text.push('\n');
        proof {
            assert(text@ =~= before + shallow_line(children@[order@[k as int] as int]));
            assert(order@.take(k + 1).drop_last() =~= order@.take(k as int));
        }
        k += 1;
    }
    proof {
        assert(order@.take(order@.len() as int) =~= order@);
    }
    let s = string_from_chars(&text);
    let bytes = s.as_str().as_bytes_vec();
    let h = seahash_of(&bytes);
    let hex = hex_fixed_chars(h, 16);
    string_from_chars(&hex)
}

/// The cache status of a merged entry: changed, new, or cached and not yet verified.
pub open spec fn merged_status(is_new: bool, is_changed: bool) -> CacheStatus {
    if is_changed {
        CacheStatus::Changed
    } else if is_new {
        CacheStatus::New
    } else {
        CacheStatus::CachedUnverified
    }
}

/// The checkbox state of a saved selection.
pub open spec fn saved_state(checked: bool) -> SelectionState {
    if checked {
        SelectionState::Checked
    } else {
        SelectionState::Unchecked
    }
}

/// Merge one freshly scanned candidate with what the cache holds for its path: its
/// cached entry (if any), the selection the user saved (if any), and its current
/// fingerprint. Counts the candidate in `stats` and gives its state and the cache
/// entry to store back.
pub fn merge_candidate(
    candidate: Candidate,
    current_hash: String,
    cached: Option<CachedEntry>,
    user_sel: Option<UserSelection>,
    now: Timestamp,
    stats: &mut ScanStats,
) -> (r: (CandidateState, CachedEntry))
    requires
        old(stats).items_found < usize::MAX,
        old(stats).new_items < usize::MAX,
        old(stats).changed_items < usize::MAX,
    ensures
        ({
            let is_new = cached is None;
            let is_changed = cached matches Some(e) && e.content_hash@ != current_hash@;
            let first_seen = match cached {
                Some(e) => e.first_seen,
                None => now,
            };
            &&& final(stats).items_found == old(stats).items_found + 1
            &&& final(stats).new_items == old(stats).new_items + (if is_new { 1int } else { 0int })
            &&& final(stats).changed_items == old(stats).changed_items + (if is_changed { 1int } else { 0int })
            &&& r.0.candidate == candidate
            &&& r.0.cache_status == merged_status(is_new, is_changed)
            &&& r.0.is_new == is_new
            &&& r.0.is_changed == is_changed
            &&& r.0.first_seen == first_seen
            &&& r.0.size_current == Some(candidate.size_bytes)
            &&& r.0.last_seen.wf()
            &&& match user_sel {
                Some(sel) => {
                    &&& r.0.selection_mode == sel.selection_mode
                    &&& r.0.selection_state == saved_state(sel.is_checked)
                    &&& r.0.size_cached == (match cached {
                        Some(e) => Some(e.size_bytes),
                        None => None::<u64>,
                    })
                    &&& r.0.last_verified == now
                },
                None => {
                    &&& r.0.selection_mode == SelectionMode::Auto
                    &&& r.0.selection_state == auto_state(candidate.score)
                    &&& r.0.size_cached == Some(candidate.size_bytes)
                    &&& r.0.last_verified == r.0.last_seen
                },
            }
            &&& r.1.path@ == candidate.path@
            &&& r.1.content_hash@ == current_hash@
            &&& r.1.size_bytes == candidate.size_bytes
            &&& r.1.mtime == 0
            &&& r.1.first_seen == first_seen
            &&& r.1.last_seen == now
        }),
{
    stats.items_found = stats.items_found + 1;
    let (is_new, is_changed, first_seen) = match &cached {
        Some(e) => {
            let changed = !crate::text::string_eq(&e.content_hash, &current_hash);
            if changed {
                stats.changed_items = stats.changed_items + 1;
            }
            (false, changed, e.first_seen)
        },
        None => {
            stats.new_items = stats.new_items + 1;
            (true, false, now)
        },
    };
    let status = if is_changed {
        CacheStatus::Changed
    } else if is_new {
        CacheStatus::New
    } else {
        CacheStatus::CachedUnverified
    };
    let path = candidate.path.clone();
    let size = candidate.size_bytes;
    let state = match user_sel {
        Some(sel) => {
            let selection_state = if sel.is_checked {
                SelectionState::Checked
            } else {
                SelectionState::Unchecked
            };
            let size_cached = match &cached {
                Some(e) => Some(e.size_bytes),
                None => None,
            };
            CandidateState::from_cached(
                candidate,
                sel.selection_mode,
                selection_state,
                status,
                size_cached,
                is_new,
                is_changed,
                first_seen,
                now,
            )
        },
        None => {
            let mut s = CandidateState::new(candidate);
            s.is_new = is_new;
            s.is_changed = is_changed;
            s.first_seen = first_seen;
            s.cache_status = status;
            s
        },
    };
    let entry = CachedEntry {
        path,
        content_hash: current_hash,
        size_bytes: size,
        mtime: 0,
        first_seen,
        last_seen: now,
    };
    (state, entry)
}

/// The selections to store from the current states: one for each state the user
/// set by hand, stamped `now`.
pub open spec fn manual_selections_ok(states: Seq<CandidateState>, now: Timestamp, r: Seq<UserSelection>) -> bool
    decreases states.len(),
{
    if states.len() == 0 {
        r.len() == 0
    } else if states.last().selection_mode == SelectionMode::Manual {
        &&& r.len() > 0
        &&& r.last().path@ == states.last().candidate.path@
        &&& r.last().is_checked == (states.last().selection_state == SelectionState::Checked)
        &&& r.last().selection_mode == SelectionMode::Manual
        &&& r.last().timestamp == now
        &&& manual_selections_ok(states.drop_last(), now, r.drop_last())
    } else {
        manual_selections_ok(states.drop_last(), now, r)
    }
}

/// The selections to save: every state whose selection the user set by hand.
pub fn selections_to_save(states: &[CandidateState], now: Timestamp) -> (r: Vec<UserSelection>)
    ensures
        manual_selections_ok(states@, now, r@),
{
    let mut r: Vec<UserSelection> = Vec::new();
    let mut i: usize = 0;
    while i < states.len()
        invariant
            i <= states@.len(),
            manual_selections_ok(states@.take(i as int), now, r@),
        decreases states.len() - i,
    {
        let st = &states[i];
        let ghost before = r@;
        proof {
            assert(states@.take(i + 1).drop_last() =~= states@.take(i as int));
        }
        if st.selection_mode == SelectionMode::Manual {
            r.push(UserSelection {
                path: st.candidate.path.clone(),
                is_checked: st.selection_state.is_checked(),
                selection_mode: st.selection_mode,
                timestamp: now,
            });
            proof {
                assert(r@.drop_last() =~= before);
            }
        }
        i += 1;
    }
    proof {
        assert(states@.take(states@.len() as int) =~= states@);
    }
    r
}

/// The earliest instant chrono can represent, in seconds since the epoch
/// (January 1 of year -262143).
pub const EARLIEST_SECS: i64 = -8334601228800;

/// Seconds since the epoch of the instant `days` days before `now`: entries last
/// seen before it are purged.
pub fn purge_cutoff(now: Timestamp, days: u32) -> (r: i64)
    requires
        now.secs - days * 86400 >= EARLIEST_SECS,
    ensures
        r == now.secs - days * 86400,
{
    let span: i64 = days as i64 * 86400;
    now.secs - span
}

/// A selection saved from a state the user set by hand, restored when the same
/// path is merged again, gives back that state's mode (manual) and its checkbox
/// (checked or unchecked).
pub proof fn law_saved_selection_round_trip(st: CandidateState, now: Timestamp, saved: Seq<UserSelection>, restored: CandidateState)
    requires
        st.selection_mode == SelectionMode::Manual,
        st.selection_state != SelectionState::Indeterminate,
        manual_selections_ok(seq![st], now, saved),
        restored.selection_mode == saved.last().selection_mode,
        restored.selection_state == saved_state(saved.last().is_checked),
    ensures
        saved.len() == 1,
        saved[0].path@ == st.candidate.path@,
        restored.selection_mode == st.selection_mode,
        restored.selection_state == st.selection_state,
{
    assert(seq![st].last() == st);
    assert(seq![st].drop_last() =~= Seq::<CandidateState>::empty());
    assert(manual_selections_ok(Seq::<CandidateState>::empty(), now, saved.drop_last()));
    assert(saved.drop_last().len() == 0);
    assert(saved[0] == saved.last());
}


/// Every state the user set by hand to checked or unchecked is saved: some saved
/// selection carries its path, the manual mode and its checkbox, so that merging
/// the path again with that selection (see `merge_candidate`) restores both.
pub proof fn law_manual_selections_saved(states: Seq<CandidateState>, now: Timestamp, saved: Seq<UserSelection>, i: int)
    requires
        manual_selections_ok(states, now, saved),
        0 <= i < states.len(),
        states[i].selection_mode == SelectionMode::Manual,
        states[i].selection_state != SelectionState::Indeterminate,
    ensures
        exists|j: int|
            0 <= j < saved.len() && (#[trigger] saved[j]).path@ == states[i].candidate.path@
                && saved[j].selection_mode == SelectionMode::Manual && saved_state(saved[j].is_checked)
                == states[i].selection_state,
    decreases states.len(),
{
    let rest = states.drop_last();
    if i == states.len() - 1 {
        let j = saved.len() - 1;
        assert(saved[j] == saved.last());
        assert(saved_state(saved[j].is_checked) == states[i].selection_state);
    } else if states.last().selection_mode == SelectionMode::Manual {
        assert(rest[i] == states[i]);
        law_manual_selections_saved(rest, now, saved.drop_last(), i);
        let j = choose|j: int|
            0 <= j < saved.drop_last().len() && (#[trigger] saved.drop_last()[j]).path@ == rest[i].candidate.path@
                && saved.drop_last()[j].selection_mode == SelectionMode::Manual && saved_state(
                saved.drop_last()[j].is_checked,
            ) == rest[i].selection_state;
        assert(saved[j] == saved.drop_last()[j]);
    } else {
        assert(rest[i] == states[i]);
        law_manual_selections_saved(rest, now, saved, i);
    }
}

} // verus!
