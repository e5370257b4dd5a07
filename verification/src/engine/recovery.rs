//! The boot retry policy: which modules a failure marks as skipped, and
//! whether the boot sequence is tried again.
use vstd::prelude::*;

use crate::strset::{contains_string, insert_sorted, str_lt, string_views, strictly_sorted};
use crate::text::{chars_of, concat_str, push_char, push_decimal, nat_decimal, skip_ws_exec, rskip_ws_exec, trim, trim_chars, utf8_len_at_most};
use vstd::utf8::encode_utf8;

verus! {

/// What the boot loop does after a failure.
#[derive(Debug, Clone, Copy, PartialEq, Eq, Structural)]
pub enum RecoveryDecision {
    RetryUnattributed,
    AbortRetryLimit,
    InspectModules,
}

/// The retry state of one boot.
pub struct RecoveryState {
    pub module_dirs: Vec<(String, String)>,
    pub max_restarts: usize,
    pub restart_round: usize,
    pub auto_skipped: Vec<String>,
    pub mount_error_reasons: Vec<(String, String)>,
    pub unattributed_retry_used: bool,
}

/// The counters that the retry decisions read and change.
pub struct RetryView {
    pub max_restarts: int,
    pub restart_round: int,
    pub unattributed_retry_used: bool,
}

/// A failure as the retry policy sees it.
#[derive(Debug, Clone, Copy, PartialEq, Eq, Structural)]
pub enum RecoveryEvent {
    /// The failure named no module.
    Unattributed,
    /// The failure marked at least one module that was not marked before.
    NewlyMarked,
}

/// The decision on a failure that named no module, and the counters after it.
pub open spec fn unattributed_step(s: RetryView) -> (RetryView, RecoveryDecision) {
    if s.restart_round > s.max_restarts {
        (s, RecoveryDecision::AbortRetryLimit)
    } else if s.unattributed_retry_used {
        (s, RecoveryDecision::InspectModules)
    } else {
        let n = RetryView {
            restart_round: s.restart_round + 1,
            unattributed_retry_used: true,
            ..s
        };
        if n.restart_round > n.max_restarts {
            (n, RecoveryDecision::AbortRetryLimit)
        } else {
            (n, RecoveryDecision::RetryUnattributed)
        }
    }
}

/// The decision after modules were newly marked, and the counters after it.
pub open spec fn newly_marked_step(s: RetryView) -> (RetryView, RecoveryDecision) {
    let n = RetryView { restart_round: s.restart_round + 1, ..s };
    if n.restart_round > n.max_restarts {
        (n, RecoveryDecision::AbortRetryLimit)
    } else {
        (n, RecoveryDecision::InspectModules)
    }
}

pub open spec fn retry_step(s: RetryView, e: RecoveryEvent) -> (RetryView, RecoveryDecision) {
    match e {
        RecoveryEvent::Unattributed => unattributed_step(s),
        RecoveryEvent::NewlyMarked => newly_marked_step(s),
    }
}

/// The boot loop starts another attempt after this event and decision.
pub open spec fn restarts(e: RecoveryEvent, d: RecoveryDecision) -> bool {
    match e {
        RecoveryEvent::Unattributed => d == RecoveryDecision::RetryUnattributed,
        RecoveryEvent::NewlyMarked => d != RecoveryDecision::AbortRetryLimit,
    }
}

/// Every event of the sequence leads to another attempt.
pub open spec fn all_restart(s: RetryView, events: Seq<RecoveryEvent>) -> bool
    decreases events.len(),
{
    if events.len() == 0 {
        true
    } else {
        let (n, d) = retry_step(s, events[0]);
        restarts(events[0], d) && all_restart(n, events.drop_first())
    }
}

/// Whatever failures happen, the boot sequence is started again at most
/// `max_restarts - restart_round` more times: each restart uses up a round,
/// and no round past the limit restarts.
pub proof fn lemma_restarts_bounded(s: RetryView, events: Seq<RecoveryEvent>)
    requires
        s.restart_round >= 0,
        all_restart(s, events),
    ensures
        s.restart_round + events.len() <= s.max_restarts || events.len() == 0,
    decreases events.len(),
{
    if events.len() > 0 {
        let (n, d) = retry_step(s, events[0]);
        assert(n.restart_round == s.restart_round + 1);
        assert(n.restart_round <= n.max_restarts);
        lemma_restarts_bounded(n, events.drop_first());
    }
}

impl RecoveryState {
    pub open spec fn retry_view(&self) -> RetryView {
        RetryView {
            max_restarts: self.max_restarts as int,
            restart_round: self.restart_round as int,
            unattributed_retry_used: self.unattributed_retry_used,
        }
    }

    /// The counters stay in range and the skipped modules form a sorted set.
    pub open spec fn well_formed(&self) -> bool {
        &&& self.restart_round <= self.max_restarts + 1
        &&& self.max_restarts + 1 < usize::MAX
        &&& strictly_sorted(string_views(self.auto_skipped@))
        &&& reasons_fit(self.reason_entries(), string_views(self.auto_skipped@).to_set())
    }

    /// The module ids known to have a directory.
    pub open spec fn dir_entries(&self) -> Seq<(Seq<char>, Seq<char>)> {
        self.module_dirs@.map_values(|e: (String, String)| (e.0@, e.1@))
    }

    pub open spec fn reason_entries(&self) -> Seq<(Seq<char>, Seq<char>)> {
        self.mount_error_reasons@.map_values(|e: (String, String)| (e.0@, e.1@))
    }

    /// A fresh state for the module directories found: one restart per
    /// module, plus one.
    pub fn new(module_dirs: Vec<(String, String)>) -> (r: Self)
        requires
            module_dirs@.len() + 2 < usize::MAX,
        ensures
            r.well_formed(),
            r.module_dirs == module_dirs,
            r.max_restarts == module_dirs@.len() + 1,
            r.restart_round == 0,
            r.auto_skipped@.len() == 0,
            r.mount_error_reasons@.len() == 0,
            !r.unattributed_retry_used,
    {
        let max_restarts = module_dirs.len() + 1;
        RecoveryState {
            module_dirs,
            max_restarts,
            restart_round: 0,
            auto_skipped: Vec::new(),
            mount_error_reasons: Vec::new(),
            unattributed_retry_used: false,
        }
    }

    /// The number of the attempt under way, from 1.
    pub fn current_attempt(&self) -> (r: usize)
        requires
            self.well_formed(),
        ensures
            r == self.restart_round + 1,
    {
        self.restart_round + 1
    }

    pub fn max_restarts(&self) -> (r: usize)
        ensures
            r == self.max_restarts,
    {
        self.max_restarts
    }

    /// Decides on a failure that named no module: one retry is allowed, and
    /// none past the restart limit.
    pub fn handle_unattributed_failure(&mut self) -> (d: RecoveryDecision)
        requires
            old(self).well_formed(),
        ensures
            final(self).well_formed(),
            (final(self).retry_view(), d) == unattributed_step(old(self).retry_view()),
            final(self).module_dirs == old(self).module_dirs,
            final(self).auto_skipped == old(self).auto_skipped,
            final(self).mount_error_reasons == old(self).mount_error_reasons,
    {
        if self.restart_round > self.max_restarts {
            return RecoveryDecision::AbortRetryLimit;
        }
        if self.unattributed_retry_used {
            return RecoveryDecision::InspectModules;
        }
        self.unattributed_retry_used = true;
        self.restart_round = self.restart_round + 1;
        if self.restart_round > self.max_restarts {
            return RecoveryDecision::AbortRetryLimit;
        }
        RecoveryDecision::RetryUnattributed
    }

    /// Decides after modules were newly marked: another attempt unless the
    /// restart limit is passed.
    pub fn handle_newly_marked_modules(&mut self) -> (d: RecoveryDecision)
        requires
            old(self).well_formed(),
            old(self).restart_round <= old(self).max_restarts,
        ensures
            final(self).well_formed(),
            (final(self).retry_view(), d) == newly_marked_step(old(self).retry_view()),
            final(self).module_dirs == old(self).module_dirs,
            final(self).auto_skipped == old(self).auto_skipped,
            final(self).mount_error_reasons == old(self).mount_error_reasons,
    {
        self.restart_round = self.restart_round + 1;
        if self.restart_round > self.max_restarts {
            return RecoveryDecision::AbortRetryLimit;
        }
        RecoveryDecision::InspectModules
    }
}

/// Each reason belongs to a skipped module, and no module has two.
pub open spec fn reasons_fit(reasons: Seq<(Seq<char>, Seq<char>)>, skipped: Set<Seq<char>>) -> bool {
    &&& forall|i: int| 0 <= i < reasons.len() ==> skipped.contains(#[trigger] reasons[i].0)
    &&& forall|i: int, j: int|
        0 <= i < j < reasons.len() ==> #[trigger] reasons[i].0 != #[trigger] reasons[j].0
}

/// The directory of module `id`, if one was found.
pub open spec fn dir_of(dirs: Seq<(Seq<char>, Seq<char>)>, id: Seq<char>) -> Option<Seq<char>>
    decreases dirs.len(),
{
    if dirs.len() == 0 {
        None
    } else if dirs[0].0 == id {
        Some(dirs[0].1)
    } else {
        dir_of(dirs.drop_first(), id)
    }
}

/// How a list of failed modules is sorted out.
pub struct MarkView {
    pub newly: Seq<Seq<char>>,
    pub marker_dirs: Seq<Seq<char>>,
    pub already: Seq<Seq<char>>,
    pub unknown: Seq<Seq<char>>,
    pub skipped: Set<Seq<char>>,
}

/// Going through the failed modules in order: one already skipped (or met
/// earlier in the list) is already marked; one with a directory is newly
/// marked and gets a marker there; any other is unknown.
pub open spec fn mark_scan(
    ids: Seq<Seq<char>>,
    dirs: Seq<(Seq<char>, Seq<char>)>,
    skipped: Set<Seq<char>>,
) -> MarkView
    decreases ids.len(),
{
    if ids.len() == 0 {
        MarkView {
            newly: Seq::empty(),
            marker_dirs: Seq::empty(),
            already: Seq::empty(),
            unknown: Seq::empty(),
            skipped,
        }
    } else {
        let p = mark_scan(ids.drop_last(), dirs, skipped);
        let id = ids.last();
        if p.skipped.contains(id) {
            MarkView { already: p.already.push(id), ..p }
        } else {
            match dir_of(dirs, id) {
                Some(d) => MarkView {
                    newly: p.newly.push(id),
                    marker_dirs: p.marker_dirs.push(d),
                    skipped: p.skipped.insert(id),
                    ..p
                },
                None => MarkView { unknown: p.unknown.push(id), ..p },
            }
        }
    }
}

/// The module directories under a base directory: each subdirectory by
/// name, but the reserved ones, with its path.
pub open spec fn module_dirs_of(base: Seq<char>, entries: Seq<(Seq<char>, bool)>) -> Seq<(Seq<char>, Seq<char>)>
    decreases entries.len(),
{
    if entries.len() == 0 {
        Seq::empty()
    } else {
        let rest = module_dirs_of(base, entries.drop_last());
        let (name, is_dir) = entries.last();
        if is_dir && !crate::engine::inventory::reserved_dir(name) {
            rest.push((name, crate::engine::planner::join_name(base, name)))
        } else {
            rest
        }
    }
}

/// The module directories that the `mount_error` markers go into, from the
/// entries of `base` (name, and whether it is a directory): none when
/// `base` does not exist.
pub fn list_module_dirs(base: &str, base_exists: bool, entries: &Vec<(String, bool)>) -> (r: Vec<(String, String)>)
    ensures
        !base_exists ==> r@.len() == 0,
        base_exists ==> r@.map_values(|e: (String, String)| (e.0@, e.1@)) == module_dirs_of(
            base@,
            entries@.map_values(|e: (String, bool)| (e.0@, e.1)),
        ),
{
    let mut out: Vec<(String, String)> = Vec::new();
    if !base_exists {
        return out;
    }
    let ghost ev = entries@.map_values(|e: (String, bool)| (e.0@, e.1));
    let mut i: usize = 0;
    while i < entries.len()
        invariant
            i <= entries@.len(),
            ev == entries@.map_values(|e: (String, bool)| (e.0@, e.1)),
            out@.map_values(|e: (String, String)| (e.0@, e.1@)) == module_dirs_of(base@, ev.take(i as int)),
        decreases entries@.len() - i,
    {
        assert(ev.take(i + 1).drop_last() =~= ev.take(i as int));
        assert(ev.take(i + 1).last() == ev[i as int]);
        let ghost before = out@.map_values(|e: (String, String)| (e.0@, e.1@));
        let name = &entries[i].0;
        if entries[i].1 && !crate::engine::inventory::is_reserved_module_dir(name.as_str()) {
            let path = crate::engine::planner::join_path(base, name.as_str());
            out.push((name.clone(), path));
            assert(out@.map_values(|e: (String, String)| (e.0@, e.1@)) =~= before.push((name@, crate::engine::planner::join_name(base@, name@))));
        }
        i = i + 1;
    }
    assert(ev.take(entries@.len() as int) =~= ev);
    out
}

/// The outcome of sorting out failed modules.
pub struct MarkOutcome {
    pub newly_marked: Vec<String>,
    pub marker_dirs: Vec<String>,
    pub already_marked: Vec<String>,
    pub unknown_modules: Vec<String>,
}

fn find_dir(dirs: &Vec<(String, String)>, id: &String) -> (r: Option<String>)
    ensures
        match r {
            Some(d) => dir_of(dirs@.map_values(|e: (String, String)| (e.0@, e.1@)), id@) == Some(d@),
            None => dir_of(dirs@.map_values(|e: (String, String)| (e.0@, e.1@)), id@) is None,
        },
{
    let ghost dv = dirs@.map_values(|e: (String, String)| (e.0@, e.1@));
    assert(dv.skip(0) =~= dv);
    let mut i: usize = 0;
    while i < dirs.len()
        invariant
            i <= dirs@.len(),
            dv == dirs@.map_values(|e: (String, String)| (e.0@, e.1@)),
            dir_of(dv, id@) == dir_of(dv.skip(i as int), id@),
        decreases dirs@.len() - i,
    {
        assert(dv.skip(i as int)[0] == dv[i as int]);
        assert(dv.skip(i as int).drop_first() =~= dv.skip(i + 1));
        if dirs[i].0 == *id {
            return Some(dirs[i].1.clone());
        }
        i = i + 1;
    }
    assert(dv.skip(i as int).len() == 0);
    None
}

/// Sorts out the failed modules (see `mark_scan`) and adds the newly
/// marked ones to the skipped set. The caller creates the `mount_error`
/// marker in each of the returned directories.
pub fn mark_failed_modules(
    module_ids: &Vec<String>,
    module_dirs: &Vec<(String, String)>,
    auto_skipped: &mut Vec<String>,
) -> (r: MarkOutcome)
    requires
        strictly_sorted(string_views(old(auto_skipped)@)),
    ensures
        strictly_sorted(string_views(final(auto_skipped)@)),
        ({
            let m = mark_scan(
                string_views(module_ids@),
                module_dirs@.map_values(|e: (String, String)| (e.0@, e.1@)),
                string_views(old(auto_skipped)@).to_set(),
            );
            &&& string_views(r.newly_marked@) == m.newly
            &&& string_views(r.marker_dirs@) == m.marker_dirs
            &&& string_views(r.already_marked@) == m.already
            &&& string_views(r.unknown_modules@) == m.unknown
            &&& string_views(final(auto_skipped)@).to_set() == m.skipped
        }),
{
    let ghost ids = string_views(module_ids@);
    let ghost dv = module_dirs@.map_values(|e: (String, String)| (e.0@, e.1@));
    let ghost s0 = string_views(auto_skipped@).to_set();
    let mut newly_marked: Vec<String> = Vec::new();
    let mut marker_dirs: Vec<String> = Vec::new();
    let mut already_marked: Vec<String> = Vec::new();
    let mut unknown_modules: Vec<String> = Vec::new();
    let mut i: usize = 0;
    while i < module_ids.len()
        invariant
            i <= module_ids@.len(),
            ids == string_views(module_ids@),
            dv == module_dirs@.map_values(|e: (String, String)| (e.0@, e.1@)),
            strictly_sorted(string_views(auto_skipped@)),
            ({
                let m = mark_scan(ids.take(i as int), dv, s0);
                &&& string_views(newly_marked@) == m.newly
                &&& string_views(marker_dirs@) == m.marker_dirs
                &&& string_views(already_marked@) == m.already
                &&& string_views(unknown_modules@) == m.unknown
                &&& string_views(auto_skipped@).to_set() == m.skipped
            }),
        decreases module_ids@.len() - i,
    {
        let id = &module_ids[i];
        proof {
            assert(ids.take(i + 1).drop_last() =~= ids.take(i as int));
            assert(ids.take(i + 1).last() == id@);
        }
        if contains_string(auto_skipped, id) {
            let ghost prev = string_views(already_marked@);
            already_marked.push(id.clone());
            assert(string_views(already_marked@) =~= prev.push(id@));
        } else {
            match find_dir(module_dirs, id) {
                Some(d) => {
                    let ghost pn = string_views(newly_marked@);
                    let ghost pd = string_views(marker_dirs@);
                    insert_sorted(auto_skipped, id.clone());
                    newly_marked.push(id.clone());
                    marker_dirs.push(d);
                    assert(string_views(newly_marked@) =~= pn.push(id@));
                    assert(string_views(marker_dirs@) =~= pd.push(d@));
                },
                None => {
                    let ghost pu = string_views(unknown_modules@);
                    unknown_modules.push(id.clone());
                    assert(string_views(unknown_modules@) =~= pu.push(id@));
                },
            }
        }
        i = i + 1;
    }
    assert(ids.take(module_ids@.len() as int) =~= ids);
    MarkOutcome { newly_marked, marker_dirs, already_marked, unknown_modules }
}

/// `s` with each newline written as ` -> `.
pub open spec fn replace_newlines(s: Seq<char>) -> Seq<char>
    decreases s.len(),
{
    if s.len() == 0 {
        Seq::empty()
    } else {
        replace_newlines(s.drop_last()) + if s.last() == '\n' {
            seq![' ', '-', '>', ' ']
        } else {
            seq![s.last()]
        }
    }
}

/// The longest reason kept whole, in bytes; a longer one is cut.
pub const MAX_REASON_LEN: usize = 200;

/// The text with each newline written as ` -> `.
pub fn newlines_replaced(v: &Vec<char>) -> (r: String)
    ensures
        r@ == replace_newlines(v@),
{
    let mut norm = String::new();
    let mut i: usize = 0;
    while i < v.len()
        invariant
            i <= v@.len(),
            norm@ == replace_newlines(v@.take(i as int)),
        decreases v@.len() - i,
    {
        assert(v@.take(i + 1).drop_last() =~= v@.take(i as int));
        if v[i] == '\n' {
            push_char(&mut norm, ' ');
            push_char(&mut norm, '-');
            push_char(&mut norm, '>');
            push_char(&mut norm, ' ');
        } else {
            push_char(&mut norm, v[i]);
        }
        i = i + 1;
        assert(norm@ =~= replace_newlines(v@.take(i as int)));
    }
    assert(v@.take(v@.len() as int) =~= v@);
    norm
}

/// The reason recorded for a module marked at `stage`: the stage, and the
/// error text with newlines written as ` -> ` when there is a non-blank one;
/// a text over the byte limit keeps its first `MAX_REASON_LEN` characters
/// followed by `…`.
pub open spec fn reason_text(stage: Seq<char>, reason: Option<Seq<char>>) -> Seq<char> {
    match reason {
        Some(r) => if trim(r).len() > 0 {
            let n = replace_newlines(r);
            if encode_utf8(n).len() <= MAX_REASON_LEN {
                "stage="@ + stage + "; error="@ + n
            } else {
                let kept = if n.len() <= MAX_REASON_LEN {
                    n
                } else {
                    n.take(MAX_REASON_LEN as int)
                };
                "stage="@ + stage + "; error="@ + kept + seq!['…']
            }
        } else {
            "stage="@ + stage
        },
        None => "stage="@ + stage,
    }
}

/// The reason recorded for a module marked at `stage`, as `reason_text`
/// says.
pub fn build_reason(stage: &str, reason: Option<&str>) -> (r: String)
    ensures
        r@ == reason_text(stage@, match reason {
            Some(x) => Some(x@),
            None => None,
        }),
{
    let mut out = String::from_str("stage=");
    out.append(stage);
    match reason {
        Some(text) => {
            let v = chars_of(text);
            let t = trim_chars(&v);
            if t.len() == 0 {
                return out;
            }
            let norm = newlines_replaced(&v);
            out.append("; error=");
            let nv = chars_of(norm.as_str());
            if utf8_len_at_most(&nv, MAX_REASON_LEN) {
                out.append(norm.as_str());
            } else {
                let mut k: usize = 0;
                while k < nv.len() && k < MAX_REASON_LEN
                    invariant
                        k <= nv@.len(),
                        k <= MAX_REASON_LEN,
                        nv@ == norm@,
                        out@ == "stage="@ + stage@ + "; error="@ + nv@.take(k as int),
                    decreases nv@.len() - k,
                {
                    push_char(&mut out, nv[k]);
                    k = k + 1;
                    assert(out@ =~= "stage="@ + stage@ + "; error="@ + nv@.take(k as int));
                }
                assert(nv@.len() <= MAX_REASON_LEN ==> nv@.take(k as int) =~= nv@);
                push_char(&mut out, '…');
            }
            out
        },
        None => out,
    }
}

impl RecoveryState {
    /// Sorts out the modules a failure at `stage` named (see
    /// `mark_failed_modules`) and records the reason for each newly marked
    /// one. The caller creates the markers and saves the skipped list.
    pub fn mark_failed_modules(
        &mut self,
        stage: &str,
        reason: Option<&str>,
        module_ids: &Vec<String>,
    ) -> (r: MarkOutcome)
        requires
            old(self).well_formed(),
        ensures
            final(self).well_formed(),
            ({
                let m = mark_scan(
                    string_views(module_ids@),
                    old(self).dir_entries(),
                    string_views(old(self).auto_skipped@).to_set(),
                );
                let why = reason_text(stage@, match reason {
                    Some(x) => Some(x@),
                    None => None,
                });
                &&& string_views(r.newly_marked@) == m.newly
                &&& string_views(r.marker_dirs@) == m.marker_dirs
                &&& string_views(r.already_marked@) == m.already
                &&& string_views(r.unknown_modules@) == m.unknown
                &&& string_views(final(self).auto_skipped@).to_set() == m.skipped
                &&& final(self).reason_entries() == old(self).reason_entries() + m.newly.map_values(
                    |id: Seq<char>| (id, why),
                )
            }),
            final(self).retry_view() == old(self).retry_view(),
            final(self).module_dirs == old(self).module_dirs,
    {
        let outcome = mark_failed_modules(module_ids, &self.module_dirs, &mut self.auto_skipped);
        let detail = build_reason(stage, reason);
        let ghost old_reasons = self.reason_entries();
        let ghost m = mark_scan(
            string_views(module_ids@),
            self.dir_entries(),
            string_views(old(self).auto_skipped@).to_set(),
        );
        proof {
            lemma_mark_scan_newly(string_views(module_ids@), self.dir_entries(), string_views(old(self).auto_skipped@).to_set());
        }
        let mut i: usize = 0;
        while i < outcome.newly_marked.len()
            invariant
                i <= outcome.newly_marked@.len(),
                string_views(outcome.newly_marked@) == m.newly,
                self.reason_entries() == old_reasons + m.newly.take(i as int).map_values(
                    |id: Seq<char>| (id, detail@),
                ),
                reasons_fit(self.reason_entries(), string_views(self.auto_skipped@).to_set()),
                strictly_sorted(string_views(self.auto_skipped@)),
                string_views(self.auto_skipped@).to_set() == m.skipped,
                reasons_fit(old_reasons, string_views(old(self).auto_skipped@).to_set()),
                forall|k: int| 0 <= k < m.newly.len() ==> m.skipped.contains(#[trigger] m.newly[k]),
                forall|k: int| 0 <= k < m.newly.len() ==> !string_views(old(self).auto_skipped@).to_set().contains(#[trigger] m.newly[k]),
                forall|a: int, b: int| 0 <= a < b < m.newly.len() ==> #[trigger] m.newly[a] != #[trigger] m.newly[b],
                self.restart_round == old(self).restart_round,
                self.max_restarts == old(self).max_restarts,
                self.unattributed_retry_used == old(self).unattributed_retry_used,
                self.module_dirs == old(self).module_dirs,
            decreases outcome.newly_marked@.len() - i,
        {
            let ghost before = self.reason_entries();
            let id = outcome.newly_marked[i].clone();
            assert(id@ == m.newly[i as int]);
            self.mount_error_reasons.push((id, detail.clone()));
            assert(self.reason_entries() =~= before.push((m.newly[i as int], detail@)));
            assert(m.newly.take(i + 1).map_values(|id: Seq<char>| (id, detail@)) =~= m.newly.take(
                i as int,
            ).map_values(|id: Seq<char>| (id, detail@)).push((m.newly[i as int], detail@)));
            proof {
                let nr = self.reason_entries();
                assert forall|a: int, b: int| 0 <= a < b < nr.len() implies #[trigger] nr[a].0
                    != #[trigger] nr[b].0 by {
                    let ol = old_reasons.len();
                    if b >= ol && a < ol {
                        assert(string_views(old(self).auto_skipped@).to_set().contains(nr[a].0));
                    } else if a >= ol {
                        assert(nr[a].0 == m.newly[a - ol]);
                        assert(nr[b].0 == m.newly[b - ol]);
                    }
                }
                assert forall|a: int| 0 <= a < nr.len() implies string_views(self.auto_skipped@).to_set().contains(#[trigger] nr[a].0) by {
                    let ol = old_reasons.len();
                    if a < ol {
                        assert(string_views(old(self).auto_skipped@).to_set().contains(nr[a].0));
                        lemma_mark_scan_grows(string_views(module_ids@), self.dir_entries(), string_views(old(self).auto_skipped@).to_set());
                    } else {
                        assert(nr[a].0 == m.newly[a - ol]);
                    }
                }
            }
            i = i + 1;
        }
        assert(m.newly.take(m.newly.len() as int) =~= m.newly);
        outcome
    }

    /// The skipped modules, sorted, for the saved runtime state.
    pub fn mount_error_modules(&self) -> (r: Vec<String>)
        requires
            self.well_formed(),
        ensures
            strictly_sorted(string_views(r@)),
            string_views(r@) == string_views(self.auto_skipped@),
    {
        self.auto_skipped.clone()
    }
}

/// The skipped set only grows, every newly marked module ends up in it,
/// none of them was in it before, and none is marked twice.
pub proof fn lemma_mark_scan_newly(
    ids: Seq<Seq<char>>,
    dirs: Seq<(Seq<char>, Seq<char>)>,
    skipped: Set<Seq<char>>,
)
    ensures
        ({
            let m = mark_scan(ids, dirs, skipped);
            &&& forall|k: int| 0 <= k < m.newly.len() ==> m.skipped.contains(#[trigger] m.newly[k])
            &&& forall|k: int| 0 <= k < m.newly.len() ==> !skipped.contains(#[trigger] m.newly[k])
            &&& forall|a: int, b: int|
                0 <= a < b < m.newly.len() ==> #[trigger] m.newly[a] != #[trigger] m.newly[b]
            &&& skipped.subset_of(m.skipped)
        }),
    decreases ids.len(),
{
    if ids.len() > 0 {
        lemma_mark_scan_newly(ids.drop_last(), dirs, skipped);
    }
}

pub proof fn lemma_mark_scan_grows(
    ids: Seq<Seq<char>>,
    dirs: Seq<(Seq<char>, Seq<char>)>,
    skipped: Set<Seq<char>>,
)
    ensures
        skipped.subset_of(mark_scan(ids, dirs, skipped).skipped),
{
    lemma_mark_scan_newly(ids, dirs, skipped);
}

/// The boot stage at which a failure happened.
#[derive(Debug, Clone, Copy, PartialEq, Eq, Structural)]
pub enum FailureStage {
    Sync,
    Execute,
}

/// The text `stage=` takes for each stage.
pub fn stage_name(stage: FailureStage) -> (r: &'static str)
    ensures
        r@ == (match stage {
            FailureStage::Sync => "sync"@,
            FailureStage::Execute => "execute"@,
        }),
{
    match stage {
        FailureStage::Sync => "sync",
        FailureStage::Execute => "execute",
    }
}

/// A failure that a stage could pin on particular modules.
#[derive(Debug, Clone)]
pub struct ModuleStageFailure {
    pub stage: FailureStage,
    pub module_ids: Vec<String>,
    pub message: String,
}

impl ModuleStageFailure {
    pub fn new(stage: FailureStage, module_ids: Vec<String>, message: String) -> (r: Self)
        ensures
            r.stage == stage,
            r.module_ids@ == module_ids@,
            r.message@ == message@,
    {
        ModuleStageFailure { stage, module_ids, message }
    }
}

/// What the boot loop does after a failed attempt.
#[derive(Debug)]
pub enum RunDecision {
    /// Start another attempt; the markers of `marked` modules are created
    /// first.
    Retry,
    /// Give up: the restart limit is reached. The text is the error and the
    /// crash description.
    AbortRetryLimit(String),
    /// Give up: the failure cannot be pinned on new modules. The text is the
    /// crash description.
    Unrecoverable(String),
}

/// The error text when the restart limit is reached.
pub open spec fn limit_text(max_restarts: nat) -> Seq<char> {
    "Auto-recovery reached restart limit ("@ + crate::text::nat_decimal(max_restarts)
        + " rounds), aborting to avoid loop"@
}

pub fn retry_limit_error(max_restarts: usize) -> (r: String)
    ensures
        r@ == limit_text(max_restarts as nat),
{
    let mut out = String::from_str("Auto-recovery reached restart limit (");
    push_decimal(&mut out, max_restarts as u64);
    out.append(" rounds), aborting to avoid loop");
    out
}

impl RecoveryState {
    /// Decides after a failed boot attempt. `failure` is the module failure
    /// the error carries, if any; `error_text` is the whole error. Modules
    /// named by the failure are marked as in `mark_failed_modules`; the
    /// outcome lists the markers to create.
    pub fn on_boot_failure(&mut self, failure: Option<&ModuleStageFailure>, error_text: &str) -> (r: (RunDecision, Option<MarkOutcome>))
        requires
            old(self).well_formed(),
            old(self).restart_round <= old(self).max_restarts,
        ensures
            final(self).well_formed(),
            final(self).module_dirs == old(self).module_dirs,
            r.0 is Retry ==> final(self).restart_round <= final(self).max_restarts,
            r.0 is Retry ==> final(self).restart_round == old(self).restart_round + 1,
            failure is None ==> (r.0 matches RunDecision::Unrecoverable(t) && t@ == replace_newlines(error_text@)) && r.1 is None,
            r.0 matches RunDecision::AbortRetryLimit(t) ==> t@ == limit_text(old(self).max_restarts as nat),
            match failure {
                Some(f) => {
                    let ids = string_views(f.module_ids@);
                    let (n1, d1) = unattributed_step(old(self).retry_view());
                    if ids.len() == 0 && d1 != RecoveryDecision::InspectModules {
                        &&& r.1 is None
                        &&& final(self).retry_view() == n1
                        &&& (d1 == RecoveryDecision::RetryUnattributed ==> r.0 is Retry)
                        &&& (d1 == RecoveryDecision::AbortRetryLimit ==> r.0 is AbortRetryLimit)
                        &&& final(self).auto_skipped == old(self).auto_skipped
                    } else {
                        let m = mark_scan(ids, old(self).dir_entries(), string_views(old(self).auto_skipped@).to_set());
                        &&& (r.1 matches Some(o) && string_views(o.newly_marked@) == m.newly
                            && string_views(o.marker_dirs@) == m.marker_dirs
                            && string_views(o.already_marked@) == m.already
                            && string_views(o.unknown_modules@) == m.unknown)
                        &&& string_views(final(self).auto_skipped@).to_set() == m.skipped
                        &&& (m.newly.len() == 0 ==> (r.0 matches RunDecision::Unrecoverable(t) && t@ == replace_newlines(error_text@)))
                        &&& (m.newly.len() > 0 ==> {
                            let base = if ids.len() == 0 { n1 } else { old(self).retry_view() };
                            let (n2, d2) = newly_marked_step(base);
                            &&& final(self).retry_view() == n2
                            &&& (d2 == RecoveryDecision::AbortRetryLimit <==> r.0 is AbortRetryLimit)
                            &&& (d2 != RecoveryDecision::AbortRetryLimit <==> r.0 is Retry)
                        })
                    }
                },
                None => final(self).retry_view() == old(self).retry_view(),
            },
    {
        let f = match failure {
            None => {
                let v = chars_of(error_text);
                return (RunDecision::Unrecoverable(newlines_replaced(&v)), None);
            },
            Some(f) => f,
        };
        if f.module_ids.len() == 0 {
            let d = self.handle_unattributed_failure();
            match d {
                RecoveryDecision::RetryUnattributed => {
                    return (RunDecision::Retry, None);
                },
                RecoveryDecision::AbortRetryLimit => {
                    return (RunDecision::AbortRetryLimit(retry_limit_error(self.max_restarts)), None);
                },
                RecoveryDecision::InspectModules => {},
            }
        }
        let ghost before = *self;
        proof {
            lemma_mark_scan_grows(
                string_views(f.module_ids@),
                self.dir_entries(),
                string_views(self.auto_skipped@).to_set(),
            );
        }
        let outcome = mark_failed_modules(&f.module_ids, &self.module_dirs, &mut self.auto_skipped);
        assert(self.reason_entries() == before.reason_entries());
        assert forall|i: int| 0 <= i < self.reason_entries().len() implies string_views(self.auto_skipped@).to_set().contains(#[trigger] self.reason_entries()[i].0) by {
            assert(string_views(before.auto_skipped@).to_set().contains(before.reason_entries()[i].0));
        }
        if outcome.newly_marked.len() > 0 {
            let d = self.handle_newly_marked_modules();
            match d {
                RecoveryDecision::AbortRetryLimit => {
                    let t = retry_limit_error(self.max_restarts);
                    (RunDecision::AbortRetryLimit(t), Some(outcome))
                },
                _ => (RunDecision::Retry, Some(outcome)),
            }
        } else {
            let v = chars_of(error_text);
            (RunDecision::Unrecoverable(newlines_replaced(&v)), Some(outcome))
        }
    }
}

} // verus!
