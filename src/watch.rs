use vstd::prelude::*;

use crate::paths::{is_dynamic_library, is_library_path, LibraryPlatform};

verus! {

/// Options that configure watching.
#[derive(Debug, Clone, Copy, PartialEq, Eq, Structural)]
pub struct WatchOptions {
    /// Debounce window in milliseconds to coalesce rapid events.
    pub debounce_ms: u64,
    /// Whether to watch directories recursively.
    pub recursive: bool,
    /// Whether ready paths are loaded at once, handing out handles.
    pub auto_load: bool,
    /// Whether a removed library is unloaded at once.
    pub auto_unload: bool,
    /// Whether typed proxies are handed out instead of raw handles.
    pub emit_proxies: bool,
}

impl Default for WatchOptions {
    fn default() -> (r: WatchOptions)
        ensures
            r == (WatchOptions {
                debounce_ms: 300,
                recursive: false,
                auto_load: true,
                auto_unload: false,
                emit_proxies: false,
            }),
    {
        WatchOptions {
            debounce_ms: 300,
            recursive: false,
            auto_load: true,
            auto_unload: false,
            emit_proxies: false,
        }
    }
}

/// Event emitted when a new library file appears.
#[derive(Debug, Clone)]
pub enum PluginEvent {
    NewPlugin(String),
}

/// Notifications that cross from the watcher thread to the manager's thread:
/// paths and plain values only, never handles.
#[derive(Debug)]
pub enum WatchNotification {
    /// Paths that passed the debounce window.
    Paths(Vec<String>),
    /// A library path was removed.
    Unloaded { path: String, counter: Option<u64> },
    /// Failure of the watcher itself.
    Error(String),
}

/// The kind of a filesystem event, as far as watching is concerned.
#[derive(Debug, Clone, Copy, PartialEq, Eq, Structural)]
pub enum FsEventKind {
    CreateOrModify,
    Remove,
    Other,
}

/// A path waiting out its debounce window since the time `since` (ms).
pub struct Pending {
    pub path: String,
    pub since: u64,
}

/// The decisions of a watcher: which library paths it has seen, and which
/// wait in the debounce window.
pub struct WatchState {
    seen: Vec<String>,
    pending: Vec<Pending>,
}

/// What a watcher state stands for.
pub struct WatchView {
    pub seen: Seq<Seq<char>>,
    pub pending: Seq<(Seq<char>, u64)>,
}

pub open spec fn pending_view(p: Pending) -> (Seq<char>, u64) {
    (p.path@, p.since)
}

impl View for WatchState {
    type V = WatchView;

    closed spec fn view(&self) -> WatchView {
        WatchView {
            seen: self.seen@.map_values(|s: String| s@),
            pending: self.pending@.map_values(|p: Pending| pending_view(p)),
        }
    }
}

/// The position of the entry of `p` among `pending`, or -1.
pub open spec fn pending_index(pending: Seq<(Seq<char>, u64)>, p: Seq<char>) -> int
    decreases pending.len(),
{
    if pending.len() == 0 {
        -1
    } else if pending.last().0 == p {
        pending.len() - 1
    } else {
        pending_index(pending.drop_last(), p)
    }
}

/// Starts or restarts the debounce window of `p` at `now`.
pub open spec fn pend(pending: Seq<(Seq<char>, u64)>, p: Seq<char>, now: u64) -> Seq<(Seq<char>, u64)> {
    let i = pending_index(pending, p);
    if i < 0 {
        pending.push((p, now))
    } else {
        pending.update(i, (p, now))
    }
}

/// The debounce entries after a create or modify event on `paths`: each
/// library path not seen yet starts or restarts its window.
pub open spec fn pend_all(
    seen: Seq<Seq<char>>,
    pending: Seq<(Seq<char>, u64)>,
    paths: Seq<Seq<char>>,
    now: u64,
    platform: LibraryPlatform,
) -> Seq<(Seq<char>, u64)>
    decreases paths.len(),
{
    if paths.len() == 0 {
        pending
    } else {
        let prev = pend_all(seen, pending, paths.drop_last(), now, platform);
        let p = paths.last();
        if is_library_path(p, platform) && !seen.contains(p) {
            pend(prev, p, now)
        } else {
            prev
        }
    }
}

/// The watcher after an event, and the removed library paths to report.
pub open spec fn event_spec(
    v: WatchView,
    kind: FsEventKind,
    paths: Seq<Seq<char>>,
    now: u64,
    platform: LibraryPlatform,
) -> (WatchView, Seq<Seq<char>>) {
    match kind {
        FsEventKind::CreateOrModify => (
            WatchView { seen: v.seen, pending: pend_all(v.seen, v.pending, paths, now, platform) },
            seq![],
        ),
        FsEventKind::Remove => (v, paths.filter(|p: Seq<char>| is_library_path(p, platform))),
        FsEventKind::Other => (v, seq![]),
    }
}

/// Milliseconds from `since` to `now`, zero when the clock went back.
pub open spec fn elapsed(now: u64, since: u64) -> u64 {
    if now >= since {
        (now - since) as u64
    } else {
        0
    }
}

/// Whether a debounce entry has waited out the window at `now`.
pub open spec fn is_ready(e: (Seq<char>, u64), now: u64, debounce_ms: u64) -> bool {
    elapsed(now, e.1) >= debounce_ms
}

/// The paths that become ready at `now`, in the order they were first seen.
pub open spec fn ready_spec(v: WatchView, now: u64, debounce_ms: u64) -> Seq<Seq<char>> {
    v.pending.filter(|e: (Seq<char>, u64)| is_ready(e, now, debounce_ms)).map_values(
        |e: (Seq<char>, u64)| e.0,
    )
}

/// The watcher after a tick at `now`: the ready paths leave the debounce
/// window and count as seen.
pub open spec fn tick_spec(v: WatchView, now: u64, debounce_ms: u64) -> WatchView {
    WatchView {
        seen: v.seen + ready_spec(v, now, debounce_ms),
        pending: v.pending.filter(|e: (Seq<char>, u64)| !is_ready(e, now, debounce_ms)),
    }
}

/// The library paths of an initial directory listing.
pub open spec fn initial_seen(entries: Seq<String>, platform: LibraryPlatform) -> Seq<Seq<char>> {
    entries.map_values(|s: String| s@).filter(|p: Seq<char>| is_library_path(p, platform))
}

impl WatchState {
    /// A watcher that counts the libraries already in the directory as seen,
    /// so that only files appearing later are reported.
    pub fn new(entries: &Vec<String>, platform: LibraryPlatform) -> (r: WatchState)
        ensures
            r@.seen == initial_seen(entries@, platform),
            r@.pending == Seq::<(Seq<char>, u64)>::empty(),
    {
        let ghost pred = |p: Seq<char>| is_library_path(p, platform);
        let ghost all = entries@.map_values(|s: String| s@);
        let mut seen: Vec<String> = Vec::new();
        let mut i: usize = 0;
        while i < entries.len()
            invariant
                i <= entries@.len(),
                all == entries@.map_values(|s: String| s@),
                pred == (|p: Seq<char>| is_library_path(p, platform)),
                seen@.map_values(|s: String| s@) == all.take(i as int).filter(pred),
            decreases entries@.len() - i,
        {
            proof {
                reveal(Seq::filter);
                assert(all.take(i + 1).drop_last() == all.take(i as int));
                assert(all.take(i + 1).last() == entries@[i as int]@);
            }
            if is_dynamic_library(entries[i].as_str(), platform) {
                let ghost before = seen@;
                seen.push(entries[i].clone());
                assert(seen@.map_values(|s: String| s@) =~= before.map_values(|s: String| s@).push(
                    entries@[i as int]@,
                ));
            }
            i = i + 1;
        }
        assert(all.take(entries@.len() as int) == all);
        let r = WatchState { seen, pending: Vec::new() };
        assert(r@.pending =~= Seq::<(Seq<char>, u64)>::empty());
        r
    }
}

proof fn lemma_pending_index_bounds(pending: Seq<(Seq<char>, u64)>, p: Seq<char>)
    ensures
        -1 <= pending_index(pending, p) < pending.len(),
        pending_index(pending, p) >= 0 ==> pending[pending_index(pending, p)].0 == p,
    decreases pending.len(),
{
    if pending.len() > 0 && pending.last().0 != p {
        lemma_pending_index_bounds(pending.drop_last(), p);
    }
}

impl WatchState {
    fn has_seen(&self, p: &String) -> (r: bool)
        ensures
            r == self@.seen.contains(p@),
    {
        let ghost sv = self@.seen;
        let mut i: usize = 0;
        while i < self.seen.len()
            invariant
                i <= self.seen@.len(),
                sv == self@.seen,
                sv.len() == self.seen@.len(),
                forall|j: int| 0 <= j < i ==> sv[j] != p@,
            decreases self.seen@.len() - i,
        {
            if self.seen[i] == *p {
                assert(sv[i as int] == p@);
                return true;
            }
            i = i + 1;
        }
        false
    }

    fn find_pending(&self, p: &String) -> (r: Option<usize>)
        ensures
            r == (if pending_index(self@.pending, p@) < 0 {
                None::<usize>
            } else {
                Some(pending_index(self@.pending, p@) as usize)
            }),
    {
        let ghost pv = self@.pending;
        let mut i: usize = self.pending.len();
        assert(pv.take(i as int) == pv);
        while i > 0
            invariant
                i <= self.pending@.len(),
                pv == self@.pending,
                pv.len() == self.pending@.len(),
                pending_index(pv, p@) == pending_index(pv.take(i as int), p@),
            decreases i,
        {
            assert(pv.take(i as int).drop_last() == pv.take(i - 1));
            assert(pv.take(i as int).last() == pv[i - 1]);
            if self.pending[i - 1].path == *p {
                return Some(i - 1);
            }
            i = i - 1;
        }
        None
    }

    fn pend_path(&mut self, p: &String, now: u64)
        ensures
            final(self)@.seen == old(self)@.seen,
            final(self)@.pending == pend(old(self)@.pending, p@, now),
    {
        let ghost before = self.pending@;
        proof {
            lemma_pending_index_bounds(self@.pending, p@);
        }
        match self.find_pending(p) {
            Some(i) => {
                self.pending.set(i, Pending { path: p.clone(), since: now });
                assert(self@.pending =~= pend(old(self)@.pending, p@, now));
            },
            None => {
                self.pending.push(Pending { path: p.clone(), since: now });
                assert(self@.pending =~= before.map_values(|e: Pending| pending_view(e)).push((p@, now)));
            },
        }
    }

    /// Takes in one filesystem event at time `now` (ms). A create or modify of
    /// a library path not seen yet starts or restarts its debounce window; a
    /// remove returns the removed library paths, to be reported at once.
    pub fn on_event(
        &mut self,
        kind: FsEventKind,
        paths: &Vec<String>,
        now: u64,
        platform: LibraryPlatform,
    ) -> (r: Vec<String>)
        ensures
            (final(self)@, r@.map_values(|s: String| s@)) == event_spec(
                old(self)@,
                kind,
                paths@.map_values(|s: String| s@),
                now,
                platform,
            ),
    {
        let ghost all = paths@.map_values(|s: String| s@);
        let mut removed: Vec<String> = Vec::new();
        match kind {
            FsEventKind::CreateOrModify => {
                let mut i: usize = 0;
                while i < paths.len()
                    invariant
                        i <= paths@.len(),
                        all == paths@.map_values(|s: String| s@),
                        self@.seen == old(self)@.seen,
                        self@.pending == pend_all(
                            old(self)@.seen,
                            old(self)@.pending,
                            all.take(i as int),
                            now,
                            platform,
                        ),
                        removed@.len() == 0,
                    decreases paths@.len() - i,
                {
                    assert(all.take(i + 1).drop_last() == all.take(i as int));
                    assert(all.take(i + 1).last() == paths@[i as int]@);
                    let p = &paths[i];
                    if is_dynamic_library(p.as_str(), platform) && !self.has_seen(p) {
                        self.pend_path(p, now);
                    }
                    i = i + 1;
                }
                assert(all.take(paths@.len() as int) == all);
                assert(removed@.map_values(|s: String| s@) =~= Seq::<Seq<char>>::empty());
            },
            FsEventKind::Remove => {
                let ghost pred = |p: Seq<char>| is_library_path(p, platform);
                let mut i: usize = 0;
                while i < paths.len()
                    invariant
                        i <= paths@.len(),
                        all == paths@.map_values(|s: String| s@),
                        pred == (|p: Seq<char>| is_library_path(p, platform)),
                        self@ == old(self)@,
                        removed@.map_values(|s: String| s@) == all.take(i as int).filter(pred),
                    decreases paths@.len() - i,
                {
                    proof {
                        reveal(Seq::filter);
                        assert(all.take(i + 1).drop_last() == all.take(i as int));
                        assert(all.take(i + 1).last() == paths@[i as int]@);
                    }
                    if is_dynamic_library(paths[i].as_str(), platform) {
                        let ghost before = removed@;
                        removed.push(paths[i].clone());
                        assert(removed@.map_values(|s: String| s@) =~= before.map_values(
                            |s: String| s@,
                        ).push(paths@[i as int]@));
                    }
                    i = i + 1;
                }
                assert(all.take(paths@.len() as int) == all);
            },
            FsEventKind::Other => {
                assert(removed@.map_values(|s: String| s@) =~= Seq::<Seq<char>>::empty());
            },
        }
        removed
    }
}

impl WatchState {
    /// Takes in a periodic tick at time `now` (ms): every path whose debounce
    /// window of `debounce_ms` has passed leaves the window, counts as seen,
    /// and is returned.
    pub fn on_tick(&mut self, now: u64, debounce_ms: u64) -> (r: Vec<String>)
        ensures
            r@.map_values(|s: String| s@) == ready_spec(old(self)@, now, debounce_ms),
            final(self)@ == tick_spec(old(self)@, now, debounce_ms),
    {
        let ghost pv = self@.pending;
        let ghost ready_pred = |e: (Seq<char>, u64)| is_ready(e, now, debounce_ms);
        let ghost keep_pred = |e: (Seq<char>, u64)| !is_ready(e, now, debounce_ms);
        let ghost fst = |e: (Seq<char>, u64)| e.0;
        let mut ready: Vec<String> = Vec::new();
        let mut kept: Vec<Pending> = Vec::new();
        let n = self.pending.len();
        let mut i: usize = 0;
        while i < n
            invariant
                n == self.pending@.len(),
                pv == self@.pending,
                pv.len() == n,
                i <= n,
                self@ == old(self)@,
                ready_pred == (|e: (Seq<char>, u64)| is_ready(e, now, debounce_ms)),
                keep_pred == (|e: (Seq<char>, u64)| !is_ready(e, now, debounce_ms)),
                fst == (|e: (Seq<char>, u64)| e.0),
                ready@.map_values(|s: String| s@) == pv.take(i as int).filter(ready_pred).map_values(fst),
                kept@.map_values(|p: Pending| pending_view(p)) == pv.take(i as int).filter(keep_pred),
            decreases n - i,
        {
            let since = self.pending[i].since;
            let waited: u64 = if now >= since {
                now - since
            } else {
                0
            };
            proof {
                reveal(Seq::filter);
                assert(pv.take(i + 1).drop_last() == pv.take(i as int));
                assert(pv.take(i + 1).last() == pv[i as int]);
                assert(pv[i as int] == pending_view(self.pending@[i as int]));
            }
            let ghost r0 = ready@;
            let ghost k0 = kept@;
            if waited >= debounce_ms {
                ready.push(self.pending[i].path.clone());
                assert(ready@.map_values(|s: String| s@) =~= r0.map_values(|s: String| s@).push(
                    pv[i as int].0,
                ));
                assert(pv.take(i + 1).filter(ready_pred).map_values(fst) =~= pv.take(
                    i as int,
                ).filter(ready_pred).map_values(fst).push(pv[i as int].0));
            } else {
                kept.push(Pending { path: self.pending[i].path.clone(), since });
                assert(kept@.map_values(|p: Pending| pending_view(p)) =~= k0.map_values(
                    |p: Pending| pending_view(p),
                ).push(pv[i as int]));
            }
            i = i + 1;
        }
        assert(pv.take(n as int) == pv);
        let mut j: usize = 0;
        let ghost seen0 = self@.seen;
        let ghost rv = ready@.map_values(|s: String| s@);
        while j < ready.len()
            invariant
                j <= ready@.len(),
                rv == ready@.map_values(|s: String| s@),
                self.seen@.map_values(|s: String| s@) == seen0 + rv.take(j as int),
            decreases ready@.len() - j,
        {
            let ghost before = self.seen@;
            self.seen.push(ready[j].clone());
            assert(self.seen@.map_values(|s: String| s@) =~= before.map_values(|s: String| s@).push(
                rv[j as int],
            ));
            assert(rv.take(j + 1) =~= rv.take(j as int).push(rv[j as int]));
            j = j + 1;
        }
        assert(rv.take(ready@.len() as int) == rv);
        self.pending = kept;
        assert(self@.seen =~= tick_spec(old(self)@, now, debounce_ms).seen);
        assert(self@.pending =~= tick_spec(old(self)@, now, debounce_ms).pending);
        ready
    }
}

/// The path of a debounce entry.
pub open spec fn entry_path(e: (Seq<char>, u64)) -> Seq<char> {
    e.0
}

/// The invariant of a watcher: a path waits in the debounce window at most
/// once, and never after it was seen.
pub open spec fn watch_wf(v: WatchView) -> bool {
    &&& forall|i: int| 0 <= i < v.pending.len() ==> !v.seen.contains(#[trigger] v.pending[i].0)
    &&& v.pending.map_values(|e: (Seq<char>, u64)| entry_path(e)).no_duplicates()
}

proof fn lemma_pending_index_absent(pending: Seq<(Seq<char>, u64)>, p: Seq<char>)
    requires
        pending_index(pending, p) < 0,
    ensures
        forall|i: int| 0 <= i < pending.len() ==> (#[trigger] pending[i]).0 != p,
    decreases pending.len(),
{
    if pending.len() > 0 {
        lemma_pending_index_absent(pending.drop_last(), p);
        assert forall|i: int| 0 <= i < pending.len() implies (#[trigger] pending[i]).0 != p by {
            if i < pending.len() - 1 {
                assert(pending.drop_last()[i] == pending[i]);
            }
        }
    }
}

proof fn lemma_pend_wf(v: WatchView, p: Seq<char>, now: u64)
    requires
        watch_wf(v),
        !v.seen.contains(p),
    ensures
        watch_wf(WatchView { seen: v.seen, pending: pend(v.pending, p, now) }),
{
    let keys = v.pending.map_values(|e: (Seq<char>, u64)| entry_path(e));
    let np = pend(v.pending, p, now);
    let nkeys = np.map_values(|e: (Seq<char>, u64)| entry_path(e));
    lemma_pending_index_bounds(v.pending, p);
    if pending_index(v.pending, p) < 0 {
        lemma_pending_index_absent(v.pending, p);
        assert(nkeys =~= keys.push(p));
        assert forall|i: int, j: int| 0 <= i < nkeys.len() && 0 <= j < nkeys.len() && i != j implies nkeys[i]
            != nkeys[j] by {
            if i < keys.len() && j < keys.len() {
                assert(keys[i] != keys[j]);
            } else if i < keys.len() {
                assert(v.pending[i].0 != p);
            } else {
                assert(v.pending[j].0 != p);
            }
        }
    } else {
        assert(nkeys =~= keys);
    }
}

proof fn lemma_pend_all_wf(
    v: WatchView,
    paths: Seq<Seq<char>>,
    now: u64,
    platform: LibraryPlatform,
)
    requires
        watch_wf(v),
    ensures
        watch_wf(WatchView { seen: v.seen, pending: pend_all(v.seen, v.pending, paths, now, platform) }),
    decreases paths.len(),
{
    if paths.len() > 0 {
        lemma_pend_all_wf(v, paths.drop_last(), now, platform);
        let prev = pend_all(v.seen, v.pending, paths.drop_last(), now, platform);
        let p = paths.last();
        if is_library_path(p, platform) && !v.seen.contains(p) {
            lemma_pend_wf(WatchView { seen: v.seen, pending: prev }, p, now);
        }
    }
}

proof fn lemma_same_key_same_entry(
    pending: Seq<(Seq<char>, u64)>,
    e1: (Seq<char>, u64),
    e2: (Seq<char>, u64),
)
    requires
        pending.map_values(|e: (Seq<char>, u64)| entry_path(e)).no_duplicates(),
        pending.contains(e1),
        pending.contains(e2),
        e1.0 == e2.0,
    ensures
        e1 == e2,
{
    let keys = pending.map_values(|e: (Seq<char>, u64)| entry_path(e));
    let a = choose|a: int| 0 <= a < pending.len() && pending[a] == e1;
    let b = choose|b: int| 0 <= b < pending.len() && pending[b] == e2;
    assert(keys[a] == keys[b]);
}

proof fn lemma_filter_keys_unique(s: Seq<(Seq<char>, u64)>, pred: spec_fn((Seq<char>, u64)) -> bool)
    requires
        s.map_values(|e: (Seq<char>, u64)| entry_path(e)).no_duplicates(),
    ensures
        s.filter(pred).map_values(|e: (Seq<char>, u64)| entry_path(e)).no_duplicates(),
    decreases s.len(),
{
    reveal(Seq::filter);
    if s.len() > 0 {
        let d = s.drop_last();
        let keys = s.map_values(|e: (Seq<char>, u64)| entry_path(e));
        assert(d.map_values(|e: (Seq<char>, u64)| entry_path(e)) =~= keys.drop_last());
        lemma_filter_keys_unique(d, pred);
        let fd = d.filter(pred);
        if pred(s.last()) {
            let fk = fd.map_values(|e: (Seq<char>, u64)| entry_path(e));
            let nk = s.filter(pred).map_values(|e: (Seq<char>, u64)| entry_path(e));
            assert(nk =~= fk.push(s.last().0));
            assert forall|i: int| 0 <= i < fk.len() implies fk[i] != s.last().0 by {
                assert(fd.contains(fd[i]));
                d.lemma_filter_contains_rev(pred, fd[i]);
                let a = choose|a: int| 0 <= a < d.len() && d[a] == fd[i];
                assert(keys[a] != keys[s.len() - 1]);
            }
            assert forall|i: int, j: int| 0 <= i < nk.len() && 0 <= j < nk.len() && i != j implies nk[i]
                != nk[j] by {
                if i < fk.len() && j < fk.len() {
                    assert(fk[i] != fk[j]);
                }
            }
        }
    }
}

/// A new watcher, and every step of one, keeps the invariant.
pub proof fn lemma_watch_wf_preserved(
    v: WatchView,
    kind: FsEventKind,
    paths: Seq<Seq<char>>,
    now: u64,
    debounce_ms: u64,
    platform: LibraryPlatform,
)
    requires
        watch_wf(v),
    ensures
        watch_wf(event_spec(v, kind, paths, now, platform).0),
        watch_wf(tick_spec(v, now, debounce_ms)),
        watch_wf(WatchView { seen: v.seen, pending: Seq::empty() }),
{
    lemma_pend_all_wf(v, paths, now, platform);
    let rp = |e: (Seq<char>, u64)| is_ready(e, now, debounce_ms);
    let kp = |e: (Seq<char>, u64)| !is_ready(e, now, debounce_ms);
    let kept = v.pending.filter(kp);
    let rd = v.pending.filter(rp);
    let ready = ready_spec(v, now, debounce_ms);
    let t = tick_spec(v, now, debounce_ms);
    lemma_filter_keys_unique(v.pending, kp);
    assert forall|i: int| 0 <= i < kept.len() implies !t.seen.contains(#[trigger] kept[i].0) by {
        assert(kept.contains(kept[i]));
        v.pending.lemma_filter_contains_rev(kp, kept[i]);
        v.pending.lemma_filter_pred(kp, i);
        if t.seen.contains(kept[i].0) {
            let k = choose|k: int| 0 <= k < t.seen.len() && t.seen[k] == kept[i].0;
            if k >= v.seen.len() {
                let j = k - v.seen.len();
                assert(ready[j] == rd[j].0);
                assert(rd.contains(rd[j]));
                v.pending.lemma_filter_contains_rev(rp, rd[j]);
                v.pending.lemma_filter_pred(rp, j);
                lemma_same_key_same_entry(v.pending, kept[i], rd[j]);
            } else {
                let a = choose|a: int| 0 <= a < v.pending.len() && v.pending[a] == kept[i];
                assert(v.seen[k] == kept[i].0);
                assert(v.seen.contains(v.pending[a].0));
            }
        }
    }
    let empty = WatchView { seen: v.seen, pending: Seq::<(Seq<char>, u64)>::empty() };
    assert(empty.pending.map_values(|e: (Seq<char>, u64)| entry_path(e)) =~= Seq::<Seq<char>>::empty());
}

/// No report for an already seen path: a path that the watcher has seen,
/// such as a library present when it started, never becomes ready.
pub proof fn lemma_seen_never_reported(v: WatchView, now: u64, debounce_ms: u64, p: Seq<char>)
    requires
        watch_wf(v),
        v.seen.contains(p),
    ensures
        !ready_spec(v, now, debounce_ms).contains(p),
{
    let rp = |e: (Seq<char>, u64)| is_ready(e, now, debounce_ms);
    let rd = v.pending.filter(rp);
    if ready_spec(v, now, debounce_ms).contains(p) {
        let j = choose|j: int| 0 <= j < rd.len() && rd[j].0 == p;
        assert(rd.contains(rd[j]));
        v.pending.lemma_filter_contains_rev(rp, rd[j]);
        let a = choose|a: int| 0 <= a < v.pending.len() && v.pending[a] == rd[j];
        assert(!v.seen.contains(v.pending[a].0));
    }
}

/// Each path is reported ready at most once: once a tick reported it, no
/// later event followed by a tick reports it again.
pub proof fn lemma_reported_once(
    v: WatchView,
    t1: u64,
    d1: u64,
    kind: FsEventKind,
    paths: Seq<Seq<char>>,
    t2: u64,
    platform: LibraryPlatform,
    t3: u64,
    d2: u64,
    p: Seq<char>,
)
    requires
        watch_wf(v),
        ready_spec(v, t1, d1).contains(p),
    ensures
        !ready_spec(
            event_spec(tick_spec(v, t1, d1), kind, paths, t2, platform).0,
            t3,
            d2,
        ).contains(p),
{
    let v1 = tick_spec(v, t1, d1);
    lemma_watch_wf_preserved(v, kind, paths, t1, d1, platform);
    lemma_watch_wf_preserved(v1, kind, paths, t2, d1, platform);
    let v2 = event_spec(v1, kind, paths, t2, platform).0;
    let r = ready_spec(v, t1, d1);
    let k = choose|k: int| 0 <= k < r.len() && r[k] == p;
    assert(v1.seen[v.seen.len() + k] == p);
    assert(v2.seen == v1.seen);
    assert(v2.seen.contains(p));
    lemma_seen_never_reported(v2, t3, d2, p);
}

/// Polling: the seen paths after a directory listing, and the library paths
/// it showed for the first time, in listing order.
pub open spec fn listing_spec(
    seen: Seq<Seq<char>>,
    entries: Seq<Seq<char>>,
    platform: LibraryPlatform,
) -> (Seq<Seq<char>>, Seq<Seq<char>>)
    decreases entries.len(),
{
    if entries.len() == 0 {
        (seen, seq![])
    } else {
        let (s0, n0) = listing_spec(seen, entries.drop_last(), platform);
        let e = entries.last();
        if is_library_path(e, platform) && !s0.contains(e) {
            (s0.push(e), n0.push(e))
        } else {
            (s0, n0)
        }
    }
}

impl WatchState {
    /// Takes in a fresh listing of the directory: every library path not seen
    /// before counts as seen from now on and is returned, once.
    pub fn on_listing(&mut self, entries: &Vec<String>, platform: LibraryPlatform) -> (r: Vec<String>)
        ensures
            (final(self)@.seen, r@.map_values(|s: String| s@)) == listing_spec(
                old(self)@.seen,
                entries@.map_values(|s: String| s@),
                platform,
            ),
            final(self)@.pending == old(self)@.pending,
    {
        let ghost all = entries@.map_values(|s: String| s@);
        let mut out: Vec<String> = Vec::new();
        let mut i: usize = 0;
        while i < entries.len()
            invariant
                i <= entries@.len(),
                all == entries@.map_values(|s: String| s@),
                self@.pending == old(self)@.pending,
                (self@.seen, out@.map_values(|s: String| s@)) == listing_spec(
                    old(self)@.seen,
                    all.take(i as int),
                    platform,
                ),
            decreases entries@.len() - i,
        {
            assert(all.take(i + 1).drop_last() == all.take(i as int));
            assert(all.take(i + 1).last() == entries@[i as int]@);
            let e = &entries[i];
            if is_dynamic_library(e.as_str(), platform) && !self.has_seen(e) {
                let ghost s0 = self.seen@;
                let ghost o0 = out@;
                self.seen.push(e.clone());
                out.push(e.clone());
                assert(self.seen@.map_values(|s: String| s@) =~= s0.map_values(|s: String| s@).push(e@));
                assert(out@.map_values(|s: String| s@) =~= o0.map_values(|s: String| s@).push(e@));
            }
            i = i + 1;
        }
        assert(all.take(entries@.len() as int) == all);
        out
    }
}

} // verus!
