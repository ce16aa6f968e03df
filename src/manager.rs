use vstd::prelude::*;

use crate::abi::{plugin_id_of, PluginId, PluginTrait};
use crate::loader::LoadedArray;
use crate::paths::{is_dynamic_library, is_library_path, LibraryPlatform};

verus! {

/// Relies on `std::io::Error` only as an opaque value that a failed directory
/// listing hands back; nothing is assumed of its contents.
#[verifier::external_type_specification]
#[verifier::external_body]
pub struct ExIoError(std::io::Error);

/// Errors when loading plugins.
#[derive(Debug)]
pub enum PluginLoadError {
    /// Listing the directory failed.
    Io(std::io::Error),
    /// The dynamic linker refused a library.
    Lib(String),
    /// No candidate produced a registration for the requested trait.
    NoRegistrations,
}

/// Errors when unloading.
#[derive(Debug)]
pub enum PluginUnloadError {
    Lib(String),
}

/// The manager's record of one opened library and its registration array.
pub struct LoadedLib {
    /// Path from which the library was loaded.
    pub path: String,
    pub trait_id: PluginTrait,
    pub array: LoadedArray,
    /// Live handles that share ownership of the library.
    pub owners: usize,
    /// The close latch: set at most once, by a close or a path unload.
    pub closed: bool,
    /// Teardown has been ordered: the library must not be used again.
    pub unloaded: bool,
    /// The path counts as loaded, so listing the directory again skips it.
    pub listed: bool,
}

/// A library file that was opened and probed, with the array it yielded.
pub struct FoundLibrary {
    pub path: String,
    pub array: LoadedArray,
}

/// What a handle designates, for contracts.
#[derive(Debug, Clone, Copy, PartialEq, Eq, Structural)]
pub struct HandleView {
    pub slot: usize,
    pub index: usize,
    pub trait_id: PluginTrait,
    pub id: u128,
}

/// A handle representing a single registration inside a loaded library. A
/// handle is one share of ownership of its library: hand it back to the
/// manager through `close` or `release`.
#[derive(Debug)]
pub struct PluginHandle {
    slot: usize,
    index: usize,
    trait_id: PluginTrait,
    id: PluginId,
}

/// Non-owning proxy for the `Greeter` registration of a handle; every call
/// through it is first resolved by the manager.
#[derive(Debug, Clone, Copy, PartialEq, Eq, Structural)]
pub struct GreeterProxy {
    pub slot: usize,
    pub index: usize,
}

/// What the host must do with a library after a handle was given back.
#[derive(Debug, Clone, Copy, PartialEq, Eq, Structural)]
pub enum Teardown {
    /// Nothing now: other owners remain, or the library is already gone.
    Deferred,
    /// Tear the library in `slot` down; its counter is not reported.
    OnDrop(usize),
    /// Tear the library in `slot` down and report its unmaker counter.
    Now(usize),
}

/// Owns the records of every library it loaded; handles own shares of them.
pub struct PluginManager {
    libs: Vec<LoadedLib>,
}

impl View for PluginHandle {
    type V = HandleView;

    closed spec fn view(&self) -> HandleView {
        HandleView { slot: self.slot, index: self.index, trait_id: self.trait_id, id: self.id.0 }
    }
}

impl View for PluginManager {
    type V = Seq<LoadedLib>;

    closed spec fn view(&self) -> Seq<LoadedLib> {
        self.libs@
    }
}

/// The record of a library just accepted with `array`, one owner per registration.
pub open spec fn fresh_lib(path: String, t: PluginTrait, array: LoadedArray) -> LoadedLib {
    LoadedLib {
        path,
        trait_id: t,
        array,
        owners: array.count,
        closed: false,
        unloaded: false,
        listed: true,
    }
}

/// The handles on the registrations of the library in `slot`.
pub open spec fn handles_for(slot: int, l: LoadedLib) -> Seq<HandleView> {
    Seq::new(
        l.array.count as nat,
        |i: int|
            HandleView {
                slot: slot as usize,
                index: i as usize,
                trait_id: l.trait_id,
                id: plugin_id_of(i as usize, l.array.array_addr),
            },
    )
}

/// Whether `p` counts as a loaded path.
pub open spec fn path_listed(libs: Seq<LoadedLib>, p: Seq<char>) -> bool {
    exists|i: int| 0 <= i < libs.len() && #[trigger] libs[i].listed && libs[i].path@ == p
}

/// Whether a found library is passed over: its path is loaded already, or it
/// has no registration.
pub open spec fn skipped(libs: Seq<LoadedLib>, f: FoundLibrary) -> bool {
    path_listed(libs, f.path@) || f.array.count == 0
}

/// The records after loading `found` in order.
pub open spec fn admit_all(libs: Seq<LoadedLib>, found: Seq<FoundLibrary>, t: PluginTrait) -> Seq<
    LoadedLib,
>
    decreases found.len(),
{
    if found.len() == 0 {
        libs
    } else {
        let prev = admit_all(libs, found.drop_last(), t);
        let f = found.last();
        if skipped(prev, f) {
            prev
        } else {
            prev.push(fresh_lib(f.path, t, f.array))
        }
    }
}

/// The handles produced by loading `found` in order.
pub open spec fn handles_all(libs: Seq<LoadedLib>, found: Seq<FoundLibrary>, t: PluginTrait) -> Seq<
    HandleView,
>
    decreases found.len(),
{
    if found.len() == 0 {
        seq![]
    } else {
        let prev = admit_all(libs, found.drop_last(), t);
        let f = found.last();
        if skipped(prev, f) {
            handles_all(libs, found.drop_last(), t)
        } else {
            handles_all(libs, found.drop_last(), t) + handles_for(
                prev.len() as int,
                fresh_lib(f.path, t, f.array),
            )
        }
    }
}

/// The paths among `entries` that name a library of `platform` not loaded yet.
pub open spec fn candidate_paths(
    libs: Seq<LoadedLib>,
    entries: Seq<String>,
    platform: LibraryPlatform,
) -> Seq<String> {
    entries.filter(|e: String| is_library_path(e@, platform) && !path_listed(libs, e@))
}

/// Whether the library in `slot` has not been torn down and has an owner.
pub open spec fn owned(libs: Seq<LoadedLib>, slot: usize) -> bool {
    slot < libs.len() && !libs[slot as int].unloaded && libs[slot as int].owners > 0
}

pub open spec fn set_owners(l: LoadedLib, owners: usize) -> LoadedLib {
    LoadedLib { owners, ..l }
}

/// Giving a handle back without closing it (dropping it): the last owner
/// orders the teardown.
pub open spec fn release_spec(libs: Seq<LoadedLib>, h: HandleView) -> (Seq<LoadedLib>, Teardown) {
    if !owned(libs, h.slot) {
        (libs, Teardown::Deferred)
    } else {
        let l = libs[h.slot as int];
        if l.owners == 1 {
            (
                libs.update(h.slot as int, LoadedLib { owners: 0, unloaded: true, ..l }),
                Teardown::OnDrop(h.slot),
            )
        } else {
            (libs.update(h.slot as int, set_owners(l, (l.owners - 1) as usize)), Teardown::Deferred)
        }
    }
}

/// Closing a handle: the first close sets the latch, and tears down at once
/// when it gives back the last share; a later close acts as a release.
pub open spec fn close_spec(libs: Seq<LoadedLib>, h: HandleView) -> (Seq<LoadedLib>, Teardown) {
    if !owned(libs, h.slot) {
        (libs, Teardown::Deferred)
    } else {
        let l = libs[h.slot as int];
        if l.closed {
            release_spec(libs, h)
        } else if l.owners == 1 {
            (
                libs.update(h.slot as int, LoadedLib { owners: 0, unloaded: true, closed: true, ..l }),
                Teardown::Now(h.slot),
            )
        } else {
            (
                libs.update(h.slot as int, LoadedLib { owners: (l.owners - 1) as usize, closed: true, ..l }),
                Teardown::Deferred,
            )
        }
    }
}

/// The first record at or after `from` with path `p` that was not torn down, or -1.
pub open spec fn find_open(libs: Seq<LoadedLib>, p: Seq<char>, from: int) -> int
    decreases libs.len() - from,
{
    if from < 0 || from >= libs.len() {
        -1
    } else if !libs[from].unloaded && libs[from].path@ == p {
        from
    } else {
        find_open(libs, p, from + 1)
    }
}

/// The records with path `p` no longer counted as loaded.
pub open spec fn unlist(libs: Seq<LoadedLib>, p: Seq<char>) -> Seq<LoadedLib> {
    Seq::new(
        libs.len(),
        |j: int|
            if libs[j].path@ == p {
                LoadedLib { listed: false, ..libs[j] }
            } else {
                libs[j]
            },
    )
}

/// Unloading by path: the first open record of the path is closed and the path
/// stops counting as loaded; with no owner left it is torn down at once.
pub open spec fn unload_spec(libs: Seq<LoadedLib>, p: Seq<char>) -> (Seq<LoadedLib>, Teardown) {
    let k = find_open(libs, p, 0);
    if k < 0 {
        (libs, Teardown::Deferred)
    } else {
        let base = unlist(libs, p);
        if libs[k].owners == 0 {
            (base.update(k, LoadedLib { unloaded: true, closed: true, ..base[k] }), Teardown::Now(k as usize))
        } else {
            (base.update(k, LoadedLib { closed: true, ..base[k] }), Teardown::Deferred)
        }
    }
}

impl LoadedLib {
    /// The record of a library whose plugin handed out `array`.
    pub fn new_with_lib(path: String, trait_id: PluginTrait, array_addr: usize, count: usize) -> (r:
        LoadedLib)
        ensures
            r == fresh_lib(path, trait_id, LoadedArray { array_addr, count, host_owned: false }),
    {
        LoadedLib {
            path,
            trait_id,
            array: LoadedArray { array_addr, count, host_owned: false },
            owners: count,
            closed: false,
            unloaded: false,
            listed: true,
        }
    }

    /// The record of a library whose single registration the host wrapped in
    /// an array of its own at `array_addr`.
    pub fn new_host_owned(path: String, trait_id: PluginTrait, array_addr: usize) -> (r: LoadedLib)
        ensures
            r == fresh_lib(path, trait_id, LoadedArray { array_addr, count: 1, host_owned: true }),
    {
        LoadedLib {
            path,
            trait_id,
            array: LoadedArray::host_single(array_addr),
            owners: 1,
            closed: false,
            unloaded: false,
            listed: true,
        }
    }
}

impl PluginHandle {
    pub fn id(&self) -> (r: PluginId)
        ensures
            r.0 == self@.id,
    {
        self.id
    }

    /// The slot of the manager's record of this handle's library.
    pub fn slot(&self) -> (r: usize)
        ensures
            r == self@.slot,
    {
        self.slot
    }

    /// The position of this handle's registration in its array.
    pub fn index(&self) -> (r: usize)
        ensures
            r == self@.index,
    {
        self.index
    }

    pub fn trait_id(&self) -> (r: PluginTrait)
        ensures
            r == self@.trait_id,
    {
        self.trait_id
    }

    /// A `Greeter` proxy on this registration, if and only if it serves `Greeter`.
    pub fn as_greeter(&self) -> (r: Option<GreeterProxy>)
        ensures
            r == (if self@.trait_id == PluginTrait::Greeter {
                Some(GreeterProxy { slot: self@.slot, index: self@.index })
            } else {
                None
            }),
    {
        match self.trait_id {
            PluginTrait::Greeter => Some(GreeterProxy { slot: self.slot, index: self.index }),
        }
    }
}

impl Default for PluginManager {
    fn default() -> (r: PluginManager)
        ensures
            r@ == Seq::<LoadedLib>::empty(),
    {
        PluginManager::new()
    }
}

impl PluginManager {
    pub fn new() -> (r: PluginManager)
        ensures
            r@ == Seq::<LoadedLib>::empty(),
    {
        PluginManager { libs: Vec::new() }
    }

    /// How many libraries this manager has recorded, torn down ones included.
    pub fn len(&self) -> (r: usize)
        ensures
            r == self@.len(),
    {
        self.libs.len()
    }

    /// The record in `slot`, if there is one.
    pub fn lib(&self, slot: usize) -> (r: Option<&LoadedLib>)
        ensures
            r is Some == (slot < self@.len()),
            r is Some ==> *r->0 == self@[slot as int],
    {
        if slot < self.libs.len() {
            Some(&self.libs[slot])
        } else {
            None
        }
    }

    /// Whether `path` counts as loaded.
    pub fn is_loaded(&self, path: &String) -> (r: bool)
        ensures
            r == path_listed(self@, path@),
    {
        let mut i: usize = 0;
        while i < self.libs.len()
            invariant
                i <= self.libs@.len(),
                forall|j: int| 0 <= j < i ==> !(#[trigger] self.libs@[j].listed && self.libs@[j].path@ == path@),
            decreases self.libs@.len() - i,
        {
            if self.libs[i].listed && self.libs[i].path == *path {
                return true;
            }
            i = i + 1;
        }
        false
    }

    /// The entries of a directory listing that name a library of `platform`
    /// and are not loaded yet, in listing order.
    pub fn candidates(&self, entries: &Vec<String>, platform: LibraryPlatform) -> (r: Vec<String>)
        ensures
            r@ == candidate_paths(self@, entries@, platform),
    {
        let ghost pred = |e: String| is_library_path(e@, platform) && !path_listed(self@, e@);
        let mut out: Vec<String> = Vec::new();
        let mut i: usize = 0;
        while i < entries.len()
            invariant
                i <= entries@.len(),
                pred == (|e: String| is_library_path(e@, platform) && !path_listed(self@, e@)),
                out@ == entries@.take(i as int).filter(pred),
            decreases entries@.len() - i,
        {
            let e = &entries[i];
            let keep = is_dynamic_library(e.as_str(), platform) && !self.is_loaded(e);
            proof {
                reveal(Seq::filter);
                assert(entries@.take(i + 1).drop_last() == entries@.take(i as int));
            }
            if keep {
                out.push(e.clone());
            }
            i = i + 1;
        }
        assert(entries@.take(entries@.len() as int) == entries@);
        out
    }
}

impl PluginManager {
    fn is_owned(&self, slot: usize) -> (r: bool)
        ensures
            r == owned(self@, slot),
    {
        slot < self.libs.len() && !self.libs[slot].unloaded && self.libs[slot].owners > 0
    }

    /// Gives a handle back without closing it, as dropping it would: the last
    /// owner's release orders the teardown. A handle whose library is gone
    /// changes nothing.
    pub fn release(&mut self, h: PluginHandle) -> (r: Teardown)
        ensures
            (final(self)@, r) == release_spec(old(self)@, h@),
    {
        let slot = h.slot;
        if !self.is_owned(slot) {
            return Teardown::Deferred;
        }
        if self.libs[slot].owners == 1 {
            self.libs[slot].owners = 0;
            self.libs[slot].unloaded = true;
            Teardown::OnDrop(slot)
        } else {
            let n = self.libs[slot].owners;
            self.libs[slot].owners = n - 1;
            Teardown::Deferred
        }
    }

    /// Closes a handle. The first close of a library sets its latch; when it
    /// gives back the last share the teardown is due now and its counter is
    /// reported. A close after the latch was set acts as a release and reports
    /// nothing.
    pub fn close(&mut self, h: PluginHandle) -> (r: Teardown)
        ensures
            (final(self)@, r) == close_spec(old(self)@, h@),
    {
        let slot = h.slot;
        if !self.is_owned(slot) {
            return Teardown::Deferred;
        }
        if self.libs[slot].closed {
            return self.release(h);
        }
        self.libs[slot].closed = true;
        if self.libs[slot].owners == 1 {
            self.libs[slot].owners = 0;
            self.libs[slot].unloaded = true;
            Teardown::Now(slot)
        } else {
            let n = self.libs[slot].owners;
            self.libs[slot].owners = n - 1;
            Teardown::Deferred
        }
    }

    /// A second handle on the registration of `h`, sharing ownership of its
    /// library; `None` when the library is gone or the count of owners is full.
    pub fn share(&mut self, h: &PluginHandle) -> (r: Option<PluginHandle>)
        ensures
            owned(old(self)@, h@.slot) && old(self)@[h@.slot as int].owners < usize::MAX ==> {
                &&& r is Some
                &&& r->0@ == h@
                &&& final(self)@ == old(self)@.update(
                    h@.slot as int,
                    set_owners(old(self)@[h@.slot as int], (old(self)@[h@.slot as int].owners + 1) as usize),
                )
            },
            !(owned(old(self)@, h@.slot) && old(self)@[h@.slot as int].owners < usize::MAX) ==> {
                &&& r is None
                &&& final(self)@ == old(self)@
            },
    {
        let slot = h.slot;
        if !self.is_owned(slot) || self.libs[slot].owners == usize::MAX {
            return None;
        }
        let n = self.libs[slot].owners;
        self.libs[slot].owners = n + 1;
        Some(PluginHandle { slot: h.slot, index: h.index, trait_id: h.trait_id, id: h.id })
    }

    /// The array that a call through `proxy` must use, or `None` when its
    /// library was torn down or the proxy points past the array.
    pub fn resolve(&self, proxy: &GreeterProxy) -> (r: Option<LoadedArray>)
        ensures
            r == (if resolvable(self@, *proxy) {
                Some(self@[proxy.slot as int].array)
            } else {
                None
            }),
    {
        if proxy.slot < self.libs.len() && !self.libs[proxy.slot].unloaded
            && proxy.index < self.libs[proxy.slot].array.count {
            Some(self.libs[proxy.slot].array)
        } else {
            None
        }
    }
}

impl PluginManager {
    fn find_open_slot(&self, p: &String) -> (r: Option<usize>)
        ensures
            r == (if find_open(self@, p@, 0) < 0 {
                None::<usize>
            } else {
                Some(find_open(self@, p@, 0) as usize)
            }),
            find_open(self@, p@, 0) < self@.len(),
    {
        let mut i: usize = 0;
        while i < self.libs.len()
            invariant
                i <= self.libs@.len(),
                find_open(self@, p@, 0) == find_open(self@, p@, i as int),
            decreases self.libs@.len() - i,
        {
            if !self.libs[i].unloaded && self.libs[i].path == *p {
                return Some(i);
            }
            i = i + 1;
        }
        None
    }

    /// Unloads the library loaded from `path`: the first record of that path
    /// not torn down yet is closed, and the path stops counting as loaded. When
    /// no handle owns it the teardown is due now, with its counter reported;
    /// otherwise the last owner tears it down.
    pub fn unload_by_path(&mut self, path: &str) -> (r: Teardown)
        ensures
            (final(self)@, r) == unload_spec(old(self)@, path@),
    {
        let p = String::from_str(path);
        let k = match self.find_open_slot(&p) {
            Some(k) => k,
            None => return Teardown::Deferred,
        };
        let ghost before = self@;
        let n = self.libs.len();
        let mut j: usize = 0;
        while j < n
            invariant
                n == self.libs@.len(),
                n == before.len(),
                j <= n,
                forall|m: int| 0 <= m < j ==> self.libs@[m] == #[trigger] unlist(before, p@)[m],
                forall|m: int| j <= m < n ==> self.libs@[m] == before[m],
            decreases n - j,
        {
            if self.libs[j].path == p {
                self.libs[j].listed = false;
            }
            j = j + 1;
        }
        assert(self.libs@ =~= unlist(before, p@));
        self.libs[k].closed = true;
        if self.libs[k].owners == 0 {
            self.libs[k].unloaded = true;
            Teardown::Now(k)
        } else {
            Teardown::Deferred
        }
    }

    /// Records the libraries that were opened and probed, in order, and hands
    /// out one handle per registration. A library whose path is loaded already,
    /// or whose array is empty, is passed over. Fails with `NoRegistrations`
    /// exactly when no handle results.
    pub fn load_plugins(&mut self, found: &Vec<FoundLibrary>, trait_id: PluginTrait) -> (r: Result<
        Vec<PluginHandle>,
        PluginLoadError,
    >)
        ensures
            final(self)@ == admit_all(old(self)@, found@, trait_id),
            match r {
                Ok(hs) => hs@.map_values(|h: PluginHandle| h@) == handles_all(
                    old(self)@,
                    found@,
                    trait_id,
                ) && hs@.len() > 0,
                Err(e) => e is NoRegistrations && handles_all(old(self)@, found@, trait_id).len() == 0,
            },
    {
        let ghost start = self@;
        let mut out: Vec<PluginHandle> = Vec::new();
        let mut i: usize = 0;
        while i < found.len()
            invariant
                i <= found@.len(),
                self@ == admit_all(start, found@.take(i as int), trait_id),
                out@.map_values(|h: PluginHandle| h@) == handles_all(start, found@.take(i as int), trait_id),
            decreases found@.len() - i,
        {
            let f = &found[i];
            proof {
                assert(found@.take(i + 1).drop_last() == found@.take(i as int));
                assert(found@.take(i + 1).last() == found@[i as int]);
            }
            let skip = self.is_loaded(&f.path) || f.array.count == 0;
            if !skip {
                let slot = self.libs.len();
                let ghost prev_out = out@.map_values(|h: PluginHandle| h@);
                let lib = LoadedLib {
                    path: f.path.clone(),
                    trait_id,
                    array: f.array,
                    owners: f.array.count,
                    closed: false,
                    unloaded: false,
                    listed: true,
                };
                let ghost hs = handles_for(slot as int, lib);
                self.libs.push(lib);
                let count = f.array.count;
                let mut idx: usize = 0;
                while idx < count
                    invariant
                        count == f.array.count,
                        idx <= count,
                        hs.len() == count,
                        hs == handles_for(slot as int, fresh_lib(f.path, trait_id, f.array)),
                        out@.map_values(|h: PluginHandle| h@) == prev_out + hs.take(idx as int),
                    decreases count - idx,
                {
                    let h = PluginHandle {
                        slot,
                        index: idx,
                        trait_id,
                        id: PluginId::from_parts(idx, f.array.array_addr),
                    };
                    let ghost before_push = out@;
                    assert(h@ == hs[idx as int]);
                    out.push(h);
                    assert(out@.map_values(|h: PluginHandle| h@) =~= before_push.map_values(
                        |h: PluginHandle| h@,
                    ).push(hs[idx as int]));
                    assert(hs.take(idx + 1) == hs.take(idx as int).push(hs[idx as int]));
                    assert(out@.map_values(|h: PluginHandle| h@) =~= prev_out + hs.take(idx + 1));
                    idx = idx + 1;
                }
                assert(hs.take(count as int) == hs);
            }
            i = i + 1;
        }
        assert(found@.take(found@.len() as int) == found@);
        if out.len() == 0 {
            Err(PluginLoadError::NoRegistrations)
        } else {
            Ok(out)
        }
    }
}

/// Whether `a` keeps every record of `b` in place, possibly with more after them.
pub open spec fn extends(a: Seq<LoadedLib>, b: Seq<LoadedLib>) -> bool {
    b.len() <= a.len() && forall|i: int| 0 <= i < b.len() ==> a[i] == b[i]
}

/// The records after giving back each handle of `hs` in order, without closing.
pub open spec fn release_all(libs: Seq<LoadedLib>, hs: Seq<HandleView>) -> Seq<LoadedLib>
    decreases hs.len(),
{
    if hs.len() == 0 {
        libs
    } else {
        release_spec(release_all(libs, hs.drop_last()), hs.last()).0
    }
}

/// Whether a call through `proxy` may reach its library.
pub open spec fn resolvable(libs: Seq<LoadedLib>, proxy: GreeterProxy) -> bool {
    proxy.slot < libs.len() && !libs[proxy.slot as int].unloaded && proxy.index
        < libs[proxy.slot as int].array.count
}

/// Idempotent close: once a handle of a library was closed, closing another
/// handle of the same library never reports a counter.
pub proof fn lemma_close_idempotent(libs: Seq<LoadedLib>, h1: HandleView, h2: HandleView)
    requires
        h1.slot == h2.slot,
    ensures
        !(close_spec(close_spec(libs, h1).0, h2).1 is Now),
{
}

proof fn lemma_release_all_counts(libs: Seq<LoadedLib>, slot: usize, hs: Seq<HandleView>)
    requires
        owned(libs, slot),
        hs.len() < libs[slot as int].owners,
        forall|i: int| 0 <= i < hs.len() ==> (#[trigger] hs[i]).slot == slot,
    ensures
        release_all(libs, hs).len() == libs.len(),
        owned(release_all(libs, hs), slot),
        release_all(libs, hs)[slot as int].owners == libs[slot as int].owners - hs.len(),
        release_all(libs, hs)[slot as int].closed == libs[slot as int].closed,
    decreases hs.len(),
{
    if hs.len() > 0 {
        lemma_release_all_counts(libs, slot, hs.drop_last());
        assert(hs.last() == hs[hs.len() - 1]);
    }
}

/// Last-owner teardown: when every other handle of a library that was never
/// closed has been given back, closing the last one tears it down at once and
/// reports the counter.
pub proof fn lemma_last_owner_teardown(libs: Seq<LoadedLib>, h: HandleView, others: Seq<HandleView>)
    requires
        owned(libs, h.slot),
        !libs[h.slot as int].closed,
        others.len() == libs[h.slot as int].owners - 1,
        forall|i: int| 0 <= i < others.len() ==> (#[trigger] others[i]).slot == h.slot,
    ensures
        close_spec(release_all(libs, others), h).1 == Teardown::Now(h.slot),
{
    lemma_release_all_counts(libs, h.slot, others);
}

/// Teardown happens at most once per library: an operation orders the
/// teardown of a library only when it was not torn down before, and a record
/// torn down stays torn down under every operation.
pub proof fn lemma_teardown_once(libs: Seq<LoadedLib>, h: HandleView, p: Seq<char>)
    requires
        libs.len() <= usize::MAX,
    ensures
        forall|s: usize|
            (release_spec(libs, h).1 == Teardown::OnDrop(s) || close_spec(libs, h).1
                == Teardown::Now(s) || close_spec(libs, h).1 == Teardown::OnDrop(s)
                || unload_spec(libs, p).1 == Teardown::Now(s)) ==> s < libs.len()
                && !libs[s as int].unloaded,
        release_spec(libs, h).0.len() == libs.len(),
        close_spec(libs, h).0.len() == libs.len(),
        unload_spec(libs, p).0.len() == libs.len(),
        forall|i: int|
            0 <= i < libs.len() && #[trigger] libs[i].unloaded ==> release_spec(libs, h).0[i].unloaded
                && close_spec(libs, h).0[i].unloaded && unload_spec(libs, p).0[i].unloaded,
{
    lemma_find_open_bounds(libs, p, 0);
    let k = find_open(libs, p, 0);
    assert forall|s: usize|
        (release_spec(libs, h).1 == Teardown::OnDrop(s) || close_spec(libs, h).1 == Teardown::Now(s)
            || close_spec(libs, h).1 == Teardown::OnDrop(s) || unload_spec(libs, p).1
            == Teardown::Now(s)) implies s < libs.len() && !libs[s as int].unloaded by {
        if unload_spec(libs, p).1 == Teardown::Now(s) {
            assert(k >= 0);
            assert(s as int == k);
        }
    }
}

proof fn lemma_find_open_bounds(libs: Seq<LoadedLib>, p: Seq<char>, from: int)
    requires
        0 <= from,
    ensures
        find_open(libs, p, from) < libs.len(),
        find_open(libs, p, from) >= 0 ==> find_open(libs, p, from) >= from && !libs[find_open(
            libs,
            p,
            from,
        )].unloaded,
    decreases libs.len() - from,
{
    if from < libs.len() && !(!libs[from].unloaded && libs[from].path@ == p) {
        lemma_find_open_bounds(libs, p, from + 1);
    }
}

proof fn lemma_admit_prefix(
    libs: Seq<LoadedLib>,
    found: Seq<FoundLibrary>,
    t: PluginTrait,
    k1: int,
    k2: int,
)
    requires
        0 <= k1 <= k2 <= found.len(),
    ensures
        extends(admit_all(libs, found.take(k2), t), admit_all(libs, found.take(k1), t)),
    decreases k2 - k1,
{
    if k1 < k2 {
        lemma_admit_prefix(libs, found, t, k1, k2 - 1);
        assert(found.take(k2).drop_last() == found.take(k2 - 1));
    }
}

proof fn lemma_listed_extends(a: Seq<LoadedLib>, b: Seq<LoadedLib>, p: Seq<char>)
    requires
        extends(a, b),
        path_listed(b, p),
    ensures
        path_listed(a, p),
{
    let i = choose|i: int| 0 <= i < b.len() && #[trigger] b[i].listed && b[i].path@ == p;
    assert(a[i].listed);
}

proof fn lemma_all_skipped(libs: Seq<LoadedLib>, found: Seq<FoundLibrary>, t: PluginTrait)
    ensures
        forall|j: int|
            0 <= j < found.len() ==> skipped(admit_all(libs, found, t), #[trigger] found[j]),
{
    assert forall|j: int| 0 <= j < found.len() implies skipped(
        admit_all(libs, found, t),
        #[trigger] found[j],
    ) by {
        let fj = found.take(j + 1);
        assert(fj.drop_last() == found.take(j));
        assert(fj.last() == found[j]);
        let before = admit_all(libs, found.take(j), t);
        let after = admit_all(libs, fj, t);
        if !skipped(before, found[j]) {
            assert(after[before.len() as int].listed);
            assert(path_listed(after, found[j].path@));
        } else if path_listed(before, found[j].path@) {
            assert(path_listed(after, found[j].path@));
        }
        lemma_admit_prefix(libs, found, t, j + 1, found.len() as int);
        assert(found.take(found.len() as int) == found);
        if found[j].array.count != 0 {
            lemma_listed_extends(admit_all(libs, found, t), after, found[j].path@);
        }
    }
}

proof fn lemma_second_pass(l1: Seq<LoadedLib>, found: Seq<FoundLibrary>, t: PluginTrait, k: int)
    requires
        0 <= k <= found.len(),
        forall|j: int| 0 <= j < found.len() ==> skipped(l1, #[trigger] found[j]),
    ensures
        admit_all(l1, found.take(k), t) == l1,
        handles_all(l1, found.take(k), t) == Seq::<HandleView>::empty(),
    decreases k,
{
    if k > 0 {
        lemma_second_pass(l1, found, t, k - 1);
        assert(found.take(k).drop_last() == found.take(k - 1));
        assert(found.take(k).last() == found[k - 1]);
    } else {
        assert(found.take(k).len() == 0);
    }
}

/// Path dedup: loading the same libraries a second time, with no unload in
/// between, adds no record and hands out no handle.
pub proof fn lemma_load_twice(libs: Seq<LoadedLib>, found: Seq<FoundLibrary>, t: PluginTrait)
    ensures
        admit_all(admit_all(libs, found, t), found, t) == admit_all(libs, found, t),
        handles_all(admit_all(libs, found, t), found, t).len() == 0,
{
    let l1 = admit_all(libs, found, t);
    lemma_all_skipped(libs, found, t);
    lemma_second_pass(l1, found, t, found.len() as int);
    assert(found.take(found.len() as int) == found);
}

/// Fallback equivalence: a library whose single registration the host wrapped
/// is recorded and handed out exactly as one whose plugin returned a
/// one-entry array at the same address; only the ownership of the array differs.
pub proof fn lemma_fallback_equivalence(path: String, t: PluginTrait, addr: usize, slot: int)
    ensures
        handles_for(slot, fresh_lib(path, t, LoadedArray { array_addr: addr, count: 1, host_owned: true }))
            == handles_for(
            slot,
            fresh_lib(path, t, LoadedArray { array_addr: addr, count: 1, host_owned: false }),
        ),
        handles_for(slot, fresh_lib(path, t, LoadedArray { array_addr: addr, count: 1, host_owned: true }))
            .len() == 1,
        fresh_lib(path, t, LoadedArray { array_addr: addr, count: 1, host_owned: true })
            == (LoadedLib {
            array: LoadedArray { array_addr: addr, count: 1, host_owned: true },
            ..fresh_lib(path, t, LoadedArray { array_addr: addr, count: 1, host_owned: false })
        }),
{
    assert(handles_for(slot, fresh_lib(path, t, LoadedArray { array_addr: addr, count: 1, host_owned: true }))
        =~= handles_for(
        slot,
        fresh_lib(path, t, LoadedArray { array_addr: addr, count: 1, host_owned: false }),
    ));
}

/// No use after teardown: once an operation ordered the teardown of a library,
/// no proxy on it resolves, and none does after any later operation.
pub proof fn lemma_no_use_after_teardown(
    libs: Seq<LoadedLib>,
    h: HandleView,
    proxy: GreeterProxy,
    h2: HandleView,
    p: Seq<char>,
    found: Seq<FoundLibrary>,
    t: PluginTrait,
)
    requires
        libs.len() <= usize::MAX,
        close_spec(libs, h).1 == Teardown::Now(proxy.slot),
    ensures
        !resolvable(close_spec(libs, h).0, proxy),
        !resolvable(release_spec(close_spec(libs, h).0, h2).0, proxy),
        !resolvable(close_spec(close_spec(libs, h).0, h2).0, proxy),
        !resolvable(unload_spec(close_spec(libs, h).0, p).0, proxy),
        !resolvable(admit_all(close_spec(libs, h).0, found, t), proxy),
{
    let l1 = close_spec(libs, h).0;
    lemma_teardown_once(l1, h2, p);
    lemma_admit_prefix(l1, found, t, 0, found.len() as int);
    assert(found.take(0) =~= Seq::<FoundLibrary>::empty());
    assert(found.take(found.len() as int) == found);
}

} // verus!
