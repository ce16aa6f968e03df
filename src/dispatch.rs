use vstd::prelude::*;

use crate::abi::PluginTrait;
use crate::manager::{GreeterProxy, PluginHandle};
use crate::watch::{WatchNotification, WatchOptions};

verus! {

/// What a watcher hands to its caller on the manager's thread.
#[derive(Debug)]
pub enum WatchEvent {
    /// Handles on the registrations loaded, and the paths that triggered the event.
    Handles(Vec<PluginHandle>, Vec<String>),
    /// Typed proxies on the registrations loaded, and the paths that triggered the event.
    Proxies(Vec<GreeterProxy>, Vec<String>),
}

/// What the manager reports while it processes watcher notifications.
#[derive(Debug)]
pub enum ManagerNotification {
    Event(WatchEvent),
    Unloaded { path: String, counter: Option<u64> },
    Error(String),
}

/// What the manager's thread must do with one watcher notification.
#[derive(Debug)]
pub enum NotificationAction {
    /// List the directory and load what is new; the paths go with the event.
    Load(Vec<String>),
    /// Unload the library loaded from this path.
    Unload(String),
    /// Report this to the caller as it is.
    Emit(ManagerNotification),
}

/// Whether events carry typed proxies rather than raw handles.
pub open spec fn proxies_wanted(opts: WatchOptions, t: PluginTrait) -> bool {
    opts.emit_proxies && t == PluginTrait::Greeter
}

/// Whether events carry typed proxies rather than raw handles: only when asked
/// for and when the trait has a proxy type.
pub fn emits_proxies(opts: WatchOptions, trait_id: PluginTrait) -> (r: bool)
    ensures
        r == proxies_wanted(opts, trait_id),
{
    opts.emit_proxies && trait_id == PluginTrait::Greeter
}

/// An event that carries no handle, for `paths`: sent when nothing was loaded.
pub fn empty_event(paths: Vec<String>, opts: WatchOptions, trait_id: PluginTrait) -> (r: WatchEvent)
    ensures
        match r {
            WatchEvent::Proxies(ps, p) => proxies_wanted(opts, trait_id) && ps@.len() == 0 && p == paths,
            WatchEvent::Handles(hs, p) => !proxies_wanted(opts, trait_id) && hs@.len() == 0 && p == paths,
        },
{
    if emits_proxies(opts, trait_id) {
        WatchEvent::Proxies(Vec::new(), paths)
    } else {
        WatchEvent::Handles(Vec::new(), paths)
    }
}

/// The `Greeter` proxies of `handles`, in order, skipping handles of other traits.
pub fn proxies_of(handles: &Vec<PluginHandle>) -> (r: Vec<GreeterProxy>)
    ensures
        r@ == handles@.filter(|h: PluginHandle| h@.trait_id == PluginTrait::Greeter).map_values(
            |h: PluginHandle| GreeterProxy { slot: h@.slot, index: h@.index },
        ),
{
    let ghost pred = |h: PluginHandle| h@.trait_id == PluginTrait::Greeter;
    let ghost conv = |h: PluginHandle| GreeterProxy { slot: h@.slot, index: h@.index };
    let mut out: Vec<GreeterProxy> = Vec::new();
    let mut i: usize = 0;
    while i < handles.len()
        invariant
            i <= handles@.len(),
            pred == (|h: PluginHandle| h@.trait_id == PluginTrait::Greeter),
            conv == (|h: PluginHandle| GreeterProxy { slot: h@.slot, index: h@.index }),
            out@ == handles@.take(i as int).filter(pred).map_values(conv),
        decreases handles@.len() - i,
    {
        proof {
            reveal(Seq::filter);
            assert(handles@.take(i + 1).drop_last() == handles@.take(i as int));
            assert(handles@.take(i + 1).last() == handles@[i as int]);
        }
        let ghost before = out@;
        match handles[i].as_greeter() {
            Some(p) => {
                out.push(p);
                assert(handles@.take(i + 1).filter(pred).map_values(conv) =~= before.push(p));
            },
            None => {},
        }
        i = i + 1;
    }
    assert(handles@.take(handles@.len() as int) == handles@);
    out
}

/// Decides what the manager's thread does with a watcher notification: new
/// paths are loaded when `auto_load` is set and reported as an empty event
/// otherwise; a removal is unloaded when `auto_unload` is set and reported
/// with no counter otherwise; an error is passed on.
pub fn notification_action(n: WatchNotification, opts: WatchOptions, trait_id: PluginTrait) -> (r:
    NotificationAction)
    ensures
        match n {
            WatchNotification::Paths(paths) => if opts.auto_load {
                r == NotificationAction::Load(paths)
            } else {
                match r {
                    NotificationAction::Emit(ManagerNotification::Event(e)) => match e {
                        WatchEvent::Proxies(ps, p) => proxies_wanted(opts, trait_id) && ps@.len()
                            == 0 && p == paths,
                        WatchEvent::Handles(hs, p) => !proxies_wanted(opts, trait_id) && hs@.len()
                            == 0 && p == paths,
                    },
                    _ => false,
                }
            },
            WatchNotification::Unloaded { path, counter: _ } => if opts.auto_unload {
                r == NotificationAction::Unload(path)
            } else {
                r == NotificationAction::Emit(ManagerNotification::Unloaded { path, counter: None })
            },
            WatchNotification::Error(e) => r == NotificationAction::Emit(
                ManagerNotification::Error(e),
            ),
        },
{
    match n {
        WatchNotification::Paths(paths) => {
            if opts.auto_load {
                NotificationAction::Load(paths)
            } else {
                NotificationAction::Emit(ManagerNotification::Event(empty_event(paths, opts, trait_id)))
            }
        },
        WatchNotification::Unloaded { path, counter: _ } => {
            if opts.auto_unload {
                NotificationAction::Unload(path)
            } else {
                NotificationAction::Emit(ManagerNotification::Unloaded { path, counter: None })
            }
        },
        WatchNotification::Error(e) => NotificationAction::Emit(ManagerNotification::Error(e)),
    }
}

} // verus!
