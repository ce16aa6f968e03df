//! Host side of a dynamic-plugin runtime: the binary interface that plugins
//! export, the decisions of loading and tearing down their libraries, the
//! manager's bookkeeping of libraries and handles, and the watcher that turns
//! filesystem events into loads and unloads. The calls into the dynamic linker
//! and the filesystem are made by the caller, which hands the library plain
//! values and carries out the steps it returns.

pub mod abi;
pub mod dispatch;
pub mod inventory;
pub mod loader;
pub mod manager;
pub mod paths;
pub mod teardown;
pub mod watch;

pub use abi::{Greeter, PluginId, PluginTrait, SymbolKind, ABI_VERSION};
pub use dispatch::{ManagerNotification, NotificationAction, WatchEvent};
pub use loader::{LoadedArray, ProbeEvent, ProbeStep};
pub use manager::{
    FoundLibrary, GreeterProxy, LoadedLib, PluginHandle, PluginLoadError, PluginManager,
    PluginUnloadError, Teardown,
};
pub use paths::{is_dynamic_library, LibraryPlatform};
pub use teardown::{ArrayLayout, Exports, TeardownStep};
pub use watch::{FsEventKind, PluginEvent, WatchNotification, WatchOptions, WatchState};
