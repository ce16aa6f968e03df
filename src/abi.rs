use vstd::prelude::*;

verus! {

/// Version of the binary layout that every vtable carries in `abi_version`.
pub const ABI_VERSION: u32 = 1;

/// Typed identifier for the traits that plugins can expose.
#[derive(Debug, Clone, Copy, PartialEq, Eq, Hash, Structural)]
pub enum PluginTrait {
    Greeter,
}

/// The entry points a plugin exports for one trait.
#[derive(Debug, Clone, Copy, PartialEq, Eq, Hash, Structural)]
pub enum SymbolKind {
    /// `() -> RegistrationArray*`, the preferred factory.
    RegisterAll,
    /// `(RegistrationArray*) -> ()`, the preferred releaser.
    UnregisterAll,
    /// `() -> Registration*`, the single-registration factory.
    Register,
    /// `(Registration*) -> ()`, the single-registration releaser.
    Unregister,
    /// `() -> u64`, the diagnostic unmaker counter.
    UnmakerCounter,
}

/// A capability that a plugin implements and the host calls through a vtable.
pub trait Greeter {
    fn name(&self) -> &str;

    fn greet(&self, target: &str);
}

/// The canonical trait name used inside generated symbol names.
pub open spec fn trait_name(t: PluginTrait) -> Seq<char> {
    match t {
        PluginTrait::Greeter => "Greeter"@,
    }
}

/// The part of a symbol name that precedes the trait name.
pub open spec fn symbol_prefix(k: SymbolKind) -> Seq<char> {
    match k {
        SymbolKind::RegisterAll => "plugin_register_all_"@,
        SymbolKind::UnregisterAll => "plugin_unregister_all_"@,
        SymbolKind::Register => "plugin_register_"@,
        SymbolKind::Unregister => "plugin_unregister_"@,
        SymbolKind::UnmakerCounter => "plugin_unmaker_counter_"@,
    }
}

/// The suffix that carries the ABI version in every symbol name.
pub open spec fn version_suffix() -> Seq<char> {
    "_v1"@
}

/// The exported name of entry point `k` for trait `t`, e.g. `plugin_register_all_Greeter_v1`.
pub open spec fn symbol_spec(t: PluginTrait, k: SymbolKind) -> Seq<char> {
    symbol_prefix(k) + trait_name(t) + version_suffix()
}

/// The bytes of a symbol name followed by the terminating NUL, as the dynamic linker takes it.
pub open spec fn c_name(s: Seq<char>) -> Seq<u8> {
    s.map_values(|c: char| c as u8).push(0u8)
}

/// Whether a vtable's declared version is the one this host speaks.
pub open spec fn abi_compatible(version: u32) -> bool {
    version == ABI_VERSION
}

/// Checks the `abi_version` field of a vtable against this host's version.
pub fn abi_version_matches(version: u32) -> (r: bool)
    ensures
        r == abi_compatible(version),
{
    version == ABI_VERSION
}

impl SymbolKind {
    fn prefix(self) -> (r: &'static str)
        ensures
            r@ == symbol_prefix(self),
    {
        match self {
            SymbolKind::RegisterAll => "plugin_register_all_",
            SymbolKind::UnregisterAll => "plugin_unregister_all_",
            SymbolKind::Register => "plugin_register_",
            SymbolKind::Unregister => "plugin_unregister_",
            SymbolKind::UnmakerCounter => "plugin_unmaker_counter_",
        }
    }
}

impl PluginTrait {
    /// Returns the canonical trait name used in generated symbols.
    pub fn as_str(self) -> (r: &'static str)
        ensures
            r@ == trait_name(self),
    {
        match self {
            PluginTrait::Greeter => "Greeter",
        }
    }

    /// The exported name of entry point `kind` for this trait.
    pub fn symbol(self, kind: SymbolKind) -> (r: String)
        ensures
            r@ == symbol_spec(self, kind),
    {
        let mut s = String::from_str(kind.prefix());
        s.append(self.as_str());
        s.append("_v1");
        s
    }

    /// The NUL-terminated bytes of the exported name of entry point `kind`.
    pub fn symbol_bytes(self, kind: SymbolKind) -> (r: Vec<u8>)
        ensures
            r@ == c_name(symbol_spec(self, kind)),
    {
        let s = self.symbol(kind);
        let text = s.as_str();
        let n = text.unicode_len();
        let mut out: Vec<u8> = Vec::new();
        let mut i: usize = 0;
        while i < n
            invariant
                n == text@.len(),
                text@ == symbol_spec(self, kind),
                i <= n,
                out@ == text@.subrange(0, i as int).map_values(|c: char| c as u8),
            decreases n - i,
        {
            let c = text.get_char(i);
            out.push(c as u8);
            assert(text@.subrange(0, i + 1) == text@.subrange(0, i as int).push(c));
            i = i + 1;
        }
        assert(text@.subrange(0, n as int) == text@);
        out.push(0u8);
        out
    }

    /// The NUL-terminated name of the unmaker counter getter for this trait.
    pub fn symbol_name_bytes(self) -> (r: Vec<u8>)
        ensures
            r@ == c_name(symbol_spec(self, SymbolKind::UnmakerCounter)),
    {
        self.symbol_bytes(SymbolKind::UnmakerCounter)
    }
}

/// Opaque identifier of one registration inside one loaded registration array.
#[derive(Clone, Copy, Debug, PartialEq, Eq, Hash, Structural)]
pub struct PluginId(pub u128);

/// The identifier derived from a registration's index and its array's address.
pub open spec fn plugin_id_of(index: usize, array_addr: usize) -> u128 {
    (index as u128) ^ (array_addr as u128)
}

impl PluginId {
    /// Derives the identifier of registration `index` of the array at `array_addr`:
    /// two handles on the same registration get equal identifiers.
    pub fn from_parts(index: usize, array_addr: usize) -> (r: PluginId)
        ensures
            r.0 == plugin_id_of(index, array_addr),
    {
        PluginId((index as u128) ^ (array_addr as u128))
    }
}

} // verus!
