//! What a probing target is configured with: its kind and its options.

use vstd::prelude::*;

pub mod tcpping;

verus! {

/// Stable numeric handle of a probed address.
pub type AddrId = u32;

/// Descriptor of a class of targets: the name its files are called after,
/// and what a first run starts from.
#[derive(Debug)]
pub struct Kind {
    pub name: String,
    pub default_addr: String,
    pub default_interval: u32,
}

impl Kind {
    /// The kind called `name`, whose targets start out probing
    /// `default_addr` every `default_interval` milliseconds.
    pub fn new(name: String, default_addr: String, default_interval: u32) -> (k: Kind)
        ensures
            k.name@ == name@,
            k.default_addr@ == default_addr@,
            k.default_interval == default_interval,
    {
        Kind { name, default_addr, default_interval }
    }

    /// The name that the kind's files are derived from.
    pub fn name(&self) -> (s: &str)
        ensures
            s@ == self.name@,
    {
        self.name.as_str()
    }

    /// The seed address and the polling interval, in milliseconds, that
    /// a target of this kind starts with when it has no options yet.
    pub fn default_options_bootstrap(&self) -> (r: (String, u32))
        ensures
            r.0@ == self.default_addr@,
            r.1 == self.default_interval,
    {
        (self.default_addr.clone(), self.default_interval)
    }
}

/// The ids being probed, in dispatch order, and the polling period in
/// milliseconds.
#[derive(Debug)]
pub struct Options {
    pub addrs: Vec<AddrId>,
    pub interval: u32,
}

/// What an `Options` value says.
pub struct OptionsView {
    pub addrs: Seq<AddrId>,
    pub interval: u32,
}

impl View for Options {
    type V = OptionsView;

    open spec fn view(&self) -> OptionsView {
        OptionsView { addrs: self.addrs@, interval: self.interval }
    }
}

impl Options {
    /// The options to probe `addrs` every `interval` milliseconds.
    pub fn new(addrs: Vec<AddrId>, interval: u32) -> (o: Options)
        ensures
            o@ == (OptionsView { addrs: addrs@, interval }),
    {
        Options { addrs, interval }
    }

    /// A copy that says the same.
    pub fn duplicate(&self) -> (o: Options)
        ensures
            o@ == self@,
    {
        let addrs = self.addrs.clone();
        assert(addrs@ =~= self.addrs@);
        Options { addrs, interval: self.interval }
    }
}

} // verus!
