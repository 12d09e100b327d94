//! The coordinator of one target's address index, options and data feeds.
//!
//! A `Manager` is the in-memory side of what a target keeps on disk. Every
//! change of configuration goes through it. Where an operation changes
//! what is kept, its result says so, and the program around the manager
//! writes the new state out before it lets anyone else in.

use vstd::prelude::*;
use vstd::string::StringExecFns;
use crate::bytes::ByteOrder;
use crate::data::{lemma_raw_layout, AsBytes, DiscreteDataOnDisk, TimePackage};
use crate::workers::{AddrId, Kind, Options, OptionsView};

pub mod feeds;
pub mod index_file;
pub mod manager_error;

pub use self::feeds::Feed;
pub use self::index_file::{IndexFile, MAX_ADDRS};
pub use self::manager_error::{file_error, ManagerError, TargetFile};

verus! {

/// Name of the file that holds the address index of a kind called `name`.
pub open spec fn index_name_of(name: Seq<char>) -> Seq<char> {
    name + ".index.json"@
}

/// Name of the file that holds the raw data of a kind called `name`.
pub open spec fn data_name_of(name: Seq<char>) -> Seq<char> {
    name + ".data.dat"@
}

/// Name of the file that holds the options of a kind called `name`.
pub open spec fn options_name_of(name: Seq<char>) -> Seq<char> {
    name + ".options.json"@
}

/// Whether the index `index` has an address for each id of `addrs`.
pub open spec fn all_known(addrs: Seq<AddrId>, index: Seq<Seq<char>>) -> bool {
    forall|i: int| 0 <= i < addrs.len() ==> addrs[i] < index.len()
}

/// The options a target starts with: its seed address, registered under
/// `id`, probed every `interval` milliseconds.
pub open spec fn bootstrap_options(id: AddrId, interval: u32) -> OptionsView {
    OptionsView { addrs: seq![id], interval }
}

/// Name of the index file of a target of the given kind.
pub fn index_file_name(kind: &Kind) -> (s: String)
    ensures
        s@ == index_name_of(kind.name@),
{
    let mut s = kind.name.clone();
    s.append(".index.json");
    s
}

/// Name of the raw data file of a target of the given kind.
pub fn data_file_name(kind: &Kind) -> (s: String)
    ensures
        s@ == data_name_of(kind.name@),
{
    let mut s = kind.name.clone();
    s.append(".data.dat");
    s
}

/// Name of the options file of a target of the given kind.
pub fn options_file_name(kind: &Kind) -> (s: String)
    ensures
        s@ == options_name_of(kind.name@),
{
    let mut s = kind.name.clone();
    s.append(".options.json");
    s
}

/// The options that a bootstrap puts in force name only an address that
/// the index has.
pub proof fn lemma_bootstrap_known(index: Seq<Seq<char>>, addr: Seq<char>, interval: u32)
    requires
        index.len() < MAX_ADDRS,
    ensures
        all_known(bootstrap_options(index.len() as AddrId, interval).addrs, index.push(addr)),
{
}

/// Master control structure of one target: its kind, its address index,
/// the feeds it has a data file for, and its options.
pub struct Manager {
    kind: Kind,
    index_file: IndexFile,
    data_files: Vec<Feed>,
    options: Options,
}

/// What a `Manager` holds.
pub struct ManagerView {
    /// The kind of the target.
    pub kind: Kind,
    /// The address of each id.
    pub index: Seq<Seq<char>>,
    /// The feeds with an open data file.
    pub feeds: Seq<Feed>,
    /// The options in force.
    pub options: OptionsView,
}

impl View for Manager {
    type V = ManagerView;

    closed spec fn view(&self) -> ManagerView {
        ManagerView {
            kind: self.kind,
            index: self.index_file@,
            feeds: self.data_files@,
            options: self.options@,
        }
    }
}

impl Manager {
    /// Builds the manager of a target of the given kind from what was
    /// found on disk: its index, the feeds whose data file could be
    /// opened, and the stored options, `None` where the options file was
    /// empty.
    ///
    /// Stored options are taken as they are. Without them the target is
    /// bootstrapped: the kind's seed address is registered in the index
    /// and becomes the only address probed, at the kind's default
    /// interval. The flag returned says that this happened, so that index
    /// and options are to be written out.
    pub fn new(
        kind: Kind,
        index_file: IndexFile,
        stored: Option<Options>,
        data_files: Vec<Feed>,
    ) -> (r: (Manager, bool))
        requires
            stored is None ==> index_file@.len() < MAX_ADDRS,
        ensures
            r.0@.kind == kind,
            r.0@.feeds == data_files@,
            r.1 == (stored is None),
            match stored {
                Some(options) => r.0@.options == options@ && r.0@.index == index_file@,
                None => r.0@.index == index_file@.push(kind.default_addr@) && r.0@.options
                    == bootstrap_options(index_file@.len() as AddrId, kind.default_interval),
            },
    {
        match stored {
            Some(options) => (Manager { kind, index_file, data_files, options }, false),
            None => {
                let ghost next = index_file@.len();
                let mut index_file = index_file;
                let (addr, interval) = kind.default_options_bootstrap();
                let addrs = match index_file.add_addr(addr) {
                    Some(id) => vec![id],
                    // cannot come about: the index has an id left
                    None => Vec::new(),
                };
                let options = Options { addrs, interval };
                assert(options@.addrs =~= seq![next as AddrId]);
                (Manager { kind, index_file, data_files, options }, true)
            },
        }
    }

    /// The kind of the target.
    pub fn kind(&self) -> (kind: &Kind)
        ensures
            *kind == self@.kind,
    {
        &self.kind
    }

    /// The address index.
    pub fn index_read(&self) -> (index: &IndexFile)
        ensures
            index@ == self@.index,
    {
        &self.index_file
    }

    /// The options in force.
    pub fn options_read(&self) -> (options: &Options)
        ensures
            options@ == self@.options,
    {
        &self.options
    }

    /// Whether the target has an open data file for `feed`.
    pub fn has_feed(&self, feed: Feed) -> (b: bool)
        ensures
            b == self@.feeds.contains(feed),
    {
        let n = self.data_files.len();
        let mut i: usize = 0;
        while i < n
            invariant
                i <= n,
                n == self.data_files@.len(),
                forall|j: int| 0 <= j < i ==> self.data_files@[j] != feed,
            decreases n - i,
        {
            if self.data_files[i] == feed {
                return true;
            }
            i += 1;
        }
        false
    }

    /// Puts `new_options` in force if the index knows every address id
    /// they name; the new options are then to be written out. Otherwise
    /// nothing changes and nothing is to be written.
    pub fn options_update(&mut self, new_options: Options) -> (r: Result<(), ManagerError>)
        ensures
            r is Ok <==> all_known(new_options@.addrs, old(self)@.index),
            match r {
                Ok(()) => final(self)@.options == new_options@,
                Err(e) => {
                    &&& e == ManagerError::InvalidAddrArgument
                    &&& final(self)@.options == old(self)@.options
                },
            },
            final(self)@.index == old(self)@.index,
            final(self)@.feeds == old(self)@.feeds,
            final(self)@.kind == old(self)@.kind,
    {
        let n = new_options.addrs.len();
        let mut i: usize = 0;
        while i < n
            invariant
                i <= n,
                n == new_options.addrs@.len(),
                forall|j: int| 0 <= j < i ==> new_options.addrs@[j] < self.index_file@.len(),
            decreases n - i,
        {
            if !self.index_file.has_addr(new_options.addrs[i]) {
                return Err(ManagerError::InvalidAddrArgument);
            }
            i += 1;
        }
        self.options = new_options;
        Ok(())
    }

    /// The bytes to append to the raw data file for `package`, words laid
    /// out in `order`: one chunk for each record, in ascending id order,
    /// each the record as it lies on disk. Fails where the target has no
    /// raw data file.
    pub fn append_package_in(
        &self,
        package: &TimePackage,
        order: ByteOrder,
    ) -> (r: Result<Vec<Vec<u8>>, ManagerError>)
        ensures
            appended(self@.feeds, package@, order, r),
    {
        if !self.has_feed(Feed::Raw) {
            return Err(ManagerError::FeedUnavailable(Feed::Raw));
        }
        let n = package.len();
        let mut chunks: Vec<Vec<u8>> = Vec::new();
        let mut i: usize = 0;
        while i < n
            invariant
                i <= n,
                n == package@.len(),
                chunks@.len() == i,
                forall|j: int| 0 <= j < i ==> (#[trigger] chunks@[j])@ == package@[j].bytes(order),
            decreases n - i,
        {
            match package.get(i) {
                Some(element) => {
                    chunks.push(element.as_bytes(order));
                },
                None => {},
            }
            i += 1;
        }
        Ok(chunks)
    }

    /// The bytes to append to the raw data file for `package`, as
    /// `append_package_in` gives them for the byte order of the running
    /// machine. Whatever that order is, each record takes twelve bytes.
    pub fn append_package(&self, package: &TimePackage) -> (r: Result<Vec<Vec<u8>>, ManagerError>)
        ensures
            r is Ok <==> self@.feeds.contains(Feed::Raw),
            exists|order: ByteOrder| appended(self@.feeds, package@, order, r),
            r matches Ok(chunks) ==> chunks@.len() == package@.len() && forall|i: int|
                0 <= i < chunks@.len() ==> (#[trigger] chunks@[i])@.len() == 12,
    {
        let order = ByteOrder::native();
        let r = self.append_package_in(package, order);
        proof {
            assert(appended(self@.feeds, package@, order, r));
            if r is Ok {
                let chunks = r->Ok_0;
                assert forall|i: int| 0 <= i < chunks@.len() implies (#[trigger] chunks@[i])@.len()
                    == 12 by {
                    lemma_raw_layout(package@[i], order);
                }
            }
        }
        r
    }
}

/// Whether `r` is the outcome of appending the round `package` for a
/// target with data files for `feeds`: the chunks to write, one for each
/// record and each the record's image in `order`, or the refusal for want
/// of a raw data file.
pub open spec fn appended(
    feeds: Seq<Feed>,
    package: Seq<DiscreteDataOnDisk>,
    order: ByteOrder,
    r: Result<Vec<Vec<u8>>, ManagerError>,
) -> bool {
    match r {
        Ok(chunks) => {
            &&& feeds.contains(Feed::Raw)
            &&& chunks@.len() == package.len()
            &&& forall|i: int|
                0 <= i < chunks@.len() ==> (#[trigger] chunks@[i])@ == package[i].bytes(order)
        },
        Err(e) => !feeds.contains(Feed::Raw) && e == ManagerError::FeedUnavailable(Feed::Raw),
    }
}

} // verus!
