//! Tablets: the contiguous primary-key ranges of a table, their replicas and
//! the identifiers that name tablets and server-side scanners.

use crate::endian::lex_lt;
use crate::error::Error;
use vstd::prelude::*;
use vstd::slice::slice_to_vec;

verus! {

/// Whether every byte is an ASCII character.
pub open spec fn all_ascii(bytes: Seq<u8>) -> bool {
    forall|i: int| 0 <= i < bytes.len() ==> (#[trigger] bytes[i]) < 128
}

/// Whether every byte is an ASCII character.
pub fn is_ascii_bytes(bytes: &[u8]) -> (ascii: bool)
    ensures
        ascii == all_ascii(bytes@),
{
    let mut i: usize = 0;
    while i < bytes.len()
        invariant
            i <= bytes@.len(),
            forall|j: int| 0 <= j < i ==> (#[trigger] bytes@[j]) < 128,
        decreases bytes@.len() - i,
    {
        if bytes[i] >= 128 {
            return false;
        }
        i = i + 1;
    }
    true
}

/// The stable identifier of a tablet: a string of ASCII characters.
#[derive(Debug, PartialEq, Eq)]
pub struct TabletId {
    bytes: Vec<u8>,
}

impl View for TabletId {
    type V = Seq<u8>;

    closed spec fn view(&self) -> Seq<u8> {
        self.bytes@
    }
}

impl TabletId {
    #[verifier::type_invariant]
    closed spec fn well_formed(&self) -> bool {
        all_ascii(self.bytes@)
    }

    /// The identifier that the bytes spell. Bytes that are not ASCII are a
    /// serialization error.
    pub fn parse_bytes(bytes: &[u8]) -> (parsed: Result<TabletId, Error>)
        ensures
            all_ascii(bytes@) <==> parsed is Ok,
            parsed matches Ok(id) ==> id@ == bytes@,
            parsed matches Err(error) ==> error is Serialization,
    {
        if is_ascii_bytes(bytes) {
            Ok(TabletId { bytes: slice_to_vec(bytes) })
        } else {
            Err(Error::Serialization("tablet id is not ASCII".to_owned()))
        }
    }

    /// The identifier as the ASCII bytes that go into a request.
    pub fn to_bytes(&self) -> (bytes: Vec<u8>)
        ensures
            bytes@ == self@,
            all_ascii(bytes@),
    {
        proof {
            use_type_invariant(self);
        }
        slice_to_vec(self.bytes.as_slice())
    }

    /// A second identifier equal to this one.
    pub fn duplicate(&self) -> (copy: TabletId)
        ensures
            copy@ == self@,
    {
        proof {
            use_type_invariant(self);
        }
        TabletId { bytes: slice_to_vec(self.bytes.as_slice()) }
    }
}

impl Clone for TabletId {
    fn clone(&self) -> (copy: TabletId)
        ensures
            copy@ == self@,
    {
        self.duplicate()
    }
}

/// The identifier of a server-side scanner: a string of ASCII characters
/// that the server hands out with the first batch.
#[derive(Debug, PartialEq, Eq)]
pub struct ScannerId {
    bytes: Vec<u8>,
}

impl View for ScannerId {
    type V = Seq<u8>;

    closed spec fn view(&self) -> Seq<u8> {
        self.bytes@
    }
}

impl ScannerId {
    #[verifier::type_invariant]
    closed spec fn well_formed(&self) -> bool {
        all_ascii(self.bytes@)
    }

    /// The identifier that the bytes spell. Bytes that are not ASCII are a
    /// serialization error.
    pub fn parse_bytes(bytes: &[u8]) -> (parsed: Result<ScannerId, Error>)
        ensures
            all_ascii(bytes@) <==> parsed is Ok,
            parsed matches Ok(id) ==> id@ == bytes@,
            parsed matches Err(error) ==> error is Serialization,
    {
        if is_ascii_bytes(bytes) {
            Ok(ScannerId { bytes: slice_to_vec(bytes) })
        } else {
            Err(Error::Serialization("scanner id is not ASCII".to_owned()))
        }
    }

    /// The identifier as the ASCII bytes that go into a request.
    pub fn to_bytes(&self) -> (bytes: Vec<u8>)
        ensures
            bytes@ == self@,
            all_ascii(bytes@),
    {
        proof {
            use_type_invariant(self);
        }
        slice_to_vec(self.bytes.as_slice())
    }

    /// A second identifier equal to this one.
    pub fn duplicate(&self) -> (copy: ScannerId)
        ensures
            copy@ == self@,
    {
        proof {
            use_type_invariant(self);
        }
        ScannerId { bytes: slice_to_vec(self.bytes.as_slice()) }
    }
}

impl Clone for ScannerId {
    fn clone(&self) -> (copy: ScannerId)
        ensures
            copy@ == self@,
    {
        self.duplicate()
    }
}

/// The part a replica plays in its tablet's consensus group.
#[derive(Clone, Copy, Debug, PartialEq, Eq, Structural)]
pub enum ReplicaRole {
    Leader,
    Follower,
    Learner,
    Unknown,
}

/// What a replica is, as contracts see it.
pub struct ReplicaView {
    pub host: Seq<char>,
    pub port: u16,
    pub role: ReplicaRole,
    pub is_dead: bool,
}

/// One copy of a tablet on one tablet server.
#[derive(Debug, PartialEq, Eq)]
pub struct Replica {
    pub host: String,
    pub port: u16,
    pub role: ReplicaRole,
    pub is_dead: bool,
}

impl View for Replica {
    type V = ReplicaView;

    open spec fn view(&self) -> ReplicaView {
        ReplicaView { host: self.host@, port: self.port, role: self.role, is_dead: self.is_dead }
    }
}

impl Replica {
    /// A second replica descriptor equal to this one.
    pub fn duplicate(&self) -> (copy: Replica)
        ensures
            copy@ == self@,
    {
        Replica {
            host: self.host.clone(),
            port: self.port,
            role: self.role,
            is_dead: self.is_dead,
        }
    }
}

impl Clone for Replica {
    fn clone(&self) -> (copy: Replica)
        ensures
            copy@ == self@,
    {
        self.duplicate()
    }
}

/// The channel to one replica, by the address it was opened to. A scan keeps
/// it to send every continuation to the replica that opened the scanner.
#[derive(Debug, PartialEq, Eq)]
pub struct Proxy {
    pub host: String,
    pub port: u16,
}

/// What a channel is, as contracts see it.
pub struct ProxyView {
    pub host: Seq<char>,
    pub port: u16,
}

impl View for Proxy {
    type V = ProxyView;

    open spec fn view(&self) -> ProxyView {
        ProxyView { host: self.host@, port: self.port }
    }
}

impl Proxy {
    /// A second handle to the same channel.
    pub fn duplicate(&self) -> (copy: Proxy)
        ensures
            copy@ == self@,
    {
        Proxy { host: self.host.clone(), port: self.port }
    }
}

impl Clone for Proxy {
    fn clone(&self) -> (copy: Proxy)
        ensures
            copy@ == self@,
    {
        self.duplicate()
    }
}

/// The replicas as contracts see them.
pub open spec fn replica_views(replicas: Seq<Replica>) -> Seq<ReplicaView> {
    Seq::new(replicas.len(), |i: int| replicas[i]@)
}

/// What a tablet is, as contracts see it. An empty lower bound stands for
/// the least key, an empty upper bound for no bound at all.
pub struct TabletView {
    pub id: Seq<u8>,
    pub lower_bound: Seq<u8>,
    pub upper_bound: Seq<u8>,
    pub replicas: Seq<ReplicaView>,
}

/// A tablet: its identity, the key range `[lower_bound, upper_bound)` it
/// covers in encoded form, and its replicas.
#[derive(Debug, PartialEq, Eq)]
pub struct Tablet {
    pub id: TabletId,
    pub lower_bound: Vec<u8>,
    pub upper_bound: Vec<u8>,
    pub replicas: Vec<Replica>,
}

impl View for Tablet {
    type V = TabletView;

    open spec fn view(&self) -> TabletView {
        TabletView {
            id: self.id@,
            lower_bound: self.lower_bound@,
            upper_bound: self.upper_bound@,
            replicas: replica_views(self.replicas@),
        }
    }
}

impl Tablet {
    /// The tablet's identifier.
    pub fn id(&self) -> (id: &TabletId)
        ensures
            id@ == self@.id,
    {
        &self.id
    }

    /// The least key of the tablet; empty for the least key there is.
    pub fn lower_bound(&self) -> (bound: &[u8])
        ensures
            bound@ == self@.lower_bound,
    {
        self.lower_bound.as_slice()
    }

    /// The least key past the tablet; empty where the tablet has no upper
    /// bound.
    pub fn upper_bound(&self) -> (bound: &[u8])
        ensures
            bound@ == self@.upper_bound,
    {
        self.upper_bound.as_slice()
    }

    /// A second tablet descriptor equal to this one.
    pub fn duplicate(&self) -> (copy: Tablet)
        ensures
            copy@ == self@,
    {
        let mut replicas: Vec<Replica> = Vec::new();
        let mut i: usize = 0;
        while i < self.replicas.len()
            invariant
                i <= self.replicas@.len(),
                replicas@.len() == i,
                forall|j: int| 0 <= j < i ==> (#[trigger] replicas@[j])@ == self.replicas@[j]@,
            decreases self.replicas@.len() - i,
        {
            replicas.push(self.replicas[i].duplicate());
            i = i + 1;
        }
        proof {
            assert(replica_views(replicas@) =~= replica_views(self.replicas@));
        }
        Tablet {
            id: self.id.duplicate(),
            lower_bound: slice_to_vec(self.lower_bound.as_slice()),
            upper_bound: slice_to_vec(self.upper_bound.as_slice()),
            replicas,
        }
    }
}

impl Clone for Tablet {
    fn clone(&self) -> (copy: Tablet)
        ensures
            copy@ == self@,
    {
        self.duplicate()
    }
}

/// What the meta cache knows of a stretch of the key space, as contracts
/// see it.
pub enum EntryView {
    Tablet(TabletView),
    NonCoveredRange { lower_bound: Seq<u8>, upper_bound: Seq<u8> },
}

impl EntryView {
    /// Where the stretch begins; empty for the least key there is.
    pub open spec fn lower_bound(self) -> Seq<u8> {
        match self {
            EntryView::Tablet(tablet) => tablet.lower_bound,
            EntryView::NonCoveredRange { lower_bound, .. } => lower_bound,
        }
    }

    /// Where the stretch ends; empty where it has no end.
    pub open spec fn upper_bound(self) -> Seq<u8> {
        match self {
            EntryView::Tablet(tablet) => tablet.upper_bound,
            EntryView::NonCoveredRange { upper_bound, .. } => upper_bound,
        }
    }

    /// Whether the stretch contains the key.
    pub open spec fn contains(self, key: Seq<u8>) -> bool {
        &&& !lex_lt(key, self.lower_bound())
        &&& self.upper_bound().len() == 0 || lex_lt(key, self.upper_bound())
    }
}

/// What the meta cache knows of a stretch of the key space: the tablet that
/// covers it, or that no tablet does.
#[derive(Debug, PartialEq, Eq)]
pub enum Entry {
    Tablet(Tablet),
    NonCoveredRange { lower_bound: Vec<u8>, upper_bound: Vec<u8> },
}

impl View for Entry {
    type V = EntryView;

    open spec fn view(&self) -> EntryView {
        match *self {
            Entry::Tablet(tablet) => EntryView::Tablet(tablet@),
            Entry::NonCoveredRange { lower_bound, upper_bound } => EntryView::NonCoveredRange {
                lower_bound: lower_bound@,
                upper_bound: upper_bound@,
            },
        }
    }
}

} // verus!
