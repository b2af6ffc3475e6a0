//! The records of a run archive and the builds that they refer to.
//!
//! A record is a measurement and a reference. What produced the number stands
//! once per run in a map of builds, so that an archive keeps reporting the
//! versions that it measured. Older archives repeat a build's fields on every
//! record; both forms are read.
use vstd::prelude::*;
use crate::model::{Latency, Record, Stability, Throughput};
use crate::sorted_map::SortedMap;
use crate::text::copied;

verus! {

/// What produced a number.
pub struct Build {
    pub variant: String,
    pub engine: Option<String>,
    pub lib_version: Option<String>,
    pub binding_version: Option<String>,
}

/// A record as an archive holds it.
pub struct Entry {
    /// The build that it refers to. None in the older form, whose records have
    /// the build's fields themselves.
    pub build: Option<String>,
    pub variant: Option<String>,
    pub engine: Option<String>,
    pub lib_version: Option<String>,
    pub binding_version: Option<String>,
    pub kind: String,
    pub transport: String,
    pub payload_bytes: u64,
    pub peers: Option<u32>,
    pub latency: Option<Latency>,
    pub throughput: Option<Throughput>,
    pub stability: Option<Stability>,
}

/// What produced a number, over characters.
pub struct Identity {
    pub variant: Seq<char>,
    pub engine: Option<Seq<char>>,
    pub lib_version: Option<Seq<char>>,
    pub binding_version: Option<Seq<char>>,
}

impl View for Build {
    type V = Identity;

    open spec fn view(&self) -> Identity {
        Identity {
            variant: self.variant@,
            engine: crate::text::opt_view(self.engine),
            lib_version: crate::text::opt_view(self.lib_version),
            binding_version: crate::text::opt_view(self.binding_version),
        }
    }
}

/// What a record says produced its number.
pub open spec fn identity_of(r: Record) -> Identity {
    Identity {
        variant: r.variant@,
        engine: crate::text::opt_view(r.engine),
        lib_version: crate::text::opt_view(r.lib_version),
        binding_version: crate::text::opt_view(r.binding_version),
    }
}

/// What produced the number of a record of an archive: the build that it
/// refers to; in the older form, what it says itself. None where there is no
/// such build, or no variant is named.
pub open spec fn resolved(e: Entry, builds: Map<Seq<char>, Build>) -> Option<Identity> {
    match e.build {
        Some(id) => if builds.dom().contains(id@) {
            Some(builds[id@]@)
        } else {
            None
        },
        None => match e.variant {
            Some(v) => Some(
                Identity {
                    variant: v@,
                    engine: crate::text::opt_view(e.engine),
                    lib_version: crate::text::opt_view(e.lib_version),
                    binding_version: crate::text::opt_view(e.binding_version),
                },
            ),
            None => None,
        },
    }
}

/// What is said of a record that nothing can be said to have produced.
pub open spec fn unresolved_text(e: Entry) -> Seq<char> {
    match e.build {
        Some(id) => "record refers to unknown build "@ + id@,
        None => "record names neither a build nor a variant"@,
    }
}

impl Entry {
    /// The record with what produced it filled in.
    pub fn resolve(self, builds: &SortedMap<String, Build>) -> (r: Result<Record, String>)
        requires
            builds.wf(),
        ensures
            match r {
                Ok(rec) => {
                    &&& resolved(self, builds@) == Some(identity_of(rec))
                    &&& match self.build {
                        Some(id) => {
                            let b = builds@[id@];
                            &&& builds@.dom().contains(id@)
                            &&& rec.variant@ == b.variant@
                            &&& crate::text::opt_view(rec.engine) == crate::text::opt_view(b.engine)
                            &&& crate::text::opt_view(rec.lib_version) == crate::text::opt_view(
                                b.lib_version,
                            )
                            &&& crate::text::opt_view(rec.binding_version) == crate::text::opt_view(
                                b.binding_version,
                            )
                        },
                        None => {
                            &&& self.variant == Some(rec.variant)
                            &&& rec.engine == self.engine
                            &&& rec.lib_version == self.lib_version
                            &&& rec.binding_version == self.binding_version
                        },
                    }
                    &&& rec.kind@ == self.kind@
                    &&& rec.transport@ == self.transport@
                    &&& rec.payload_bytes == self.payload_bytes
                    &&& rec.peers == self.peers
                    &&& rec.latency == self.latency
                    &&& rec.throughput == self.throughput
                    &&& rec.stability == self.stability
                },
                Err(e) => resolved(self, builds@) is None && e@ == unresolved_text(self),
            },
    {
        match &self.build {
            Some(id) => match builds.get(id) {
                Some(b) => Ok(
                    Record {
                        variant: b.variant.clone(),
                        kind: self.kind,
                        transport: self.transport,
                        payload_bytes: self.payload_bytes,
                        peers: self.peers,
                        engine: copied(&b.engine),
                        lib_version: copied(&b.lib_version),
                        binding_version: copied(&b.binding_version),
                        latency: self.latency,
                        throughput: self.throughput,
                        stability: self.stability,
                    },
                ),
                None => {
                    let mut e = "record refers to unknown build ".to_owned();
                    e.append(id.as_str());
                    Err(e)
                },
            },
            None => match self.variant {
                Some(variant) => Ok(
                    Record {
                        variant,
                        kind: self.kind,
                        transport: self.transport,
                        payload_bytes: self.payload_bytes,
                        peers: self.peers,
                        engine: self.engine,
                        lib_version: self.lib_version,
                        binding_version: self.binding_version,
                        latency: self.latency,
                        throughput: self.throughput,
                        stability: self.stability,
                    },
                ),
                None => Err("record names neither a build nor a variant".to_owned()),
            },
        }
    }
}

/// A record that refers to a build is that build's, whatever else it says of
/// itself: two records with the same reference have the same origin.
pub proof fn law_reference_decides(a: Entry, b: Entry, builds: Map<Seq<char>, Build>, id: String)
    requires
        a.build == Some(id),
        b.build == Some(id),
    ensures
        resolved(a, builds) == resolved(b, builds),
        resolved(a, builds) is Some <==> builds.dom().contains(id@),
        resolved(a, builds) matches Some(o) ==> o.variant == builds[id@].variant@,
{
}

/// A record without a reference speaks for itself, whatever builds there are.
pub proof fn law_plain_records_speak_for_themselves(
    e: Entry,
    a: Map<Seq<char>, Build>,
    b: Map<Seq<char>, Build>,
)
    requires
        e.build is None,
    ensures
        resolved(e, a) == resolved(e, b),
        resolved(e, a) is Some <==> e.variant is Some,
        resolved(e, a) matches Some(o) ==> o.variant == e.variant->0@,
{
}

} // verus!
