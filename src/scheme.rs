//! The scheme registry: names and ids of the resource providers, and the
//! split of a `scheme:path` URL.

use vstd::prelude::*;

use crate::error::Error;
use crate::flag::SchemeId;

verus! {

pub const COLON: u8 = 0x3a;

/// Splits a URL at its first `:`: the scheme name lies before it, the path
/// after it. A URL without `:` names no scheme.
pub fn split_url(url: &[u8]) -> (r: Option<usize>)
    ensures
        match r {
            Some(i) => i < url@.len() && url@[i as int] == COLON && forall|j: int| 0 <= j < i ==> url@[j] != COLON,
            None => forall|j: int| 0 <= j < url@.len() ==> url@[j] != COLON,
        },
{
    let mut i: usize = 0;
    while i < url.len()
        invariant
            i <= url@.len(),
            forall|j: int| 0 <= j < i ==> url@[j] != COLON,
        decreases url@.len() - i,
    {
        if url[i] == COLON {
            return Some(i);
        }
        i = i + 1;
    }
    None
}

pub struct SchemeRegistryView {
    pub entries: Seq<(Seq<u8>, SchemeId)>,
    pub next_id: usize,
}

impl SchemeRegistryView {
    /// Names are unique, and so are ids, which stay below the next one.
    pub open spec fn wf(self) -> bool {
        &&& forall|i: int, j: int|
            0 <= i < j < self.entries.len() ==> self.entries[i].0 != self.entries[j].0
                && self.entries[i].1.0 < self.entries[j].1.0
        &&& forall|i: int| 0 <= i < self.entries.len() ==> self.entries[i].1.0 < self.next_id
    }

    /// Whether some scheme is registered under `name`.
    pub open spec fn has_name(self, name: Seq<u8>) -> bool {
        exists|i: int| 0 <= i < self.entries.len() && #[trigger] self.entries[i].0 == name
    }

    /// The id registered under `name`.
    pub open spec fn id_of(self, name: Seq<u8>) -> SchemeId {
        self.entries[choose|i: int| 0 <= i < self.entries.len() && #[trigger] self.entries[i].0 == name].1
    }
}

/// The registered schemes, by name and by id, in order of registration.
pub struct SchemeRegistry {
    entries: Vec<(Vec<u8>, SchemeId)>,
    next_id: usize,
}

pub open spec fn entry_views(es: Seq<(Vec<u8>, SchemeId)>) -> Seq<(Seq<u8>, SchemeId)> {
    es.map_values(|e: (Vec<u8>, SchemeId)| (e.0@, e.1))
}

impl View for SchemeRegistry {
    type V = SchemeRegistryView;

    closed spec fn view(&self) -> SchemeRegistryView {
        SchemeRegistryView { entries: entry_views(self.entries@), next_id: self.next_id }
    }
}

fn same_bytes(a: &[u8], b: &[u8]) -> (r: bool)
    ensures
        r == (a@ == b@),
{
    if a.len() != b.len() {
        return false;
    }
    let mut i: usize = 0;
    while i < a.len()
        invariant
            a@.len() == b@.len(),
            i <= a@.len(),
            forall|k: int| 0 <= k < i ==> a@[k] == b@[k],
        decreases a@.len() - i,
    {
        if a[i] != b[i] {
            return false;
        }
        i = i + 1;
    }
    assert(a@ =~= b@);
    true
}

impl SchemeRegistry {
    /// An empty registry whose first scheme gets id 1.
    pub fn new() -> (r: SchemeRegistry)
        ensures
            r@.wf(),
            r@.entries.len() == 0,
            r@.next_id == 1,
    {
        let r = SchemeRegistry { entries: Vec::new(), next_id: 1 };
        assert(r@.entries =~= Seq::<(Seq<u8>, SchemeId)>::empty());
        r
    }

    /// The id of the scheme named `name`.
    pub fn lookup(&self, name: &[u8]) -> (r: Option<SchemeId>)
        requires
            self@.wf(),
        ensures
            match r {
                Some(id) => self@.has_name(name@) && self@.id_of(name@) == id,
                None => !self@.has_name(name@),
            },
    {
        let mut i: usize = 0;
        while i < self.entries.len()
            invariant
                self@.wf(),
                i <= self@.entries.len(),
                forall|k: int| 0 <= k < i ==> self@.entries[k].0 != name@,
            decreases self@.entries.len() - i,
        {
            assert(self@.entries[i as int] == (self.entries@[i as int].0@, self.entries@[i as int].1));
            if same_bytes(self.entries[i].0.as_slice(), name) {
                proof {
                    assert(self@.entries[i as int].0 == name@);
                    assert(self@.has_name(name@));
                    let j = choose|j: int| 0 <= j < self@.entries.len() && #[trigger] self@.entries[j].0 == name@;
                    if j != i {
                        if j < i {
                            assert(self@.entries[j].0 != self@.entries[i as int].0);
                        } else {
                            assert(self@.entries[i as int].0 != self@.entries[j].0);
                        }
                    }
                }
                return Some(self.entries[i].1);
            }
            i = i + 1;
        }
        None
    }

    /// Registers a scheme under `name` with the next id.
    pub fn insert(&mut self, name: Vec<u8>) -> (r: Result<SchemeId, Error>)
        requires
            old(self)@.wf(),
        ensures
            final(self)@.wf(),
            old(self)@.has_name(name@) ==> r == Err::<SchemeId, Error>(Error::AlreadyExists)
                && final(self)@ == old(self)@,
            !old(self)@.has_name(name@) && old(self)@.next_id == usize::MAX ==> r == Err::<
                SchemeId,
                Error,
            >(Error::WouldBlock) && final(self)@ == old(self)@,
            !old(self)@.has_name(name@) && old(self)@.next_id < usize::MAX ==> {
                &&& r == Ok::<SchemeId, Error>(SchemeId(old(self)@.next_id))
                &&& final(self)@.entries == old(self)@.entries.push((name@, SchemeId(old(self)@.next_id)))
                &&& final(self)@.next_id == old(self)@.next_id + 1
            },
    {
        if self.lookup(name.as_slice()).is_some() {
            return Err(Error::AlreadyExists);
        }
        if self.next_id == usize::MAX {
            return Err(Error::WouldBlock);
        }
        let id = SchemeId(self.next_id);
        let ghost nv = name@;
        self.entries.push((name, id));
        self.next_id = self.next_id + 1;
        proof {
            assert(self@.entries =~= old(self)@.entries.push((nv, id)));
            assert forall|i: int| 0 <= i < old(self)@.entries.len() implies self@.entries[i].0 != nv by {
                if self@.entries[i].0 == nv {
                    assert(old(self)@.entries[i].0 == nv);
                }
            };
        }
        Ok(id)
    }
}

} // verus!
