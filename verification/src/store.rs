//! The table of decoded tracks that the mixer reads from.
use vstd::prelude::*;
use crate::names::NameMap;
use crate::wav::Wav;

verus! {

/// The buffer that `samples` holds under `name`, if any.
pub open spec fn buffer_of(samples: Map<Seq<char>, Wav>, name: Seq<char>) -> Option<Wav> {
    if samples.dom().contains(name) {
        Some(samples[name])
    } else {
        None
    }
}

/// Maps a track name to its decoded samples. Entries come in when a load
/// completes and are never taken out; storing under a known name replaces
/// the buffer wholesale.
pub struct SampleStore {
    entries: NameMap<Wav>,
}

impl View for SampleStore {
    type V = Map<Seq<char>, Wav>;

    closed spec fn view(&self) -> Map<Seq<char>, Wav> {
        self.entries@
    }
}

impl SampleStore {
    /// The table underneath holds each name once.
    pub closed spec fn entries_wf(&self) -> bool {
        self.entries.wf()
    }

    /// Every buffer in the store is well formed.
    pub open spec fn wf(&self) -> bool {
        &&& self.entries_wf()
        &&& forall|name: Seq<char>| #[trigger]
            self@.dom().contains(name) ==> self@[name].wf()
    }

    /// The buffer stored under `name`, if a load of it has completed.
    pub open spec fn lookup(&self, name: Seq<char>) -> Option<Wav> {
        buffer_of(self@, name)
    }

    /// A store without tracks.
    pub fn new() -> (store: Self)
        ensures
            store.wf(),
            store@ == Map::<Seq<char>, Wav>::empty(),
    {
        let store = SampleStore { entries: NameMap::new() };
        assert(store@ =~= Map::<Seq<char>, Wav>::empty());
        store
    }

    /// The number of tracks in the store.
    pub fn len(&self) -> (n: usize)
        requires
            self.wf(),
        ensures
            n == self@.dom().len(),
            self@.dom().finite(),
    {
        proof {
            let keys = self.entries.keys();
            keys.unique_seq_to_set();
            assert(self@.dom() =~= keys.to_set());
        }
        self.entries.len()
    }

    /// The buffer stored under `name`.
    pub fn get(&self, name: &String) -> (found: Option<&Wav>)
        requires
            self.wf(),
        ensures
            match found {
                Some(wav) => self.lookup(name@) == Some(*wav) && wav.wf(),
                None => self.lookup(name@) is None,
            },
    {
        self.entries.get(name)
    }

    /// Whether a buffer is stored under `name`.
    pub fn contains(&self, name: &String) -> (present: bool)
        requires
            self.wf(),
        ensures
            present == self@.dom().contains(name@),
    {
        self.entries.position(name).is_some()
    }

    /// Stores `wav` under `name`, in place of any buffer that was there.
    pub fn insert(&mut self, name: String, wav: Wav)
        requires
            old(self).wf(),
            wav.wf(),
        ensures
            final(self).wf(),
            final(self)@ == old(self)@.insert(name@, wav),
    {
        let ghost key = name@;
        self.entries.insert(name, wav);
        proof {
            assert forall|other: Seq<char>| #[trigger]
                self@.dom().contains(other) implies self@[other].wf() by {
                if other != key {
                    assert(old(self)@.dom().contains(other));
                }
            }
        }
    }
}

} // verus!
