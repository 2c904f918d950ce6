use vstd::prelude::*;

verus! {

/// Describes a single known device to the compositor, providing underlying
/// handles for it.
pub struct KnownDevice<K, P> {
    /// Human-friendly name of the device.
    pub name: String,
    /// Device's keyboard handle, if any. Applicable only for keyboards.
    pub keyboard_handle: Option<K>,
    /// Device's pointer (mouse) handle, if any. Applicable only for mice.
    pub pointer_handle: Option<P>,
}

/// Why a device's handle could not be had.
#[derive(Debug, PartialEq, Eq)]
pub enum DeviceError {
    /// No device with this identifier is known.
    UnknownDevice(String),
    /// The device has no keyboard.
    NotAKeyboard,
    /// The device has no pointer.
    NotAMouse,
}

/// Whether no two entries of `s` have the same device identifier.
pub open spec fn keys_distinct<V>(s: Seq<(String, V)>) -> bool {
    forall|i: int, j: int|
        0 <= i < s.len() && 0 <= j < s.len() && i != j ==> #[trigger] s[i].0@ != #[trigger] s[j].0@
}

/// Whether some entry of `s` has device identifier `key`.
pub open spec fn has_key<V>(s: Seq<(String, V)>, key: Seq<char>) -> bool {
    exists|i: int| 0 <= i < s.len() && #[trigger] s[i].0@ == key
}

/// The entries of `s` by device identifier.
pub open spec fn by_key<V>(s: Seq<(String, V)>) -> Map<Seq<char>, V> {
    Map::new(
        |key: Seq<char>| has_key(s, key),
        |key: Seq<char>| s[choose|i: int| 0 <= i < s.len() && #[trigger] s[i].0@ == key].1,
    )
}

/// Each entry of a sequence with distinct identifiers is found under its
/// identifier.
pub proof fn lemma_by_key_at<V>(s: Seq<(String, V)>, i: int)
    requires
        keys_distinct(s),
        0 <= i < s.len(),
    ensures
        by_key(s).dom().contains(s[i].0@),
        by_key(s)[s[i].0@] == s[i].1,
{
    let key = s[i].0@;
    assert(has_key(s, key));
    let k = choose|k: int| 0 <= k < s.len() && #[trigger] s[k].0@ == key;
    assert(k == i);
}

/// Replacing the entry at `i` by one with the same identifier replaces it in
/// the map too.
pub proof fn lemma_by_key_update<V>(s: Seq<(String, V)>, i: int, e: (String, V))
    requires
        keys_distinct(s),
        0 <= i < s.len(),
        e.0@ == s[i].0@,
    ensures
        keys_distinct(s.update(i, e)),
        by_key(s.update(i, e)) == by_key(s).insert(e.0@, e.1),
{
    let t = s.update(i, e);
    assert(keys_distinct(t)) by {
        assert forall|a: int, b: int| 0 <= a < t.len() && 0 <= b < t.len() && a != b
            implies #[trigger] t[a].0@ != #[trigger] t[b].0@ by {
            assert(s[a].0@ != s[b].0@);
        }
    }
    assert forall|key: Seq<char>| #[trigger] has_key(t, key) == (has_key(s, key) || key == e.0@) by {
        if has_key(s, key) {
            let k = choose|k: int| 0 <= k < s.len() && #[trigger] s[k].0@ == key;
            assert(t[k].0@ == key);
        }
        if key == e.0@ {
            assert(t[i].0@ == key);
        }
        if has_key(t, key) {
            let k = choose|k: int| 0 <= k < t.len() && #[trigger] t[k].0@ == key;
            if k != i {
                assert(s[k].0@ == key);
            }
        }
    }
    assert forall|key: Seq<char>| by_key(t).dom().contains(key) implies by_key(t)[key] == by_key(s).insert(e.0@, e.1)[key] by {
        let k = choose|k: int| 0 <= k < t.len() && #[trigger] t[k].0@ == key;
        lemma_by_key_at(t, k);
        if k != i {
            lemma_by_key_at(s, k);
        }
    }
    assert(by_key(t) =~= by_key(s).insert(e.0@, e.1));
}

/// Appending an entry with a new identifier adds it to the map.
pub proof fn lemma_by_key_push<V>(s: Seq<(String, V)>, e: (String, V))
    requires
        keys_distinct(s),
        !has_key(s, e.0@),
    ensures
        keys_distinct(s.push(e)),
        by_key(s.push(e)) == by_key(s).insert(e.0@, e.1),
{
    let t = s.push(e);
    let n = s.len() as int;
    assert(keys_distinct(t)) by {
        assert forall|a: int, b: int| 0 <= a < t.len() && 0 <= b < t.len() && a != b
            implies #[trigger] t[a].0@ != #[trigger] t[b].0@ by {
            if a < n && b < n {
                assert(s[a].0@ != s[b].0@);
            } else if a < n {
                assert(s[a] == t[a]);
            } else {
                assert(s[b] == t[b]);
            }
        }
    }
    assert forall|key: Seq<char>| #[trigger] has_key(t, key) == (has_key(s, key) || key == e.0@) by {
        if has_key(s, key) {
            let k = choose|k: int| 0 <= k < s.len() && #[trigger] s[k].0@ == key;
            assert(t[k].0@ == key);
        }
        if key == e.0@ {
            assert(t[n].0@ == key);
        }
        if has_key(t, key) {
            let k = choose|k: int| 0 <= k < t.len() && #[trigger] t[k].0@ == key;
            if k != n {
                assert(s[k].0@ == key);
            }
        }
    }
    assert forall|key: Seq<char>| by_key(t).dom().contains(key) implies by_key(t)[key] == by_key(s).insert(e.0@, e.1)[key] by {
        let k = choose|k: int| 0 <= k < t.len() && #[trigger] t[k].0@ == key;
        lemma_by_key_at(t, k);
        if k != n {
            lemma_by_key_at(s, k);
        }
    }
    assert(by_key(t) =~= by_key(s).insert(e.0@, e.1));
}

/// Removing the entry at `i` removes its identifier from the map.
pub proof fn lemma_by_key_remove<V>(s: Seq<(String, V)>, i: int)
    requires
        keys_distinct(s),
        0 <= i < s.len(),
    ensures
        keys_distinct(s.remove(i)),
        by_key(s.remove(i)) == by_key(s).remove(s[i].0@),
{
    let t = s.remove(i);
    let k0 = s[i].0@;
    assert forall|k: int| 0 <= k < t.len() implies #[trigger] t[k] == s[if k < i { k } else { k + 1 }] by {}
    assert(keys_distinct(t)) by {
        assert forall|a: int, b: int| 0 <= a < t.len() && 0 <= b < t.len() && a != b
            implies #[trigger] t[a].0@ != #[trigger] t[b].0@ by {
            let sa = if a < i { a } else { a + 1 };
            let sb = if b < i { b } else { b + 1 };
            assert(t[a] == s[sa] && t[b] == s[sb]);
            assert(s[sa].0@ != s[sb].0@);
        }
    }
    assert forall|key: Seq<char>| #[trigger] has_key(t, key) == (has_key(s, key) && key != k0) by {
        if has_key(s, key) && key != k0 {
            let k = choose|k: int| 0 <= k < s.len() && #[trigger] s[k].0@ == key;
            let tk = if k < i { k } else { k - 1 };
            assert(t[tk] == s[k]);
        }
        if has_key(t, key) {
            let k = choose|k: int| 0 <= k < t.len() && #[trigger] t[k].0@ == key;
            let sk = if k < i { k } else { k + 1 };
            assert(t[k] == s[sk]);
            assert(s[sk].0@ != s[i].0@);
        }
    }
    assert forall|key: Seq<char>| by_key(t).dom().contains(key) implies by_key(t)[key] == by_key(s).remove(k0)[key] by {
        let k = choose|k: int| 0 <= k < t.len() && #[trigger] t[k].0@ == key;
        let sk = if k < i { k } else { k + 1 };
        assert(t[k] == s[sk]);
        lemma_by_key_at(t, k);
        lemma_by_key_at(s, sk);
    }
    assert(by_key(t) =~= by_key(s).remove(k0));
}

/// Describes current compositor's input devices state: the known devices by
/// device identifier.
pub struct InputState<K, P> {
    known_devices: Vec<(String, KnownDevice<K, P>)>,
}

impl<K, P> InputState<K, P> {
    /// Device identifiers are stored once each.
    pub closed spec fn wf(&self) -> bool {
        keys_distinct(self.known_devices@)
    }

    /// The known devices by identifier.
    pub closed spec fn devices(&self) -> Map<Seq<char>, KnownDevice<K, P>> {
        by_key(self.known_devices@)
    }

    /// No device known.
    pub fn new() -> (state: Self)
        ensures
            state.wf(),
            state.devices() == Map::<Seq<char>, KnownDevice<K, P>>::empty(),
    {
        let state = InputState { known_devices: Vec::new() };
        assert(state.devices() =~= Map::<Seq<char>, KnownDevice<K, P>>::empty());
        state
    }

    /// Position of the device `device_id` in storage.
    fn find_index(&self, device_id: &String) -> (idx: Option<usize>)
        requires
            self.wf(),
        ensures
            match idx {
                Some(i) => i < self.known_devices@.len() && self.known_devices@[i as int].0@ == device_id@,
                None => !has_key(self.known_devices@, device_id@),
            },
    {
        let n = self.known_devices.len();
        for i in 0..n
            invariant
                n == self.known_devices@.len(),
                forall|j: int| 0 <= j < i ==> #[trigger] self.known_devices@[j].0@ != device_id@,
        {
            if self.known_devices[i].0 == *device_id {
                return Some(i);
            }
        }
        None
    }

    /// Handles device addition: the device becomes known under its
    /// identifier, replacing any device known under it.
    pub fn on_device_added(&mut self, device_id: String, known_device: KnownDevice<K, P>)
        requires
            old(self).wf(),
        ensures
            final(self).wf(),
            final(self).devices() == old(self).devices().insert(device_id@, known_device),
    {
        let entry = (device_id, known_device);
        match self.find_index(&entry.0) {
            Some(i) => {
                proof {
                    lemma_by_key_update(self.known_devices@, i as int, entry);
                }
                self.known_devices.set(i, entry);
            },
            None => {
                proof {
                    lemma_by_key_push(self.known_devices@, entry);
                }
                self.known_devices.push(entry);
            },
        }
    }

    /// Handles device remove: the device is no longer known.
    pub fn on_device_removed(&mut self, device_id: &String)
        requires
            old(self).wf(),
        ensures
            final(self).wf(),
            final(self).devices() == old(self).devices().remove(device_id@),
    {
        match self.find_index(device_id) {
            Some(i) => {
                proof {
                    lemma_by_key_remove(self.known_devices@, i as int);
                }
                self.known_devices.remove(i);
            },
            None => {
                assert(self.devices() =~= old(self).devices().remove(device_id@));
            },
        }
    }

    /// The known device `device_id`, if any.
    pub fn device(&self, device_id: &String) -> (device: Option<&KnownDevice<K, P>>)
        requires
            self.wf(),
        ensures
            match device {
                Some(d) => self.devices().dom().contains(device_id@) && *d == self.devices()[device_id@],
                None => !self.devices().dom().contains(device_id@),
            },
    {
        match self.find_index(device_id) {
            Some(i) => {
                proof {
                    lemma_by_key_at(self.known_devices@, i as int);
                }
                Some(&self.known_devices[i].1)
            },
            None => None,
        }
    }

    /// Retrieves keyboard handle for the given device.
    pub fn keyboard_handle_for_device(&self, device_id: &String) -> (handle: Result<&K, DeviceError>)
        requires
            self.wf(),
        ensures
            !self.devices().dom().contains(device_id@) ==> (handle matches Err(DeviceError::UnknownDevice(id)) && id@ == device_id@),
            self.devices().dom().contains(device_id@) ==> match self.devices()[device_id@].keyboard_handle {
                Some(k) => handle == Ok::<&K, DeviceError>(&k),
                None => handle == Err::<&K, DeviceError>(DeviceError::NotAKeyboard),
            },
    {
        match self.device(device_id) {
            None => Err(DeviceError::UnknownDevice(device_id.clone())),
            Some(known_device) => match &known_device.keyboard_handle {
                Some(k) => Ok(k),
                None => Err(DeviceError::NotAKeyboard),
            },
        }
    }

    /// Retrieves pointer (mouse) handle for the given device.
    pub fn pointer_handle_for_device(&self, device_id: &String) -> (handle: Result<&P, DeviceError>)
        requires
            self.wf(),
        ensures
            !self.devices().dom().contains(device_id@) ==> (handle matches Err(DeviceError::UnknownDevice(id)) && id@ == device_id@),
            self.devices().dom().contains(device_id@) ==> match self.devices()[device_id@].pointer_handle {
                Some(p) => handle == Ok::<&P, DeviceError>(&p),
                None => handle == Err::<&P, DeviceError>(DeviceError::NotAMouse),
            },
    {
        match self.device(device_id) {
            None => Err(DeviceError::UnknownDevice(device_id.clone())),
            Some(known_device) => match &known_device.pointer_handle {
                Some(p) => Ok(p),
                None => Err(DeviceError::NotAMouse),
            },
        }
    }
}

} // verus!
