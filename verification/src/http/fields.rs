//! Header and trailer fields: an ordered multi-map from names to values.

use crate::error::Error;
use vstd::prelude::*;
use vstd::string::StringSliceAdditionalSpecFns;

verus! {

/// The lower-case form of an ASCII letter; every other byte unchanged.
pub open spec fn lower(b: u8) -> u8 {
    if 0x41 <= b <= 0x5a {
        (b + 0x20) as u8
    } else {
        b
    }
}

/// A field name in the form in which names are stored and compared: ASCII
/// letters in lower case.
pub open spec fn normalize(name: Seq<u8>) -> Seq<u8> {
    name.map_values(|b: u8| lower(b))
}

/// The test that an entry is called `name`.
pub open spec fn called(name: Seq<u8>) -> spec_fn((Seq<u8>, Seq<u8>)) -> bool {
    |e: (Seq<u8>, Seq<u8>)| e.0 == normalize(name)
}

/// The test that an entry is not called `name`.
pub open spec fn not_called(name: Seq<u8>) -> spec_fn((Seq<u8>, Seq<u8>)) -> bool {
    |e: (Seq<u8>, Seq<u8>)| e.0 != normalize(name)
}

/// The value of an entry.
pub open spec fn value_of() -> spec_fn((Seq<u8>, Seq<u8>)) -> Seq<u8> {
    |e: (Seq<u8>, Seq<u8>)| e.1
}

/// The values of the entries called `name`, in the order of the entries.
pub open spec fn values_of(entries: Seq<(Seq<u8>, Seq<u8>)>, name: Seq<u8>) -> Seq<Seq<u8>> {
    entries.filter(called(name)).map_values(value_of())
}

/// The entries that are not called `name`, in their order.
pub open spec fn without(entries: Seq<(Seq<u8>, Seq<u8>)>, name: Seq<u8>) -> Seq<
    (Seq<u8>, Seq<u8>),
> {
    entries.filter(not_called(name))
}

/// Whether a field value may hold the byte `b`: a tab, or any byte from the
/// space on but the delete character.
pub open spec fn valid_value_byte(b: u8) -> bool {
    b == 0x09 || (b >= 0x20 && b != 0x7f)
}

/// Whether every byte of `value` may stand in a field value.
pub open spec fn valid_value(value: Seq<u8>) -> bool {
    forall|i: int| 0 <= i < value.len() ==> valid_value_byte(#[trigger] value[i])
}

/// Whether the value of every entry is encoded as a field value must be.
pub open spec fn values_valid(entries: Seq<(Seq<u8>, Seq<u8>)>) -> bool {
    forall|i: int| 0 <= i < entries.len() ==> valid_value((#[trigger] entries[i]).1)
}

/// Whether every byte of `value` may stand in a field value.
pub fn is_valid_value(value: &[u8]) -> (ok: bool)
    ensures
        ok == valid_value(value@),
{
    let mut i: usize = 0;
    while i < value.len()
        invariant
            i <= value@.len(),
            forall|j: int| 0 <= j < i ==> valid_value_byte(#[trigger] value@[j]),
        decreases value@.len() - i,
    {
        let b: u8 = value[i];
        if !(b == 0x09 || (b >= 0x20 && b != 0x7f)) {
            return false;
        }
        i += 1;
    }
    true
}

/// The normalized copy of `name`.
pub fn lowercase(name: &[u8]) -> (out: Vec<u8>)
    ensures
        out@ == normalize(name@),
{
    let mut out: Vec<u8> = Vec::new();
    let mut i: usize = 0;
    while i < name.len()
        invariant
            i <= name@.len(),
            out@ == normalize(name@.take(i as int)),
        decreases name@.len() - i,
    {
        let b: u8 = name[i];
        let l: u8 = if 0x41 <= b && b <= 0x5a {
            b + 0x20
        } else {
            b
        };
        out.push(l);
        proof {
            assert(out@ =~= normalize(name@.take(i + 1)));
        }
        i += 1;
    }
    proof {
        assert(name@.take(i as int) =~= name@);
    }
    out
}

/// Whether two slices hold the same bytes.
pub fn same_bytes(a: &[u8], b: &[u8]) -> (eq: bool)
    ensures
        eq <==> a@ == b@,
{
    if a.len() != b.len() {
        return false;
    }
    let mut i: usize = 0;
    while i < a.len()
        invariant
            i <= a@.len() == b@.len(),
            a@.take(i as int) == b@.take(i as int),
        decreases a@.len() - i,
    {
        if a[i] != b[i] {
            return false;
        }
        proof {
            assert(a@.take(i + 1) =~= a@.take(i as int).push(a@[i as int]));
            assert(b@.take(i + 1) =~= b@.take(i as int).push(b@[i as int]));
        }
        i += 1;
    }
    proof {
        assert(a@.take(i as int) =~= a@);
        assert(b@.take(i as int) =~= b@);
    }
    true
}

/// An ordered multi-map from field names to field values.
///
/// Entries keep the order in which they were added. Names are compared
/// without regard to the case of ASCII letters, and a name may have several
/// values.
#[derive(Debug)]
pub struct Fields {
    entries: Vec<(Vec<u8>, Vec<u8>)>,
}

/// The fields sent before a body.
pub type Headers = Fields;

/// The fields sent after a streamed body.
pub type Trailers = Fields;

impl View for Fields {
    type V = Seq<(Seq<u8>, Seq<u8>)>;

    /// The entries in order, each a normalized name and a value.
    closed spec fn view(&self) -> Seq<(Seq<u8>, Seq<u8>)> {
        Seq::new(self.entries@.len(), |i: int| (self.entries@[i].0@, self.entries@[i].1@))
    }
}

impl Fields {
    /// No fields.
    pub fn new() -> (f: Fields)
        ensures
            f@ == Seq::<(Seq<u8>, Seq<u8>)>::empty(),
    {
        let f = Fields { entries: Vec::new() };
        proof {
            assert(f@ =~= Seq::<(Seq<u8>, Seq<u8>)>::empty());
        }
        f
    }

    /// The number of entries.
    pub fn len(&self) -> (n: usize)
        ensures
            n == self@.len(),
    {
        self.entries.len()
    }

    /// Whether there is no entry.
    pub fn is_empty(&self) -> (b: bool)
        ensures
            b <==> self@.len() == 0,
    {
        self.entries.len() == 0
    }

    /// Adds an entry after all others. Entries of the same name stay.
    pub fn append(&mut self, name: &str, value: &[u8])
        ensures
            final(self)@ == old(self)@.push((normalize(name.spec_bytes()), value@)),
    {
        let n = lowercase(name.as_bytes());
        let v = vstd::slice::slice_to_vec(value);
        self.entries.push((n, v));
        proof {
            assert(self@ =~= old(self)@.push((normalize(name.spec_bytes()), value@)));
        }
    }

    /// Replaces every entry called `name` by one new entry after all others.
    pub fn insert(&mut self, name: &str, value: &[u8])
        ensures
            final(self)@ == without(old(self)@, name.spec_bytes()).push(
                (normalize(name.spec_bytes()), value@),
            ),
    {
        let _ = self.remove(name);
        self.append(name, value);
    }

    /// Removes every entry called `name` and returns how many there were. The
    /// other entries keep their order.
    pub fn remove(&mut self, name: &str) -> (removed: usize)
        ensures
            final(self)@ == without(old(self)@, name.spec_bytes()),
            removed == values_of(old(self)@, name.spec_bytes()).len(),
    {
        let key = lowercase(name.as_bytes());
        let ghost all = self@;
        let ghost keep = not_called(name.spec_bytes());
        let ghost hit = called(name.spec_bytes());
        let mut kept: Vec<(Vec<u8>, Vec<u8>)> = Vec::new();
        let mut removed: usize = 0;
        let mut i: usize = 0;
        while i < self.entries.len()
            invariant
                i <= self.entries@.len(),
                self@ == all,
                all.len() == self.entries@.len(),
                key@ == normalize(name.spec_bytes()),
                keep == not_called(name.spec_bytes()),
                hit == called(name.spec_bytes()),
                Seq::new(kept@.len(), |j: int| (kept@[j].0@, kept@[j].1@)) == all.take(
                    i as int,
                ).filter(keep),
                removed == all.take(i as int).filter(hit).len(),
                removed <= i,
            decreases self.entries@.len() - i,
        {
            let ghost shown = Seq::new(kept@.len(), |j: int| (kept@[j].0@, kept@[j].1@));
            proof {
                assert(all.take(i + 1) =~= all.take(i as int).push(all[i as int]));
                all.take(i as int).lemma_filter_push(all[i as int], keep);
                all.take(i as int).lemma_filter_push(all[i as int], hit);
            }
            if same_bytes(self.entries[i].0.as_slice(), key.as_slice()) {
                removed = removed + 1;
            } else {
                let n = vstd::slice::slice_to_vec(self.entries[i].0.as_slice());
                let v = vstd::slice::slice_to_vec(self.entries[i].1.as_slice());
                kept.push((n, v));
                proof {
                    assert(Seq::new(kept@.len(), |j: int| (kept@[j].0@, kept@[j].1@))
                        =~= shown.push(all[i as int]));
                }
            }
            i += 1;
        }
        proof {
            assert(all.take(i as int) =~= all);
            assert(values_of(all, name.spec_bytes()).len() == all.filter(hit).len());
        }
        self.entries = kept;
        proof {
            assert(self@ =~= all.filter(keep));
        }
        removed
    }

    /// The values of the entries called `name`, in the order of the entries.
    pub fn get(&self, name: &str) -> (values: Vec<Vec<u8>>)
        ensures
            values@.len() == values_of(self@, name.spec_bytes()).len(),
            forall|i: int|
                0 <= i < values@.len() ==> #[trigger] values@[i]@ == values_of(
                    self@,
                    name.spec_bytes(),
                )[i],
    {
        let key = lowercase(name.as_bytes());
        let ghost all = self@;
        let ghost hit = called(name.spec_bytes());
        let ghost pick = value_of();
        let mut values: Vec<Vec<u8>> = Vec::new();
        let mut i: usize = 0;
        while i < self.entries.len()
            invariant
                i <= self.entries@.len(),
                self@ == all,
                all.len() == self.entries@.len(),
                key@ == normalize(name.spec_bytes()),
                hit == called(name.spec_bytes()),
                pick == value_of(),
                Seq::new(values@.len(), |j: int| values@[j]@) == all.take(i as int).filter(
                    hit,
                ).map_values(pick),
            decreases self.entries@.len() - i,
        {
            let ghost shown = Seq::new(values@.len(), |j: int| values@[j]@);
            proof {
                assert(all.take(i + 1) =~= all.take(i as int).push(all[i as int]));
                all.take(i as int).lemma_filter_push(all[i as int], hit);
            }
            if same_bytes(self.entries[i].0.as_slice(), key.as_slice()) {
                let v = vstd::slice::slice_to_vec(self.entries[i].1.as_slice());
                values.push(v);
                proof {
                    assert(Seq::new(values@.len(), |j: int| values@[j]@) =~= shown.push(
                        all[i as int].1,
                    ));
                    assert(all.take(i as int).filter(hit).push(all[i as int]).map_values(pick)
                        =~= all.take(i as int).filter(hit).map_values(pick).push(
                        all[i as int].1,
                    ));
                }
            }
            i += 1;
        }
        proof {
            assert(all.take(i as int) =~= all);
            let shown = Seq::new(values@.len(), |j: int| values@[j]@);
            assert(shown == values_of(self@, name.spec_bytes()));
            assert forall|j: int| 0 <= j < values@.len() implies #[trigger] values@[j]@
                == values_of(self@, name.spec_bytes())[j] by {
                assert(shown[j] == values@[j]@);
            }
        }
        values
    }

    /// A copy of the entries, each a normalized name and a value, in the
    /// order in which they were added.
    pub fn entries(&self) -> (list: Vec<(Vec<u8>, Vec<u8>)>)
        ensures
            list@.len() == self@.len(),
            forall|i: int|
                0 <= i < list@.len() ==> (#[trigger] list@[i]).0@ == self@[i].0 && list@[i].1@
                    == self@[i].1,
    {
        let mut list: Vec<(Vec<u8>, Vec<u8>)> = Vec::new();
        let mut i: usize = 0;
        while i < self.entries.len()
            invariant
                i <= self.entries@.len(),
                self@.len() == self.entries@.len(),
                list@.len() == i,
                forall|j: int|
                    0 <= j < i ==> (#[trigger] list@[j]).0@ == self@[j].0 && list@[j].1@
                        == self@[j].1,
            decreases self.entries@.len() - i,
        {
            let n = vstd::slice::slice_to_vec(self.entries[i].0.as_slice());
            let v = vstd::slice::slice_to_vec(self.entries[i].1.as_slice());
            proof {
                assert(self@[i as int] == (self.entries@[i as int].0@, self.entries@[i as int].1@));
            }
            list.push((n, v));
            i += 1;
        }
        list
    }

    /// Whether the value of every entry is encoded as a field value must be.
    pub fn is_valid(&self) -> (ok: bool)
        ensures
            ok == values_valid(self@),
    {
        let mut i: usize = 0;
        while i < self.entries.len()
            invariant
                i <= self.entries@.len(),
                self@.len() == self.entries@.len(),
                forall|j: int| 0 <= j < i ==> valid_value((#[trigger] self@[j]).1),
            decreases self.entries@.len() - i,
        {
            if !is_valid_value(self.entries[i].1.as_slice()) {
                proof {
                    assert(self@[i as int].1 == self.entries@[i as int].1@);
                }
                return false;
            }
            proof {
                assert(self@[i as int].1 == self.entries@[i as int].1@);
            }
            i += 1;
        }
        true
    }

    /// Whether some entry is called `name`.
    pub fn contains(&self, name: &str) -> (found: bool)
        ensures
            found <==> values_of(self@, name.spec_bytes()).len() > 0,
    {
        let values = self.get(name);
        values.len() > 0
    }

    /// The first value of `name`, which the exchange cannot do without:
    /// [`Error::MissingHeader`] if and only if no entry is called `name`.
    pub fn require(&self, name: &str) -> (r: Result<Vec<u8>, Error>)
        ensures
            match r {
                Ok(value) => values_of(self@, name.spec_bytes()).len() > 0 && value@ == values_of(
                    self@,
                    name.spec_bytes(),
                )[0],
                Err(e) => values_of(self@, name.spec_bytes()).len() == 0 && e
                    == Error::MissingHeader,
            },
    {
        let mut values = self.get(name);
        if values.len() == 0 {
            Err(Error::MissingHeader)
        } else {
            let ghost first = values@[0]@;
            let v = values.swap_remove(0);
            proof {
                assert(v@ == first);
            }
            Ok(v)
        }
    }
}

} // verus!
