use rayon::iter::{IndexedParallelIterator, IntoParallelRefIterator, ParallelIterator};
use vstd::prelude::*;

verus! {

/// A block of memory held at a known value.
///
/// Every byte is written eagerly when the buffer is built, and each fill and
/// scan goes over every byte through rayon's worker pool.
pub struct Detector {
    default: u8,
    capacity: usize,
    detector_mass: Vec<u8>,
}

/// The value every byte of `s` is expected to hold is `d`.
pub open spec fn all_equal(s: Seq<u8>, d: u8) -> bool {
    forall|i: int| 0 <= i < s.len() ==> s[i] == d
}

/// What a scan for a changed byte may answer: the index of some byte of `s`
/// that differs from `d`, or `None` when every byte equals `d`.
pub open spec fn change_found(r: Option<usize>, s: Seq<u8>, d: u8) -> bool {
    match r {
        Some(i) => i < s.len() && s[i as int] != d,
        None => all_equal(s, d),
    }
}

/// `true` exactly when `b` differs from `d`; the predicate of the parallel scan.
pub fn differs(b: &u8, d: u8) -> (r: bool)
    ensures
        r == (*b != d),
{
    *b != d
}

/// Relies on rayon's `repeat_n(..).collect_into_vec(..)`: the vector is cleared
/// and then holds `len` copies of `value`, written by the worker pool.
#[verifier::external_body]
fn fill_parallel(v: &mut Vec<u8>, value: u8, len: usize)
    requires
        len <= isize::MAX,
    ensures
        final(v)@ == Seq::new(len as nat, |i: int| value),
{
    rayon::iter::repeat_n(value, len).collect_into_vec(v)
}

/// Relies on rayon's `position_any`: the index of some byte for which the
/// predicate holds, or `None` when it holds for none.
#[verifier::external_body]
fn position_of_change(v: &Vec<u8>, d: u8) -> (r: Option<usize>)
    ensures
        match r {
            Some(i) => i < v@.len() && v@[i as int] != d,
            None => all_equal(v@, d),
        },
{
    v.par_iter().position_any(|b| differs(b, d))
}

impl Detector {
    /// The value the buffer is held at.
    pub closed spec fn default_value(&self) -> u8 {
        self.default
    }

    /// The bytes of the buffer.
    pub closed spec fn contents(&self) -> Seq<u8> {
        self.detector_mass@
    }

    /// The number of bytes monitored, fixed at construction.
    pub closed spec fn spec_capacity(&self) -> nat {
        self.capacity as nat
    }

    pub closed spec fn wf(&self) -> bool {
        self.detector_mass@.len() == self.capacity && self.capacity <= isize::MAX
    }

    /// A well-formed buffer holds exactly its capacity in bytes, and no more
    /// than a `Vec` can.
    pub proof fn lemma_wf_len(&self)
        requires
            self.wf(),
        ensures
            self.contents().len() == self.spec_capacity(),
            self.spec_capacity() <= isize::MAX,
    {
    }

    /// Whether every byte holds the default value.
    pub open spec fn spec_intact(&self) -> bool {
        all_equal(self.contents(), self.default_value())
    }

    /// What the buffer holds after a reset: every byte at the default value.
    pub open spec fn spec_reset(&self) -> Seq<u8> {
        Seq::new(self.spec_capacity(), |i: int| self.default_value())
    }

    /// Allocates `initial_capacity` bytes and writes `default` into each of them.
    pub fn new(default: u8, initial_capacity: usize) -> (r: Self)
        requires
            initial_capacity <= isize::MAX,
        ensures
            r.wf(),
            r.default_value() == default,
            r.spec_capacity() == initial_capacity,
            r.contents() == Seq::new(initial_capacity as nat, |i: int| default),
            r.spec_intact(),
    {
        let mut detector_mass: Vec<u8> = Vec::with_capacity(initial_capacity);
        fill_parallel(&mut detector_mass, default, initial_capacity);
        Detector { default, capacity: initial_capacity, detector_mass }
    }

    /// The number of bytes monitored.
    pub fn capacity(&self) -> (r: usize)
        ensures
            r == self.spec_capacity(),
    {
        self.capacity
    }

    /// Checks if every element of the detector memory is equal to the default value.
    pub fn is_intact(&self) -> (r: bool)
        ensures
            r == self.spec_intact(),
    {
        self.find_index_of_changed_element().is_none()
    }

    /// Writes the given value to every element of the detector memory.
    pub fn write(&mut self, value: u8)
        requires
            old(self).wf(),
        ensures
            final(self).wf(),
            final(self).default_value() == old(self).default_value(),
            final(self).spec_capacity() == old(self).spec_capacity(),
            final(self).contents() == Seq::new(old(self).spec_capacity(), |i: int| value),
    {
        let len = self.capacity;
        fill_parallel(&mut self.detector_mass, value, len);
    }

    /// If an element in the detector does not match its default value, returns the
    /// index of some such element; which one is not fixed.
    pub fn find_index_of_changed_element(&self) -> (r: Option<usize>)
        ensures
            change_found(r, self.contents(), self.default_value()),
    {
        position_of_change(&self.detector_mass, self.default)
    }

    /// Resets the detector to its default value.
    pub fn reset(&mut self)
        requires
            old(self).wf(),
        ensures
            final(self).wf(),
            final(self).default_value() == old(self).default_value(),
            final(self).spec_capacity() == old(self).spec_capacity(),
            final(self).contents() == old(self).spec_reset(),
            final(self).spec_intact(),
    {
        let d = self.default;
        self.write(d);
    }

    /// Returns the value of the element at the given index, if it exists.
    pub fn get(&self, index: usize) -> (r: Option<u8>)
        requires
            self.wf(),
        ensures
            index < self.contents().len() ==> r == Some(self.contents()[index as int]),
            index >= self.contents().len() ==> r.is_none(),
    {
        if index < self.detector_mass.len() {
            Some(self.detector_mass[index])
        } else {
            None
        }
    }

    /// Sets one byte to `value`, as a physical fault would; out-of-range indices
    /// leave the buffer unchanged.
    pub fn inject_fault(&mut self, index: usize, value: u8)
        requires
            old(self).wf(),
        ensures
            final(self).wf(),
            final(self).default_value() == old(self).default_value(),
            final(self).spec_capacity() == old(self).spec_capacity(),
            index < old(self).spec_capacity() ==> final(self).contents() == old(self).contents().update(
                index as int,
                value,
            ),
            index >= old(self).spec_capacity() ==> final(self).contents() == old(self).contents(),
    {
        if index < self.detector_mass.len() {
            self.detector_mass.set(index, value);
        }
    }
}

/// A freshly built or freshly reset buffer is intact.
pub proof fn lemma_reset_is_intact(det: Detector)
    ensures
        all_equal(det.spec_reset(), det.default_value()),
{
}

/// Resetting twice in a row leaves the same bytes as resetting once, and the
/// buffer is intact after each of the two resets.
pub proof fn lemma_reset_idempotent(first: Detector, second: Detector)
    requires
        first.contents() == first.spec_reset(),
        second.default_value() == first.default_value(),
        second.spec_capacity() == first.spec_capacity(),
    ensures
        second.spec_reset() == first.spec_reset(),
        all_equal(first.spec_reset(), first.default_value()),
        all_equal(second.spec_reset(), second.default_value()),
{
}

/// After writing a value other than the default into a nonempty buffer, the
/// buffer is not intact, and every answer a scan for a changed byte may give is
/// a valid index.
pub proof fn lemma_write_other_value_detected(det: Detector, value: u8)
    requires
        det.spec_capacity() > 0,
        value != det.default_value(),
        det.contents() == Seq::new(det.spec_capacity(), |i: int| value),
    ensures
        !det.spec_intact(),
        forall|r: Option<usize>|
            change_found(r, det.contents(), det.default_value()) ==> (r matches Some(
                i,
            ) && i < det.spec_capacity()),
{
    assert(det.contents()[0] == value);
}

} // verus!
