use vstd::prelude::*;

verus! {

/// What a command changed, as a set of bits, so that the editor knows what to
/// bring up to date after it.
#[derive(Clone, Copy)]
pub struct UpdateFlags(pub u32);

impl core::ops::BitOr for UpdateFlags {
    type Output = UpdateFlags;

    fn bitor(self, rhs: Self) -> (r: UpdateFlags)
        ensures
            r.0 == self.0 | rhs.0,
    {
        UpdateFlags(self.0 | rhs.0)
    }
}

impl vstd::std_specs::ops::BitOrSpecImpl for UpdateFlags {
    open spec fn obeys_bitor_spec() -> bool {
        true
    }

    open spec fn bitor_req(self, rhs: UpdateFlags) -> bool {
        true
    }

    open spec fn bitor_spec(self, rhs: UpdateFlags) -> UpdateFlags {
        UpdateFlags(self.0 | rhs.0)
    }
}

impl UpdateFlags {
    /// The project has unsaved changes.
    pub fn make_dirty() -> (f: UpdateFlags)
        ensures
            f.0 == 1,
    {
        UpdateFlags(1)
    }

    /// The video preview must be rebuilt.
    pub fn invalidate_video() -> (f: UpdateFlags)
        ensures
            f.0 == 2,
    {
        UpdateFlags(2)
    }

    /// The audio streams must be rebuilt.
    pub fn audio_changed() -> (f: UpdateFlags)
        ensures
            f.0 == 4,
    {
        UpdateFlags(4)
    }

    /// The lyrics editor must be rebuilt.
    pub fn lyrics_changed() -> (f: UpdateFlags)
        ensures
            f.0 == 8,
    {
        UpdateFlags(8)
    }

    pub open spec fn has_flag_spec(self, flag: UpdateFlags) -> bool {
        self.0 & flag.0 == flag.0
    }

    /// Whether every bit of `flag` is set here.
    pub fn has_flag(&self, flag: UpdateFlags) -> (b: bool)
        ensures
            b == self.has_flag_spec(flag),
    {
        (self.0 & flag.0) == flag.0
    }
}

/// The union of two sets of flags holds each of them, and no bit that
/// neither holds.
pub proof fn lemma_union_has_both(a: UpdateFlags, b: UpdateFlags)
    ensures
        UpdateFlags(a.0 | b.0).has_flag_spec(a),
        UpdateFlags(a.0 | b.0).has_flag_spec(b),
        forall|f: UpdateFlags| #![auto] a.has_flag_spec(f) ==> UpdateFlags(a.0 | b.0).has_flag_spec(f),
{
    let x = a.0;
    let y = b.0;
    assert((x | y) & x == x) by (bit_vector);
    assert((x | y) & y == y) by (bit_vector);
    assert forall|f: UpdateFlags| #![auto] a.has_flag_spec(f) implies UpdateFlags(a.0 | b.0).has_flag_spec(f) by {
        let z = f.0;
        assert(x & z == z ==> (x | y) & z == z) by (bit_vector);
    }
}

/// Every set of flags holds itself.
pub proof fn lemma_has_self(a: UpdateFlags)
    ensures
        a.has_flag_spec(a),
{
    let x = a.0;
    assert(x & x == x) by (bit_vector);
}

/// The four named flags are distinct bits: none of them holds another.
pub proof fn lemma_named_flags_distinct()
    ensures
        !UpdateFlags(1).has_flag_spec(UpdateFlags(4)),
        !UpdateFlags(1).has_flag_spec(UpdateFlags(2)),
        !UpdateFlags(1).has_flag_spec(UpdateFlags(8)),
        !UpdateFlags(4).has_flag_spec(UpdateFlags(1)),
        !UpdateFlags(2).has_flag_spec(UpdateFlags(1)),
        !UpdateFlags(8).has_flag_spec(UpdateFlags(1)),
        !UpdateFlags(4).has_flag_spec(UpdateFlags(8)),
        !UpdateFlags(8).has_flag_spec(UpdateFlags(4)),
{
    assert(1u32 & 4u32 == 0) by (bit_vector);
    assert(1u32 & 2u32 == 0) by (bit_vector);
    assert(1u32 & 8u32 == 0) by (bit_vector);
    assert(4u32 & 1u32 == 0) by (bit_vector);
    assert(2u32 & 1u32 == 0) by (bit_vector);
    assert(8u32 & 1u32 == 0) by (bit_vector);
    assert(4u32 & 8u32 == 0) by (bit_vector);
    assert(8u32 & 4u32 == 0) by (bit_vector);
}

} // verus!
