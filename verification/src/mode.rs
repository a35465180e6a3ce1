use vstd::prelude::*;

verus! {

/// A display mode's resolution and timings, field for field as the kernel
/// reports them in `drm_mode_modeinfo`.
#[derive(Clone, Copy, Debug)]
pub struct DisplayMode {
    pub clock: u32,
    pub hdisplay: u16,
    pub hsync_start: u16,
    pub hsync_end: u16,
    pub htotal: u16,
    pub hskew: u16,
    pub vdisplay: u16,
    pub vsync_start: u16,
    pub vsync_end: u16,
    pub vtotal: u16,
    pub vscan: u16,
    pub vrefresh: u32,
    pub flags: u32,
    pub mode_type: u32,
    pub name: [u8; 32],
}

/// Whether a mode's type bits carry the PREFERRED flag (`DRM_MODE_TYPE_PREFERRED`, bit 3).
pub open spec fn has_preferred_flag(type_bits: u32) -> bool {
    type_bits & 8u32 != 0u32
}

/// Asks drm's `ModeTypeFlags` whether the type bits of a mode contain `PREFERRED`.
/// Claimed: the answer is whether bit 3 is set, as drm's source shows
/// (`from_bits_truncate` keeps the known bits, `PREFERRED` is `DRM_MODE_TYPE_PREFERRED == 8`).
#[verifier::external_body]
fn type_bits_contain_preferred(type_bits: u32) -> (r: bool)
    ensures
        r == has_preferred_flag(type_bits),
{
    drm::control::ModeTypeFlags::from_bits_truncate(type_bits).contains(
        drm::control::ModeTypeFlags::PREFERRED,
    )
}

impl DisplayMode {
    /// Two modes are the same when every field, the whole name buffer included, is.
    pub open spec fn same_as(self, other: DisplayMode) -> bool {
        &&& self.clock == other.clock
        &&& self.hdisplay == other.hdisplay
        &&& self.hsync_start == other.hsync_start
        &&& self.hsync_end == other.hsync_end
        &&& self.htotal == other.htotal
        &&& self.hskew == other.hskew
        &&& self.vdisplay == other.vdisplay
        &&& self.vsync_start == other.vsync_start
        &&& self.vsync_end == other.vsync_end
        &&& self.vtotal == other.vtotal
        &&& self.vscan == other.vscan
        &&& self.vrefresh == other.vrefresh
        &&& self.flags == other.flags
        &&& self.mode_type == other.mode_type
        &&& self.name@ == other.name@
    }

    /// The resolution, `(width, height)`.
    pub fn size(&self) -> (r: (u16, u16))
        ensures
            r == (self.hdisplay, self.vdisplay),
    {
        (self.hdisplay, self.vdisplay)
    }

    /// The vertical refresh rate in Hz.
    pub fn refresh_rate(&self) -> (r: u32)
        ensures
            r == self.vrefresh,
    {
        self.vrefresh
    }

    /// Whether the driver marks this mode as the connector's preferred one.
    pub fn is_preferred(&self) -> (r: bool)
        ensures
            r == has_preferred_flag(self.mode_type),
    {
        type_bits_contain_preferred(self.mode_type)
    }

    /// Field-by-field equality of two modes.
    pub fn same_mode(&self, other: &DisplayMode) -> (r: bool)
        ensures
            r == self.same_as(*other),
    {
        let fields_equal = self.clock == other.clock && self.hdisplay == other.hdisplay
            && self.hsync_start == other.hsync_start && self.hsync_end == other.hsync_end
            && self.htotal == other.htotal && self.hskew == other.hskew
            && self.vdisplay == other.vdisplay && self.vsync_start == other.vsync_start
            && self.vsync_end == other.vsync_end && self.vtotal == other.vtotal
            && self.vscan == other.vscan && self.vrefresh == other.vrefresh
            && self.flags == other.flags && self.mode_type == other.mode_type;
        if !fields_equal {
            return false;
        }
        let mut i: usize = 0;
        while i < 32
            invariant
                0 <= i <= 32,
                forall|j: int| 0 <= j < i ==> self.name@[j] == other.name@[j],
            decreases 32 - i,
        {
            if self.name[i] != other.name[i] {
                return false;
            }
            i = i + 1;
        }
        assert(self.name@ =~= other.name@);
        true
    }
}

/// Two modes are the same exactly when they are equal values: every field,
/// the clock and each timing included, and every byte of the name buffer.
pub proof fn same_as_is_equality(a: DisplayMode, b: DisplayMode)
    ensures
        a.same_as(b) <==> a == b,
{
    broadcast use vstd::array::axiom_array_ext_equal;

    if a.same_as(b) {
        assert forall|i: int| 0 <= i < 32 implies a.name[i] == b.name[i] by {
            assert(a.name@[i] == b.name@[i]);
        }
        assert(a.name =~= b.name);
    }
}

/// Two optional modes are the same exactly when they are equal values.
pub proof fn same_optional_is_equality(a: Option<DisplayMode>, b: Option<DisplayMode>)
    ensures
        same_optional_mode(a, b) <==> a == b,
{
    if let (Some(x), Some(y)) = (a, b) {
        same_as_is_equality(x, y);
    }
}

/// Whether two optional modes are equal: both absent, or both present and the same.
pub open spec fn same_optional_mode(a: Option<DisplayMode>, b: Option<DisplayMode>) -> bool {
    match (a, b) {
        (None, None) => true,
        (Some(x), Some(y)) => x.same_as(y),
        _ => false,
    }
}

/// Equality of two optional modes.
pub fn same_optional(a: &Option<DisplayMode>, b: &Option<DisplayMode>) -> (r: bool)
    ensures
        r == same_optional_mode(*a, *b),
{
    match (a, b) {
        (None, None) => true,
        (Some(x), Some(y)) => x.same_mode(y),
        _ => false,
    }
}

/// The first mode at or after `i` whose PREFERRED flag is set.
pub open spec fn first_preferred_from(modes: Seq<DisplayMode>, i: int) -> Option<DisplayMode>
    decreases modes.len() - i,
{
    if i < 0 || i >= modes.len() {
        None
    } else if has_preferred_flag(modes[i].mode_type) {
        Some(modes[i])
    } else {
        first_preferred_from(modes, i + 1)
    }
}

/// The mode a connector prefers: the first one flagged PREFERRED, else its
/// first mode, else none.
pub open spec fn preferred_of(modes: Seq<DisplayMode>) -> Option<DisplayMode> {
    match first_preferred_from(modes, 0) {
        Some(m) => Some(m),
        None => if modes.len() > 0 {
            Some(modes[0])
        } else {
            None
        },
    }
}

proof fn lemma_first_preferred(modes: Seq<DisplayMode>, i: int)
    requires
        0 <= i <= modes.len(),
    ensures
        first_preferred_from(modes, i) matches Some(m) ==> exists|k: int|
            i <= k < modes.len() && modes[k] == m && has_preferred_flag(m.mode_type) && forall|
                j: int,
            | i <= j < k ==> !has_preferred_flag(#[trigger] modes[j].mode_type),
        first_preferred_from(modes, i) is None ==> forall|j: int|
            i <= j < modes.len() ==> !has_preferred_flag(#[trigger] modes[j].mode_type),
    decreases modes.len() - i,
{
    if i < modes.len() {
        lemma_first_preferred(modes, i + 1);
        if !has_preferred_flag(modes[i].mode_type) {
            if let Some(m) = first_preferred_from(modes, i + 1) {
                let k = choose|k: int|
                    i + 1 <= k < modes.len() && modes[k] == m && has_preferred_flag(m.mode_type)
                        && forall|j: int|
                        i + 1 <= j < k ==> !has_preferred_flag(#[trigger] modes[j].mode_type);
                assert(forall|j: int| i <= j < k ==> !has_preferred_flag(#[trigger] modes[j].mode_type));
            }
        }
    }
}

/// A connector with modes has a preferred mode, one of its own: the first
/// flagged PREFERRED where one is, else the first.
pub proof fn preferred_mode_is_first_flagged(modes: Seq<DisplayMode>)
    ensures
        preferred_of(modes) is Some <==> modes.len() > 0,
        preferred_of(modes) matches Some(m) ==> modes.contains(m),
        (exists|k: int| 0 <= k < modes.len() && has_preferred_flag(#[trigger] modes[k].mode_type))
            ==> (preferred_of(modes) matches Some(m) && exists|k: int|
            0 <= k < modes.len() && modes[k] == m && has_preferred_flag(m.mode_type) && forall|
                j: int,
            | 0 <= j < k ==> !has_preferred_flag(#[trigger] modes[j].mode_type)),
        (forall|k: int| 0 <= k < modes.len() ==> !has_preferred_flag(#[trigger] modes[k].mode_type))
            && modes.len() > 0 ==> preferred_of(modes) == Some(modes[0]),
{
    lemma_first_preferred(modes, 0);
    if let Some(m) = preferred_of(modes) {
        if first_preferred_from(modes, 0) is None {
            assert(modes[0] == m);
            assert(modes.contains(modes[0]));
        } else {
            let k = choose|k: int|
                0 <= k < modes.len() && modes[k] == m && has_preferred_flag(m.mode_type) && forall|
                    j: int,
                | 0 <= j < k ==> !has_preferred_flag(#[trigger] modes[j].mode_type);
            assert(modes.contains(modes[k]));
        }
    }
}

/// The mode a connector prefers among `modes`.
pub fn preferred_mode(modes: &Vec<DisplayMode>) -> (r: Option<DisplayMode>)
    ensures
        r == preferred_of(modes@),
{
    let mut i: usize = modes.len();
    let mut found: Option<DisplayMode> = None;
    // Scanning from the back leaves the earliest flagged mode in `found`.
    while i > 0
        invariant
            i <= modes.len(),
            found == first_preferred_from(modes@, i as int),
        decreases i,
    {
        i = i - 1;
        if modes[i].is_preferred() {
            found = Some(modes[i]);
        }
    }
    match found {
        Some(m) => Some(m),
        None => if modes.len() > 0 {
            Some(modes[0])
        } else {
            None
        },
    }
}

} // verus!
