//! Permission sets carried by capabilities.
//!
//! A permission set is a subset of `{SEND, MONITOR, KILL, LINK}`, stored as a
//! bit mask. Contracts speak of the set; the mask is an implementation detail.

use vstd::prelude::*;

verus! {

/// One operation that a capability may authorize on its route.
#[derive(Clone, Copy, Debug, PartialEq, Eq, Structural)]
pub enum Permission {
    /// Authorizes sending messages to the route.
    Send,
    /// Authorizes installing a down-watch on the route.
    Monitor,
    /// Authorizes terminating the process that owns the route.
    Kill,
    /// Authorizes bidirectional failure propagation with the route's process.
    Link,
}

/// The mask bit that stands for a permission.
pub open spec fn flag_bit(flag: Permission) -> u32 {
    match flag {
        Permission::Send => 1u32,
        Permission::Monitor => 2u32,
        Permission::Kill => 4u32,
        Permission::Link => 8u32,
    }
}

/// The set of permissions that a mask stands for.
pub open spec fn mask_set(bits: u32) -> Set<Permission> {
    Set::new(|flag: Permission| bits & flag_bit(flag) != 0)
}

/// The largest mask: every permission set.
pub const ALL_BITS: u32 = 0xF;

/// A set of permissions.
#[derive(Clone, Copy, Debug, PartialEq, Eq, Structural)]
pub struct Permissions {
    bits: u32,
}

/// Membership in the set of a mask, flag by flag.
pub proof fn lemma_mask_contains(a: u32)
    ensures
        mask_set(a).contains(Permission::Send) == (a & 1u32 != 0),
        mask_set(a).contains(Permission::Monitor) == (a & 2u32 != 0),
        mask_set(a).contains(Permission::Kill) == (a & 4u32 != 0),
        mask_set(a).contains(Permission::Link) == (a & 8u32 != 0),
{
    assert(mask_set(a).contains(Permission::Send) == (a & flag_bit(Permission::Send) != 0));
    assert(mask_set(a).contains(Permission::Monitor) == (a & flag_bit(Permission::Monitor) != 0));
    assert(mask_set(a).contains(Permission::Kill) == (a & flag_bit(Permission::Kill) != 0));
    assert(mask_set(a).contains(Permission::Link) == (a & flag_bit(Permission::Link) != 0));
}

/// Two masks within range that stand for the same set are the same mask.
pub proof fn lemma_mask_set_injective(a: u32, b: u32)
    requires
        a <= ALL_BITS,
        b <= ALL_BITS,
        mask_set(a) == mask_set(b),
    ensures
        a == b,
{
    lemma_mask_contains(a);
    lemma_mask_contains(b);
    assert(a <= 0xFu32 && b <= 0xFu32 && ((a & 1u32 != 0) == (b & 1u32 != 0)) && ((a & 2u32 != 0)
        == (b & 2u32 != 0)) && ((a & 4u32 != 0) == (b & 4u32 != 0)) && ((a & 8u32 != 0) == (b
        & 8u32 != 0)) ==> a == b) by (bit_vector);
}

/// A mask is contained bitwise in another exactly when its set is a subset.
pub proof fn lemma_mask_subset(a: u32, b: u32)
    requires
        a <= ALL_BITS,
        b <= ALL_BITS,
    ensures
        (a & b == b) <==> mask_set(b).subset_of(mask_set(a)),
{
    if a & b == b {
        assert forall|flag: Permission| mask_set(b).contains(flag) implies mask_set(a).contains(
            flag,
        ) by {
            let f = flag_bit(flag);
            assert(a & b == b && b & f != 0 ==> a & f != 0) by (bit_vector);
        }
    }
    if mask_set(b).subset_of(mask_set(a)) {
        lemma_mask_contains(a);
        lemma_mask_contains(b);
        assert(b <= 0xFu32 && (b & 1u32 != 0 ==> a & 1u32 != 0) && (b & 2u32 != 0 ==> a & 2u32
            != 0) && (b & 4u32 != 0 ==> a & 4u32 != 0) && (b & 8u32 != 0 ==> a & 8u32 != 0) ==> a
            & b == b) by (bit_vector);
    }
}

/// Bitwise "and" of two masks stands for the intersection of their sets.
pub proof fn lemma_mask_intersect(a: u32, b: u32)
    ensures
        mask_set(a & b) == mask_set(a).intersect(mask_set(b)),
        a <= ALL_BITS ==> (a & b) <= ALL_BITS,
{
    assert forall|flag: Permission|
        mask_set(a & b).contains(flag) == (mask_set(a).contains(flag) && mask_set(b).contains(
            flag,
        )) by {
        let f = flag_bit(flag);
        assert(f == 1 || f == 2 || f == 4 || f == 8);
        assert((f == 1 || f == 2 || f == 4 || f == 8) ==> (((a & b) & f != 0) == (a & f != 0 && b
            & f != 0))) by (bit_vector);
    }
    assert(mask_set(a & b) =~= mask_set(a).intersect(mask_set(b)));
    assert(a <= 0xFu32 ==> (a & b) <= 0xFu32) by (bit_vector);
}

/// Bitwise "or" of two masks stands for the union of their sets.
pub proof fn lemma_mask_union(a: u32, b: u32)
    ensures
        mask_set(a | b) == mask_set(a).union(mask_set(b)),
        a <= ALL_BITS && b <= ALL_BITS ==> (a | b) <= ALL_BITS,
{
    assert forall|flag: Permission|
        mask_set(a | b).contains(flag) == (mask_set(a).contains(flag) || mask_set(b).contains(
            flag,
        )) by {
        let f = flag_bit(flag);
        assert(((a | b) & f != 0) == (a & f != 0 || b & f != 0)) by (bit_vector);
    }
    assert(mask_set(a | b) =~= mask_set(a).union(mask_set(b)));
    assert(a <= 0xFu32 && b <= 0xFu32 ==> (a | b) <= 0xFu32) by (bit_vector);
}

impl View for Permissions {
    type V = Set<Permission>;

    /// The set of permissions granted.
    closed spec fn view(&self) -> Set<Permission> {
        mask_set(self.bits)
    }
}

impl Permissions {
    /// The mask of this set.
    pub closed spec fn spec_bits(self) -> u32 {
        self.bits
    }

    /// Holds of every value that the constructors of this type give: the mask
    /// has no bit outside the four permissions.
    #[verifier::type_invariant]
    pub closed spec fn valid(self) -> bool {
        self.bits <= ALL_BITS
    }

    /// The view is the set that the mask stands for.
    pub proof fn lemma_view(self)
        ensures
            self@ == mask_set(self.spec_bits()),
            self.valid() <==> self.spec_bits() <= ALL_BITS,
    {
    }

    /// Valid permission sets with the same view are equal.
    pub proof fn lemma_view_injective(self, other: Permissions)
        requires
            self.valid(),
            other.valid(),
            self@ == other@,
        ensures
            self == other,
    {
        lemma_mask_set_injective(self.bits, other.bits);
    }

    /// The empty set, as a plain value.
    pub closed spec fn spec_empty() -> Permissions {
        Permissions { bits: 0 }
    }

    /// The set that holds only `flag`, as a plain value.
    pub closed spec fn spec_only(flag: Permission) -> Permissions {
        Permissions { bits: flag_bit(flag) }
    }

    /// The set of all four permissions, as a plain value.
    pub closed spec fn spec_all() -> Permissions {
        Permissions { bits: ALL_BITS }
    }

    /// The set of all four permissions holds every permission.
    pub proof fn lemma_spec_all()
        ensures
            Permissions::spec_all()@ == Set::<Permission>::full(),
            Permissions::spec_all().valid(),
    {
        assert forall|flag: Permission| mask_set(0xFu32).contains(flag) by {
            let f = flag_bit(flag);
            assert((f == 1 || f == 2 || f == 4 || f == 8) ==> 0xFu32 & f != 0) by (bit_vector);
        }
        assert(mask_set(0xFu32) =~= Set::<Permission>::full());
    }

    /// The empty set.
    pub fn empty() -> (p: Permissions)
        ensures
            p == Permissions::spec_empty(),
            p@ == Set::<Permission>::empty(),
            p.valid(),
            p.spec_bits() == 0,
    {
        assert forall|flag: Permission| !mask_set(0u32).contains(flag) by {
            let f = flag_bit(flag);
            assert(0u32 & f == 0) by (bit_vector);
        }
        assert(mask_set(0u32) =~= Set::<Permission>::empty());
        Permissions { bits: 0 }
    }

    /// The set that holds only `flag`.
    pub fn only(flag: Permission) -> (p: Permissions)
        ensures
            p == Permissions::spec_only(flag),
            p@ == set![flag],
            p.valid(),
            p.spec_bits() == flag_bit(flag),
    {
        let bits: u32 = match flag {
            Permission::Send => 1,
            Permission::Monitor => 2,
            Permission::Kill => 4,
            Permission::Link => 8,
        };
        proof {
            assert forall|other: Permission| mask_set(bits).contains(other) == (other == flag) by {
                let f = flag_bit(other);
                assert((bits == 1 || bits == 2 || bits == 4 || bits == 8) && (f == 1 || f == 2
                    || f == 4 || f == 8) ==> ((bits & f != 0) == (bits == f))) by (bit_vector);
            }
            assert(mask_set(bits) =~= set![flag]);
        }
        Permissions { bits }
    }

    /// The set `{SEND}`.
    pub fn send() -> (p: Permissions)
        ensures
            p == Permissions::spec_only(Permission::Send),
            p@ == set![Permission::Send],
            p.valid(),
    {
        Permissions::only(Permission::Send)
    }

    /// The set `{MONITOR}`.
    pub fn monitor() -> (p: Permissions)
        ensures
            p == Permissions::spec_only(Permission::Monitor),
            p@ == set![Permission::Monitor],
            p.valid(),
    {
        Permissions::only(Permission::Monitor)
    }

    /// The set `{KILL}`.
    pub fn kill() -> (p: Permissions)
        ensures
            p == Permissions::spec_only(Permission::Kill),
            p@ == set![Permission::Kill],
            p.valid(),
    {
        Permissions::only(Permission::Kill)
    }

    /// The set `{LINK}`.
    pub fn link() -> (p: Permissions)
        ensures
            p == Permissions::spec_only(Permission::Link),
            p@ == set![Permission::Link],
            p.valid(),
    {
        Permissions::only(Permission::Link)
    }

    /// The set of all four permissions.
    pub fn all() -> (p: Permissions)
        ensures
            p == Permissions::spec_all(),
            p@ == Set::<Permission>::full(),
            p.valid(),
            p.spec_bits() == ALL_BITS,
    {
        assert forall|flag: Permission| mask_set(0xFu32).contains(flag) by {
            let f = flag_bit(flag);
            assert((f == 1 || f == 2 || f == 4 || f == 8) ==> 0xFu32 & f != 0) by (bit_vector);
        }
        assert(mask_set(0xFu32) =~= Set::<Permission>::full());
        Permissions { bits: 0xF }
    }

    /// The set that a mask stands for, or `None` where the mask has a bit that
    /// stands for no permission.
    pub fn from_bits(bits: u32) -> (r: Option<Permissions>)
        ensures
            r.is_some() <==> bits <= ALL_BITS,
            r matches Some(p) ==> p.spec_bits() == bits && p@ == mask_set(bits) && p.valid(),
    {
        if bits <= ALL_BITS {
            Some(Permissions { bits })
        } else {
            None
        }
    }

    /// The set that the four low bits of a mask stand for.
    pub fn from_bits_truncate(bits: u32) -> (p: Permissions)
        ensures
            p.spec_bits() == bits & ALL_BITS,
            p@ == mask_set(bits),
            p.valid(),
    {
        proof {
            assert((bits & 0xFu32) <= 0xFu32) by (bit_vector);
            assert forall|flag: Permission|
                mask_set(bits & 0xFu32).contains(flag) == mask_set(bits).contains(flag) by {
                let f = flag_bit(flag);
                assert((f == 1 || f == 2 || f == 4 || f == 8) ==> (((bits & 0xFu32) & f != 0) == (
                bits & f != 0))) by (bit_vector);
            }
            assert(mask_set(bits & 0xFu32) =~= mask_set(bits));
        }
        Permissions { bits: bits & ALL_BITS }
    }

    /// The mask of this set.
    pub fn bits(&self) -> (b: u32)
        ensures
            b == self.spec_bits(),
            b <= ALL_BITS,
            mask_set(b) == self@,
    {
        proof {
            use_type_invariant(self);
        }
        self.bits
    }

    /// Whether no permission is granted.
    pub fn is_empty(&self) -> (r: bool)
        ensures
            r <==> self@ == Set::<Permission>::empty(),
    {
        proof {
            use_type_invariant(self);
            assert forall|flag: Permission| !mask_set(0u32).contains(flag) by {
                let f = flag_bit(flag);
                assert(0u32 & f == 0) by (bit_vector);
            }
            assert(mask_set(0u32) =~= Set::<Permission>::empty());
            if self@ == Set::<Permission>::empty() {
                lemma_mask_set_injective(self.bits, 0);
            }
        }
        self.bits == 0
    }

    /// Whether `flag` is granted.
    pub fn has(&self, flag: Permission) -> (r: bool)
        ensures
            r <==> self@.contains(flag),
    {
        let bit: u32 = match flag {
            Permission::Send => 1,
            Permission::Monitor => 2,
            Permission::Kill => 4,
            Permission::Link => 8,
        };
        self.bits & bit != 0
    }

    /// Whether every permission of `other` is granted by this set too.
    pub fn contains(&self, other: Permissions) -> (r: bool)
        ensures
            r <==> other@.subset_of(self@),
    {
        proof {
            use_type_invariant(self);
            use_type_invariant(other);
            lemma_mask_subset(self.bits, other.bits);
        }
        self.bits & other.bits == other.bits
    }

    /// The permissions granted by both sets, as a plain value.
    pub closed spec fn spec_intersection(self, other: Permissions) -> Permissions {
        Permissions { bits: self.bits & other.bits }
    }

    /// The plain intersection is the intersection of the sets, and is valid
    /// where one operand is.
    pub proof fn lemma_spec_intersection(self, other: Permissions)
        ensures
            self.spec_intersection(other)@ == self@.intersect(other@),
            self.valid() ==> self.spec_intersection(other).valid(),
            self.spec_intersection(other)@.subset_of(self@),
            self.spec_intersection(other)@.subset_of(other@),
    {
        lemma_mask_intersect(self.bits, other.bits);
    }

    /// The permissions granted by both sets.
    pub fn intersection(&self, other: Permissions) -> (p: Permissions)
        ensures
            p == self.spec_intersection(other),
            p@ == self@.intersect(other@),
            p.valid(),
    {
        proof {
            use_type_invariant(self);
            lemma_mask_intersect(self.bits, other.bits);
        }
        Permissions { bits: self.bits & other.bits }
    }

    /// The permissions granted by either set.
    pub fn union(&self, other: Permissions) -> (p: Permissions)
        ensures
            p@ == self@.union(other@),
            p.valid(),
    {
        proof {
            use_type_invariant(self);
            use_type_invariant(other);
            lemma_mask_union(self.bits, other.bits);
        }
        Permissions { bits: self.bits | other.bits }
    }
}

/// Intersecting with a set never adds a permission: the result is a subset of
/// both operands.
pub proof fn lemma_intersection_shrinks(a: Permissions, b: Permissions)
    ensures
        a@.intersect(b@).subset_of(a@),
        a@.intersect(b@).subset_of(b@),
{
}

} // verus!
