//! Component identifiers and layouts of the entity store.
//!
//! A component identifier is 64 bits wide. Its highest bit says where it came
//! from: set for an identifier derived from a Rust type, clear for a custom
//! identifier chosen at run time. A layout is a list of component identifiers
//! kept in ascending order, so that two layouts with the same components
//! compare equal whatever order they were given in.

use std::any::TypeId;
use std::collections::hash_map::DefaultHasher;
use std::hash::{Hash, Hasher};
use vstd::prelude::*;

verus! {

/// The bit that marks an identifier as derived from a Rust type.
pub const IS_TYPE_MASK: u64 = 0x8000_0000_0000_0000;

/// An identifier for a component.
#[derive(Copy, Clone, Debug, Hash, PartialEq, Eq, Structural)]
pub struct ComponentId(u64);

/// `std::any::TypeId`, carried through as an opaque value.
#[verifier::external_type_specification]
#[verifier::external_body]
pub struct ExTypeId(TypeId);

/// `TypeId::of`: the identifier that the compiler gave to `T`. Nothing is
/// claimed of its value.
#[verifier::external_body]
pub(crate) fn type_id_of<T: 'static>() -> (id: TypeId) {
    TypeId::of::<T>()
}

/// `<TypeId as Hash>::hash`: feeds a type identifier to a hasher. Nothing is
/// claimed of the hasher's state afterwards.
#[verifier::external_body]
fn hash_type_id(id: &TypeId, hasher: &mut DefaultHasher) {
    id.hash(hasher)
}

/// `Hasher::write_u64` on the default hasher: feeds an integer to it.
/// Nothing is claimed of the hasher's state afterwards.
#[verifier::external_body]
fn hash_u64(value: u64, hasher: &mut DefaultHasher) {
    hasher.write_u64(value)
}

impl ComponentId {
    /// The 64 bits of this identifier.
    pub closed spec fn bits(self) -> u64 {
        self.0
    }

    /// Whether this identifier was derived from a Rust type.
    pub open spec fn spec_is_type(&self) -> bool {
        self.bits() & IS_TYPE_MASK != 0
    }

    /// Whether this identifier was derived from a Rust type.
    #[verifier::when_used_as_spec(spec_is_type)]
    pub fn is_type(&self) -> (r: bool)
        ensures
            r == self.spec_is_type(),
    {
        (self.0 & IS_TYPE_MASK) != 0
    }

    /// The 64 bits of this identifier.
    pub fn to_bits(&self) -> (bits: u64)
        ensures
            bits == self.bits(),
    {
        self.0
    }

    /// The type identifier with the low 63 bits of `hash`.
    pub fn type_from_hash(hash: u64) -> (id: ComponentId)
        ensures
            id.bits() == hash | IS_TYPE_MASK,
            id.spec_is_type(),
    {
        assert((hash | 0x8000_0000_0000_0000u64) & 0x8000_0000_0000_0000u64 != 0) by (bit_vector);
        ComponentId(hash | IS_TYPE_MASK)
    }

    /// The custom identifier with the low 63 bits of `hash`.
    pub fn custom_from_hash(hash: u64) -> (id: ComponentId)
        ensures
            id.bits() == hash & !IS_TYPE_MASK,
            !id.spec_is_type(),
    {
        assert((hash & !0x8000_0000_0000_0000u64) & 0x8000_0000_0000_0000u64 == 0) by (bit_vector);
        ComponentId(hash & !IS_TYPE_MASK)
    }

    /// The identifier of the Rust type `T`: a hash of the compiler's
    /// identifier for `T`, with the type bit set.
    pub fn from_type<T: 'static>() -> (id: ComponentId)
        ensures
            id.spec_is_type(),
    {
        let type_id = type_id_of::<T>();
        let mut hasher = DefaultHasher::new();
        hash_type_id(&type_id, &mut hasher);
        let hash = hasher.finish();
        ComponentId::type_from_hash(hash)
    }

    /// The identifier of the type of `_val`.
    pub fn from_val_type<T: 'static>(_val: &T) -> (id: ComponentId)
        ensures
            id.spec_is_type(),
    {
        ComponentId::from_type::<T>()
    }

    /// A custom identifier: a hash of `id`, with the type bit clear.
    pub fn from_custom(id: u64) -> (cid: ComponentId)
        ensures
            !cid.spec_is_type(),
    {
        let mut hasher = DefaultHasher::new();
        hash_u64(id, &mut hasher);
        let hash = hasher.finish();
        ComponentId::custom_from_hash(hash)
    }
}

/// An identifier is its 64 bits: two identifiers with the same bits are the
/// same identifier.
pub proof fn lemma_bits_decide(a: ComponentId, b: ComponentId)
    ensures
        a.bits() == b.bits() <==> a == b,
{
}

/// An identifier derived from a type never equals a custom identifier.
pub proof fn lemma_type_and_custom_differ(a: ComponentId, b: ComponentId)
    requires
        a.spec_is_type(),
        !b.spec_is_type(),
    ensures
        a != b,
{
}

/// Information about a component: the size and alignment of its storage, and
/// an optional label for diagnostics.
#[derive(Clone, Debug)]
pub struct ComponentInfo {
    pub name: Option<String>,
    pub size: usize,
    pub alignment: usize,
}

impl ComponentInfo {
    /// The size and alignment of the Rust type `T`, under the label `name`:
    /// the text by which the caller knows the type.
    pub fn from_type<T: 'static>(name: String) -> (info: ComponentInfo)
        ensures
            info.name == Some(name),
            info.size as nat == vstd::layout::size_of::<T>(),
            info.alignment as nat == vstd::layout::align_of::<T>(),
    {
        ComponentInfo {
            name: Some(name),
            size: std::mem::size_of::<T>(),
            alignment: std::mem::align_of::<T>(),
        }
    }

    /// The same information under the label `name`.
    pub fn with_name(self, name: String) -> (info: ComponentInfo)
        ensures
            info.name == Some(name),
            info.size == self.size,
            info.alignment == self.alignment,
    {
        ComponentInfo { name: Some(name), size: self.size, alignment: self.alignment }
    }
}

/// The bytes of one component, with its identifier.
#[derive(Clone)]
pub struct ComponentData<'a> {
    pub id: ComponentId,
    pub data: &'a [u8],
}

/// What can be stored as a component.
pub trait AsComponentData {
    /// The identifier and the bytes of the value.
    fn as_component_data(&self) -> ComponentData<'_>;
}

impl<'a> AsComponentData for ComponentData<'a> {
    fn as_component_data(&self) -> (data: ComponentData<'a>)
        ensures
            data.id == self.id,
            data.data@ == self.data@,
    {
        ComponentData { id: self.id, data: self.data }
    }
}

/// What can be stored as the components of one entity.
pub trait AsMultiComponentData {
    /// The number of components.
    fn len(&self) -> usize;

    /// Appends the components to `datas`, in order.
    fn get_data<'a>(&'a self, datas: &mut Vec<ComponentData<'a>>);
}

impl AsMultiComponentData for () {
    fn len(&self) -> (n: usize)
        ensures
            n == 0,
    {
        0
    }

    fn get_data<'a>(&'a self, datas: &mut Vec<ComponentData<'a>>)
        ensures
            final(datas)@ == old(datas)@,
    {
    }
}

impl<A: AsComponentData> AsMultiComponentData for (A,) {
    fn len(&self) -> (n: usize)
        ensures
            n == 1,
    {
        1
    }

    fn get_data<'a>(&'a self, datas: &mut Vec<ComponentData<'a>>)
        ensures
            final(datas)@.len() == old(datas)@.len() + 1,
            final(datas)@.take(old(datas)@.len() as int) == old(datas)@,
            call_ensures(
                A::as_component_data,
                (&self.0,),
                final(datas)@[old(datas)@.len() as int + 0],
            ),
    {
        datas.push(self.0.as_component_data());
        assert(datas@.take(old(datas)@.len() as int) =~= old(datas)@);
    }
}

impl<A: AsComponentData, B: AsComponentData> AsMultiComponentData for (A, B) {
    fn len(&self) -> (n: usize)
        ensures
            n == 2,
    {
        2
    }

    fn get_data<'a>(&'a self, datas: &mut Vec<ComponentData<'a>>)
        ensures
            final(datas)@.len() == old(datas)@.len() + 2,
            final(datas)@.take(old(datas)@.len() as int) == old(datas)@,
            call_ensures(
                A::as_component_data,
                (&self.0,),
                final(datas)@[old(datas)@.len() as int + 0],
            ),
            call_ensures(
                B::as_component_data,
                (&self.1,),
                final(datas)@[old(datas)@.len() as int + 1],
            ),
    {
        datas.push(self.0.as_component_data());
        datas.push(self.1.as_component_data());
        assert(datas@.take(old(datas)@.len() as int) =~= old(datas)@);
    }
}

impl<A: AsComponentData, B: AsComponentData, C: AsComponentData> AsMultiComponentData for (A, B, C) {
    fn len(&self) -> (n: usize)
        ensures
            n == 3,
    {
        3
    }

    fn get_data<'a>(&'a self, datas: &mut Vec<ComponentData<'a>>)
        ensures
            final(datas)@.len() == old(datas)@.len() + 3,
            final(datas)@.take(old(datas)@.len() as int) == old(datas)@,
            call_ensures(
                A::as_component_data,
                (&self.0,),
                final(datas)@[old(datas)@.len() as int + 0],
            ),
            call_ensures(
                B::as_component_data,
                (&self.1,),
                final(datas)@[old(datas)@.len() as int + 1],
            ),
            call_ensures(
                C::as_component_data,
                (&self.2,),
                final(datas)@[old(datas)@.len() as int + 2],
            ),
    {
        datas.push(self.0.as_component_data());
        datas.push(self.1.as_component_data());
        datas.push(self.2.as_component_data());
        assert(datas@.take(old(datas)@.len() as int) =~= old(datas)@);
    }
}

impl<
    A: AsComponentData,
    B: AsComponentData,
    C: AsComponentData,
    D: AsComponentData,
> AsMultiComponentData for (A, B, C, D) {
    fn len(&self) -> (n: usize)
        ensures
            n == 4,
    {
        4
    }

    fn get_data<'a>(&'a self, datas: &mut Vec<ComponentData<'a>>)
        ensures
            final(datas)@.len() == old(datas)@.len() + 4,
            final(datas)@.take(old(datas)@.len() as int) == old(datas)@,
            call_ensures(
                A::as_component_data,
                (&self.0,),
                final(datas)@[old(datas)@.len() as int + 0],
            ),
            call_ensures(
                B::as_component_data,
                (&self.1,),
                final(datas)@[old(datas)@.len() as int + 1],
            ),
            call_ensures(
                C::as_component_data,
                (&self.2,),
                final(datas)@[old(datas)@.len() as int + 2],
            ),
            call_ensures(
                D::as_component_data,
                (&self.3,),
                final(datas)@[old(datas)@.len() as int + 3],
            ),
    {
        datas.push(self.0.as_component_data());
        datas.push(self.1.as_component_data());
        datas.push(self.2.as_component_data());
        datas.push(self.3.as_component_data());
        assert(datas@.take(old(datas)@.len() as int) =~= old(datas)@);
    }
}

impl<
    A: AsComponentData,
    B: AsComponentData,
    C: AsComponentData,
    D: AsComponentData,
    E: AsComponentData,
> AsMultiComponentData for (A, B, C, D, E) {
    fn len(&self) -> (n: usize)
        ensures
            n == 5,
    {
        5
    }

    fn get_data<'a>(&'a self, datas: &mut Vec<ComponentData<'a>>)
        ensures
            final(datas)@.len() == old(datas)@.len() + 5,
            final(datas)@.take(old(datas)@.len() as int) == old(datas)@,
            call_ensures(
                A::as_component_data,
                (&self.0,),
                final(datas)@[old(datas)@.len() as int + 0],
            ),
            call_ensures(
                B::as_component_data,
                (&self.1,),
                final(datas)@[old(datas)@.len() as int + 1],
            ),
            call_ensures(
                C::as_component_data,
                (&self.2,),
                final(datas)@[old(datas)@.len() as int + 2],
            ),
            call_ensures(
                D::as_component_data,
                (&self.3,),
                final(datas)@[old(datas)@.len() as int + 3],
            ),
            call_ensures(
                E::as_component_data,
                (&self.4,),
                final(datas)@[old(datas)@.len() as int + 4],
            ),
    {
        datas.push(self.0.as_component_data());
        datas.push(self.1.as_component_data());
        datas.push(self.2.as_component_data());
        datas.push(self.3.as_component_data());
        datas.push(self.4.as_component_data());
        assert(datas@.take(old(datas)@.len() as int) =~= old(datas)@);
    }
}

impl<
    A: AsComponentData,
    B: AsComponentData,
    C: AsComponentData,
    D: AsComponentData,
    E: AsComponentData,
    F: AsComponentData,
> AsMultiComponentData for (A, B, C, D, E, F) {
    fn len(&self) -> (n: usize)
        ensures
            n == 6,
    {
        6
    }

    fn get_data<'a>(&'a self, datas: &mut Vec<ComponentData<'a>>)
        ensures
            final(datas)@.len() == old(datas)@.len() + 6,
            final(datas)@.take(old(datas)@.len() as int) == old(datas)@,
            call_ensures(
                A::as_component_data,
                (&self.0,),
                final(datas)@[old(datas)@.len() as int + 0],
            ),
            call_ensures(
                B::as_component_data,
                (&self.1,),
                final(datas)@[old(datas)@.len() as int + 1],
            ),
            call_ensures(
                C::as_component_data,
                (&self.2,),
                final(datas)@[old(datas)@.len() as int + 2],
            ),
            call_ensures(
                D::as_component_data,
                (&self.3,),
                final(datas)@[old(datas)@.len() as int + 3],
            ),
            call_ensures(
                E::as_component_data,
                (&self.4,),
                final(datas)@[old(datas)@.len() as int + 4],
            ),
            call_ensures(
                F::as_component_data,
                (&self.5,),
                final(datas)@[old(datas)@.len() as int + 5],
            ),
    {
        datas.push(self.0.as_component_data());
        datas.push(self.1.as_component_data());
        datas.push(self.2.as_component_data());
        datas.push(self.3.as_component_data());
        datas.push(self.4.as_component_data());
        datas.push(self.5.as_component_data());
        assert(datas@.take(old(datas)@.len() as int) =~= old(datas)@);
    }
}

impl<
    A: AsComponentData,
    B: AsComponentData,
    C: AsComponentData,
    D: AsComponentData,
    E: AsComponentData,
    F: AsComponentData,
    G: AsComponentData,
> AsMultiComponentData for (A, B, C, D, E, F, G) {
    fn len(&self) -> (n: usize)
        ensures
            n == 7,
    {
        7
    }

    fn get_data<'a>(&'a self, datas: &mut Vec<ComponentData<'a>>)
        ensures
            final(datas)@.len() == old(datas)@.len() + 7,
            final(datas)@.take(old(datas)@.len() as int) == old(datas)@,
            call_ensures(
                A::as_component_data,
                (&self.0,),
                final(datas)@[old(datas)@.len() as int + 0],
            ),
            call_ensures(
                B::as_component_data,
                (&self.1,),
                final(datas)@[old(datas)@.len() as int + 1],
            ),
            call_ensures(
                C::as_component_data,
                (&self.2,),
                final(datas)@[old(datas)@.len() as int + 2],
            ),
            call_ensures(
                D::as_component_data,
                (&self.3,),
                final(datas)@[old(datas)@.len() as int + 3],
            ),
            call_ensures(
                E::as_component_data,
                (&self.4,),
                final(datas)@[old(datas)@.len() as int + 4],
            ),
            call_ensures(
                F::as_component_data,
                (&self.5,),
                final(datas)@[old(datas)@.len() as int + 5],
            ),
            call_ensures(
                G::as_component_data,
                (&self.6,),
                final(datas)@[old(datas)@.len() as int + 6],
            ),
    {
        datas.push(self.0.as_component_data());
        datas.push(self.1.as_component_data());
        datas.push(self.2.as_component_data());
        datas.push(self.3.as_component_data());
        datas.push(self.4.as_component_data());
        datas.push(self.5.as_component_data());
        datas.push(self.6.as_component_data());
        assert(datas@.take(old(datas)@.len() as int) =~= old(datas)@);
    }
}

impl<
    A: AsComponentData,
    B: AsComponentData,
    C: AsComponentData,
    D: AsComponentData,
    E: AsComponentData,
    F: AsComponentData,
    G: AsComponentData,
    H: AsComponentData,
> AsMultiComponentData for (A, B, C, D, E, F, G, H) {
    fn len(&self) -> (n: usize)
        ensures
            n == 8,
    {
        8
    }

    fn get_data<'a>(&'a self, datas: &mut Vec<ComponentData<'a>>)
        ensures
            final(datas)@.len() == old(datas)@.len() + 8,
            final(datas)@.take(old(datas)@.len() as int) == old(datas)@,
            call_ensures(
                A::as_component_data,
                (&self.0,),
                final(datas)@[old(datas)@.len() as int + 0],
            ),
            call_ensures(
                B::as_component_data,
                (&self.1,),
                final(datas)@[old(datas)@.len() as int + 1],
            ),
            call_ensures(
                C::as_component_data,
                (&self.2,),
                final(datas)@[old(datas)@.len() as int + 2],
            ),
            call_ensures(
                D::as_component_data,
                (&self.3,),
                final(datas)@[old(datas)@.len() as int + 3],
            ),
            call_ensures(
                E::as_component_data,
                (&self.4,),
                final(datas)@[old(datas)@.len() as int + 4],
            ),
            call_ensures(
                F::as_component_data,
                (&self.5,),
                final(datas)@[old(datas)@.len() as int + 5],
            ),
            call_ensures(
                G::as_component_data,
                (&self.6,),
                final(datas)@[old(datas)@.len() as int + 6],
            ),
            call_ensures(
                H::as_component_data,
                (&self.7,),
                final(datas)@[old(datas)@.len() as int + 7],
            ),
    {
        datas.push(self.0.as_component_data());
        datas.push(self.1.as_component_data());
        datas.push(self.2.as_component_data());
        datas.push(self.3.as_component_data());
        datas.push(self.4.as_component_data());
        datas.push(self.5.as_component_data());
        datas.push(self.6.as_component_data());
        datas.push(self.7.as_component_data());
        assert(datas@.take(old(datas)@.len() as int) =~= old(datas)@);
    }
}

/// Whether `ids` ascends by bits; equal neighbours are allowed.
pub open spec fn ascending(ids: Seq<ComponentId>) -> bool {
    forall|i: int, j: int| 0 <= i <= j < ids.len() ==> ids[i].bits() <= ids[j].bits()
}

/// The order of identifiers by their bits.
pub open spec fn bits_leq() -> spec_fn(ComponentId, ComponentId) -> bool {
    |a: ComponentId, b: ComponentId| a.bits() <= b.bits()
}

/// There is one ascending order of given identifiers: two ascending
/// sequences that hold the same identifiers, each as often, are equal. So
/// the layouts of two inputs that are permutations of each other hold the
/// same sequence.
pub proof fn lemma_ascending_is_canonical(a: Seq<ComponentId>, b: Seq<ComponentId>)
    requires
        ascending(a),
        ascending(b),
        a.to_multiset() == b.to_multiset(),
    ensures
        a == b,
{
    let leq = bits_leq();
    assert(vstd::relations::total_ordering(leq)) by {
        assert forall|x: ComponentId, y: ComponentId| #[trigger] leq(x, y) && leq(y, x) implies x
            == y by {
            lemma_bits_decide(x, y);
        }
    }
    assert(vstd::relations::sorted_by(a, leq));
    assert(vstd::relations::sorted_by(b, leq));
    vstd::seq_lib::lemma_sorted_unique(a, b, leq);
}

/// A list of components.
#[derive(Debug, Hash, Eq)]
pub struct Layout(Vec<ComponentId>);

impl PartialEq for Layout {
    /// Whether two layouts hold the same identifiers.
    fn eq(&self, other: &Layout) -> (r: bool) {
        if self.0.len() != other.0.len() {
            return false;
        }
        let mut i: usize = 0;
        while i < self.0.len()
            invariant
                i <= self.0@.len(),
                self.0@.len() == other.0@.len(),
                forall|k: int| 0 <= k < i ==> self.0@[k] == other.0@[k],
            decreases self.0@.len() - i,
        {
            if self.0[i] != other.0[i] {
                return false;
            }
            i = i + 1;
        }
        assert(self.0@ =~= other.0@);
        true
    }
}

impl vstd::std_specs::cmp::PartialEqSpecImpl for Layout {
    open spec fn obeys_eq_spec() -> bool {
        true
    }

    /// Two layouts are equal where they hold the same identifiers in the
    /// same order.
    open spec fn eq_spec(&self, other: &Layout) -> bool {
        self@ == other@
    }
}

impl Clone for Layout {
    fn clone(&self) -> (copy: Layout)
        ensures
            copy@ == self@,
    {
        proof {
            use_type_invariant(self);
        }
        let mut ids: Vec<ComponentId> = Vec::new();
        let mut i: usize = 0;
        while i < self.0.len()
            invariant
                i <= self.0@.len(),
                ids@ == self.0@.take(i as int),
            decreases self.0@.len() - i,
        {
            ids.push(self.0[i]);
            assert(ids@ =~= self.0@.take(i + 1));
            i = i + 1;
        }
        assert(ids@ =~= self.0@);
        Layout(ids)
    }
}

impl View for Layout {
    type V = Seq<ComponentId>;

    /// The identifiers of the layout, in ascending order.
    closed spec fn view(&self) -> Seq<ComponentId> {
        self.0@
    }
}

impl Layout {
    /// Holds of every layout that this module gives: the identifiers ascend.
    #[verifier::type_invariant]
    pub closed spec fn wf(&self) -> bool {
        ascending(self.0@)
    }

    /// The empty layout.
    pub fn new() -> (layout: Layout)
        ensures
            layout@ == Seq::<ComponentId>::empty(),
            layout.wf(),
    {
        Layout(Vec::new())
    }

    /// The layout of the identifiers in `src`: the same identifiers, each as
    /// often as `src` holds it, in ascending order.
    pub fn from_ids(src: Vec<ComponentId>) -> (layout: Layout)
        ensures
            layout.wf(),
            ascending(layout@),
            layout@.to_multiset() == src@.to_multiset(),
    {
        let mut sorted: Vec<ComponentId> = Vec::new();
        let mut i: usize = 0;
        proof {
            assert(src@.take(0) =~= Seq::<ComponentId>::empty());
        }
        while i < src.len()
            invariant
                i <= src@.len(),
                ascending(sorted@),
                sorted@.to_multiset() == src@.take(i as int).to_multiset(),
            decreases src@.len() - i,
        {
            insert_ascending(&mut sorted, src[i]);
            proof {
                assert(src@.take(i + 1) =~= src@.take(i as int).push(src@[i as int]));
                src@.take(i as int).to_multiset_ensures();
                assert(sorted@.to_multiset() =~= src@.take(i + 1).to_multiset());
            }
            i = i + 1;
        }
        proof {
            assert(src@.take(i as int) =~= src@);
        }
        Layout(sorted)
    }

    /// The number of identifiers.
    pub fn len(&self) -> (n: usize)
        ensures
            n == self@.len(),
    {
        self.0.len()
    }

    /// The identifiers, in ascending order.
    pub fn ids(&self) -> (ids: &Vec<ComponentId>)
        ensures
            ids@ == self@,
            ascending(ids@),
    {
        proof {
            use_type_invariant(self);
        }
        &self.0
    }

    /// Whether `cid` is in the layout.
    pub fn contains(&self, cid: ComponentId) -> (r: bool)
        ensures
            r == self@.contains(cid),
    {
        contains_id(&self.0, cid)
    }

    /// Whether every component of this layout is a component of `parent`.
    pub fn is_subset(&self, parent: &Layout) -> (r: bool)
        ensures
            r <==> forall|i: int| 0 <= i < self@.len() ==> parent@.contains(#[trigger] self@[i]),
    {
        let mut i: usize = 0;
        while i < self.0.len()
            invariant
                i <= self.0@.len(),
                forall|k: int| 0 <= k < i ==> parent.0@.contains(#[trigger] self.0@[k]),
            decreases self.0@.len() - i,
        {
            if !contains_id(&parent.0, self.0[i]) {
                assert(!parent@.contains(self@[i as int]));
                return false;
            }
            i = i + 1;
        }
        true
    }

    /// Adds `cid` unless the layout holds it already. The order stays
    /// ascending.
    pub fn insert_cid(&mut self, cid: ComponentId)
        ensures
            final(self).wf(),
            ascending(final(self)@),
            old(self)@.contains(cid) ==> final(self)@ == old(self)@,
            !old(self)@.contains(cid) ==> final(self)@.to_multiset() == old(self)@.to_multiset().insert(
                cid,
            ),
            final(self)@.contains(cid),
            forall|other: ComponentId|
                other != cid ==> (final(self)@.contains(other) <==> old(self)@.contains(other)),
    {
        proof {
            use_type_invariant(&*self);
        }
        if !contains_id(&self.0, cid) {
            let ghost before = self.0@;
            let mut ids: Vec<ComponentId> = Vec::new();
            std::mem::swap(&mut ids, &mut self.0);
            insert_ascending(&mut ids, cid);
            self.0 = ids;
            proof {
                before.to_multiset_ensures();
                self.0@.to_multiset_ensures();
                assert forall|other: ComponentId| other != cid implies (self.0@.contains(other)
                    <==> before.contains(other)) by {
                    assert(self.0@.to_multiset().count(other) == before.to_multiset().count(other));
                }
                assert(self.0@.to_multiset().count(cid) > 0);
            }
        }
    }

    /// Adds the identifier of the Rust type `T` unless the layout holds it
    /// already.
    pub fn insert<T: 'static>(&mut self)
        ensures
            final(self).wf(),
            ascending(final(self)@),
            exists|cid: ComponentId|
                cid.spec_is_type() && final(self)@.contains(cid) && (forall|other: ComponentId|
                    other != cid ==> (final(self)@.contains(other) <==> old(self)@.contains(
                        other,
                    ))),
    {
        let cid = ComponentId::from_type::<T>();
        self.insert_cid(cid);
    }
}

impl Default for Layout {
    fn default() -> (layout: Layout)
        ensures
            layout@ == Seq::<ComponentId>::empty(),
    {
        Layout::new()
    }
}

impl From<Vec<ComponentId>> for Layout {
    /// The layout of the identifiers in `src`: the same identifiers, each as
    /// often as `src` holds it, in ascending order.
    fn from(src: Vec<ComponentId>) -> (layout: Layout)
        ensures
            ascending(layout@),
            layout@.to_multiset() == src@.to_multiset(),
    {
        Layout::from_ids(src)
    }
}

/// The conversion is stated over the view of the layout, in the contract of
/// `from` itself: a layout that equals a spec function's value cannot be
/// promised, since two vectors with the same items are not one value to the
/// verifier.
impl vstd::std_specs::convert::FromSpecImpl<Vec<ComponentId>> for Layout {
    open spec fn obeys_from_spec() -> bool {
        false
    }

    open spec fn from_spec(src: Vec<ComponentId>) -> Layout {
        arbitrary()
    }
}

/// Whether `cid` occurs in `ids`.
fn contains_id(ids: &Vec<ComponentId>, cid: ComponentId) -> (r: bool)
    ensures
        r == ids@.contains(cid),
{
    let mut i: usize = 0;
    while i < ids.len()
        invariant
            i <= ids@.len(),
            forall|k: int| 0 <= k < i ==> ids@[k] != cid,
        decreases ids@.len() - i,
    {
        if ids[i] == cid {
            return true;
        }
        i = i + 1;
    }
    false
}

/// Inserts `cid` into the ascending `ids` so that they stay ascending.
fn insert_ascending(ids: &mut Vec<ComponentId>, cid: ComponentId)
    requires
        ascending(old(ids)@),
    ensures
        ascending(final(ids)@),
        final(ids)@.to_multiset() == old(ids)@.to_multiset().insert(cid),
        final(ids)@.len() == old(ids)@.len() + 1,
{
    let mut at: usize = 0;
    while at < ids.len() && ids[at].0 <= cid.0
        invariant
            at <= ids@.len(),
            ids@ == old(ids)@,
            forall|k: int| 0 <= k < at ==> ids@[k].bits() <= cid.bits(),
        decreases ids@.len() - at,
    {
        at = at + 1;
    }
    ids.insert(at, cid);
    proof {
        vstd::seq_lib::to_multiset_insert(old(ids)@, at as int, cid);
        let after = ids@;
        assert forall|i: int, j: int| 0 <= i <= j < after.len() implies after[i].bits()
            <= after[j].bits() by {
            if i < at && j > at {
                assert(after[i] == old(ids)@[i] && after[j] == old(ids)@[j - 1]);
            } else if i > at {
                assert(after[i] == old(ids)@[i - 1] && after[j] == old(ids)@[j - 1]);
            } else if j < at {
                assert(after[i] == old(ids)@[i] && after[j] == old(ids)@[j]);
            } else if i == at && j > at {
                assert(after[j] == old(ids)@[j - 1]);
                assert(old(ids)@[at as int].bits() <= old(ids)@[j - 1].bits());
            }
        }
    }
}

} // verus!
