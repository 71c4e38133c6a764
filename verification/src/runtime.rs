//! Assembly of a runtime from plugins.
//!
//! A plugin is added once for each Rust type: adding a second plugin of a
//! type that the builder holds already is refused before the plugin gets to
//! build anything.

use std::any::{Any, TypeId};
use std::sync::Arc;
use vstd::prelude::*;
use crate::asset::{AssetLoader, AssetStore};
use crate::component::type_id_of;

verus! {

/// `<TypeId as PartialEq>::eq`: whether two type identifiers are the same
/// value.
#[verifier::external_body]
fn same_type_id(a: &TypeId, b: &TypeId) -> (r: bool)
    ensures
        r == (*a == *b),
{
    a == b
}

/// A box that holds a value of any type, so that plugins of different types
/// can be kept side by side.
#[verifier::external_body]
struct AnyBox {
    inner: Box<dyn Any>,
}

/// `Box::new` with the unsizing to `dyn Any`. Nothing is claimed of the box.
#[verifier::external_body]
fn box_any<T: 'static>(value: T) -> (boxed: AnyBox) {
    AnyBox { inner: Box::new(value) }
}

/// `<dyn Any>::downcast_ref`: the value in the box, where it is of type `T`.
/// Nothing is claimed of the result.
#[verifier::external_body]
fn downcast_any<T: 'static>(boxed: &AnyBox) -> (r: Option<&T>) {
    boxed.inner.downcast_ref::<T>()
}

/// Whether everything that `before` holds is held by `after` too.
pub open spec fn kept<A>(before: Seq<A>, after: Seq<A>) -> bool {
    forall|x: A| before.contains(x) ==> after.contains(x)
}

/// A part of a runtime, which sets itself up when it is added to a builder.
pub trait Plugin<L: AssetLoader>: 'static + Sized {
    /// Sets the plugin up: registers asset loaders and adds the plugins that
    /// it depends on. A builder can only be added to, so whatever it held
    /// before it holds afterwards.
    fn build(&mut self, builder: &mut RuntimeBuilder<L>)
        ensures
            kept(old(builder).plugin_ids(), final(builder).plugin_ids()),
            kept(old(builder).loader_classes(), final(builder).loader_classes()),
    ;
}

struct PluginSlot {
    id: TypeId,
    plugin: AnyBox,
}

/// Collects the plugins and asset loaders of a runtime.
pub struct RuntimeBuilder<L: AssetLoader> {
    plugins: Vec<PluginSlot>,
    asset_store: AssetStore<L>,
}

/// A runtime that was assembled.
pub struct Runtime<L: AssetLoader> {
    pub asset_store: AssetStore<L>,
}

/// What adding a plugin under `id` does to the identifiers held: the plugin is
/// added exactly where `id` was not held before, and where it is added `id` is
/// held afterwards.
pub open spec fn added_under(before: Seq<TypeId>, after: Seq<TypeId>, id: TypeId, added: bool) -> bool {
    &&& added == !before.contains(id)
    &&& added ==> after.contains(id)
}

impl<L: AssetLoader> RuntimeBuilder<L> {
    /// The type identifiers of the plugins added, in the order added.
    pub closed spec fn plugin_ids(&self) -> Seq<TypeId> {
        Seq::new(self.plugins@.len(), |i: int| self.plugins@[i].id)
    }

    /// The classes that have an asset loader.
    pub closed spec fn loader_classes(&self) -> Seq<Seq<char>> {
        self.asset_store@.classes
    }

    /// Holds of every builder: no plugin type occurs twice, and the asset
    /// store is well formed.
    #[verifier::type_invariant]
    pub closed spec fn wf(&self) -> bool {
        &&& self.plugin_ids().no_duplicates()
        &&& self.asset_store.wf()
    }

    /// A builder without plugins and loaders.
    pub fn new() -> (builder: RuntimeBuilder<L>)
        ensures
            builder.plugin_ids() == Seq::<TypeId>::empty(),
            builder.loader_classes() == Seq::<Seq<char>>::empty(),
    {
        let builder = RuntimeBuilder { plugins: Vec::new(), asset_store: AssetStore::new() };
        assert(builder.plugin_ids() =~= Seq::<TypeId>::empty());
        builder
    }

    /// The position of the plugin with type identifier `id`, if it was added.
    fn find_plugin(&self, id: &TypeId) -> (r: Option<usize>)
        ensures
            r is Some <==> self.plugin_ids().contains(*id),
            r matches Some(i) ==> i < self.plugins@.len() && self.plugins@[i as int].id == *id,
    {
        let mut i: usize = 0;
        while i < self.plugins.len()
            invariant
                i <= self.plugins@.len(),
                forall|k: int| 0 <= k < i ==> self.plugin_ids()[k] != *id,
            decreases self.plugins@.len() - i,
        {
            if same_type_id(&self.plugins[i].id, id) {
                assert(self.plugin_ids()[i as int] == *id);
                return Some(i);
            }
            i = i + 1;
        }
        None
    }

    /// Whether a plugin with type identifier `id` was added.
    pub fn has_plugin_id(&self, id: &TypeId) -> (r: bool)
        ensures
            r == self.plugin_ids().contains(*id),
    {
        self.find_plugin(id).is_some()
    }

    /// The number of plugins added.
    pub fn plugin_count(&self) -> (n: usize)
        ensures
            n == self.plugin_ids().len(),
    {
        self.plugins.len()
    }

    /// Adds a plugin and lets it build. A plugin of a type that was added
    /// before is dropped without building, and the builder stays as it is.
    /// The plugin is kept under the type identifier of `T`: it is added
    /// exactly where the builder holds no plugin under that identifier, and
    /// then the builder holds it under that identifier. So the first plugin
    /// that a builder gets is always added.
    pub fn add_plugin<T: Plugin<L>>(&mut self, plugin: T) -> (added: bool)
        ensures
            exists|id: TypeId|
                added_under(old(self).plugin_ids(), final(self).plugin_ids(), id, added),
            !added ==> final(self).plugin_ids() == old(self).plugin_ids(),
            !added ==> final(self).loader_classes() == old(self).loader_classes(),
            old(self).plugin_ids().len() == 0 ==> added,
            kept(old(self).plugin_ids(), final(self).plugin_ids()),
            kept(old(self).loader_classes(), final(self).loader_classes()),
    {
        let id = type_id_of::<T>();
        let added = self.add_plugin_as(id, plugin);
        proof {
            assert(added_under(old(self).plugin_ids(), self.plugin_ids(), id, added));
        }
        added
    }

    /// Adds a plugin under the type identifier `id` and lets it build. Where
    /// the builder holds a plugin under `id` already, the plugin is dropped
    /// without building and the builder stays as it is. Else the builder
    /// holds afterwards what it held before, what the plugin added while it
    /// built, and the plugin itself under `id`.
    pub fn add_plugin_as<T: Plugin<L>>(&mut self, id: TypeId, plugin: T) -> (added: bool)
        ensures
            added == !old(self).plugin_ids().contains(id),
            !added ==> final(self).plugin_ids() == old(self).plugin_ids(),
            !added ==> final(self).loader_classes() == old(self).loader_classes(),
            added ==> final(self).plugin_ids().contains(id),
            kept(old(self).plugin_ids(), final(self).plugin_ids()),
            kept(old(self).loader_classes(), final(self).loader_classes()),
    {
        if self.has_plugin_id(&id) {
            return false;
        }
        let mut plugin = plugin;
        plugin.build(self);
        let ghost built = self.plugin_ids();
        self.keep_plugin(id, box_any(plugin));
        proof {
            if !built.contains(id) {
                assert(built.push(id)[built.len() as int] == id);
                assert forall|x: TypeId| built.contains(x) implies built.push(id).contains(x) by {
                    let k = choose|k: int| 0 <= k < built.len() && built[k] == x;
                    assert(built.push(id)[k] == x);
                }
            }
        }
        true
    }

    /// Keeps `plugin` under `id`: in place of the plugin that was kept under
    /// the identifier, or at the end.
    fn keep_plugin(&mut self, id: TypeId, plugin: AnyBox)
        ensures
            final(self).loader_classes() == old(self).loader_classes(),
            final(self).plugin_ids() == (if old(self).plugin_ids().contains(id) {
                old(self).plugin_ids()
            } else {
                old(self).plugin_ids().push(id)
            }),
    {
        proof {
            use_type_invariant(&*self);
        }
        let ghost before = self.plugin_ids();
        let mut plugins: Vec<PluginSlot> = Vec::new();
        proof {
            assert(Seq::new(plugins@.len(), |i: int| plugins@[i].id) =~= Seq::<TypeId>::empty());
        }
        match self.find_plugin(&id) {
            Some(i) => {
                std::mem::swap(&mut plugins, &mut self.plugins);
                plugins[i].plugin = plugin;
                proof {
                    assert(Seq::new(plugins@.len(), |k: int| plugins@[k].id) =~= before);
                }
                self.plugins = plugins;
            },
            None => {
                std::mem::swap(&mut plugins, &mut self.plugins);
                plugins.push(PluginSlot { id, plugin });
                proof {
                    let after = Seq::new(plugins@.len(), |k: int| plugins@[k].id);
                    assert(after =~= before.push(id));
                    assert forall|a: int, b: int|
                        0 <= a < after.len() && 0 <= b < after.len() && a != b implies after[a]
                        != after[b] by {
                        if a < before.len() {
                            assert(before.contains(before[a]));
                        }
                        if b < before.len() {
                            assert(before.contains(before[b]));
                        }
                    }
                }
                self.plugins = plugins;
            },
        }
    }

    /// Registers `loader` for the asset class `class`.
    pub fn add_asset_loader(&mut self, class: String, loader: L)
        ensures
            final(self).plugin_ids() == old(self).plugin_ids(),
            final(self).loader_classes() == (if old(self).loader_classes().contains(class@) {
                old(self).loader_classes()
            } else {
                old(self).loader_classes().push(class@)
            }),
    {
        proof {
            use_type_invariant(&*self);
        }
        let mut store: AssetStore<L> = AssetStore::new();
        std::mem::swap(&mut store, &mut self.asset_store);
        store.add_loader(class, loader);
        self.asset_store = store;
    }

    /// The plugin of type `T`, if one was added.
    pub fn get_plugin<T: Plugin<L>>(&self) -> (r: Option<&T>)
        ensures
            r is Some ==> self.plugin_ids().len() > 0,
    {
        let id = type_id_of::<T>();
        match self.find_plugin(&id) {
            Some(i) => downcast_any::<T>(&self.plugins[i].plugin),
            None => None,
        }
    }

    /// Ends the assembly and hands over the runtime with the asset store that
    /// was set up.
    pub fn run(self) -> (runtime: Arc<Runtime<L>>)
        ensures
            runtime.asset_store@ == self.asset_store_model(),
            runtime.asset_store.wf(),
    {
        proof {
            use_type_invariant(&self);
        }
        Arc::new(Runtime { asset_store: self.asset_store })
    }

    /// The asset store that was set up, as a plain value.
    pub closed spec fn asset_store_model(&self) -> crate::asset::AssetStoreModel<L::Asset> {
        self.asset_store@
    }
}

} // verus!
