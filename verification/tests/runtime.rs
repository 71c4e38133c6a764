use std::any::TypeId;

use hearth::asset::{AssetError, AssetLoader, LoadStep};
use hearth::daemon::DaemonPlugin;
use hearth::lump::LumpId;
use hearth::runtime::{Plugin, RuntimeBuilder};

struct Length;

impl AssetLoader for Length {
    type Asset = usize;

    fn load_asset(&self, data: &[u8]) -> Result<usize, AssetError> {
        Ok(data.len())
    }
}

struct Counting {
    builds: usize,
}

impl Plugin<Length> for Counting {
    fn build(&mut self, builder: &mut RuntimeBuilder<Length>) {
        self.builds += 1;
        builder.add_asset_loader("length".to_string(), Length);
    }
}

struct Nested;

impl Plugin<Length> for Nested {
    fn build(&mut self, builder: &mut RuntimeBuilder<Length>) {
        builder.add_plugin(Counting { builds: 10 });
    }
}

#[test]
fn builder_adds_each_plugin_type_once() {
    let mut builder: RuntimeBuilder<Length> = RuntimeBuilder::new();
    assert!(builder.get_plugin::<Counting>().is_none());
    assert!(builder.add_plugin(Counting { builds: 0 }));
    assert!(!builder.add_plugin(Counting { builds: 100 }));
    assert_eq!(builder.plugin_count(), 1);
    assert_eq!(builder.get_plugin::<Counting>().unwrap().builds, 1);
    assert!(builder.has_plugin_id(&TypeId::of::<Counting>()));
    assert!(!builder.has_plugin_id(&TypeId::of::<Nested>()));
    assert!(builder.get_plugin::<Nested>().is_none());
}

#[test]
fn plugins_may_add_plugins() {
    let mut builder: RuntimeBuilder<Length> = RuntimeBuilder::new();
    assert!(builder.add_plugin(Nested));
    assert!(builder.add_plugin(DaemonPlugin::new()));
    assert_eq!(builder.plugin_count(), 3);
    assert_eq!(builder.get_plugin::<Counting>().unwrap().builds, 11);
    assert!(builder.get_plugin::<Nested>().is_some());
    assert!(builder.get_plugin::<DaemonPlugin>().is_some());
    assert!(!builder.add_plugin(Counting { builds: 0 }));
}

#[test]
fn run_hands_over_the_asset_store() {
    let mut builder: RuntimeBuilder<Length> = RuntimeBuilder::new();
    builder.add_asset_loader("length".to_string(), Length);
    builder.add_plugin(Counting { builds: 0 });
    let runtime = builder.run();
    assert!(runtime.asset_store.has_loader(&"length".to_string()));
    assert!(!runtime.asset_store.has_loader(&"other".to_string()));
    let mut store = std::sync::Arc::try_unwrap(runtime).ok().unwrap().asset_store;
    assert_eq!(store.begin_load(&"length".to_string(), &LumpId::of(b"x")), LoadStep::Run);
}

#[test]
fn adding_a_plugin_keeps_what_the_builder_held() {
    let mut builder: RuntimeBuilder<Length> = RuntimeBuilder::new();
    builder.add_asset_loader("first".to_string(), Length);
    assert!(builder.add_plugin(DaemonPlugin::new()));
    assert!(builder.add_plugin(Nested));
    // The daemon plugin, the nested plugin and the one that it added.
    assert_eq!(builder.plugin_count(), 3);
    assert!(builder.has_plugin_id(&TypeId::of::<DaemonPlugin>()));
    assert!(builder.has_plugin_id(&TypeId::of::<Nested>()));
    assert!(builder.has_plugin_id(&TypeId::of::<Counting>()));
    assert_eq!(builder.get_plugin::<Counting>().unwrap().builds, 11);
    // A second plugin of a type is refused and changes nothing.
    assert!(!builder.add_plugin(Counting { builds: 0 }));
    assert_eq!(builder.plugin_count(), 3);
    assert_eq!(builder.get_plugin::<Counting>().unwrap().builds, 11);
    let runtime = builder.run();
    assert!(runtime.asset_store.has_loader(&"first".to_string()));
    assert!(runtime.asset_store.has_loader(&"length".to_string()));
}
