use bevy_embedded_assets::plugin::{BuildPlan, Install};
use bevy_embedded_assets::{EmbeddedAssetPlugin, PluginMode};

#[test]
fn default_mode_is_auto_load() {
    assert!(matches!(PluginMode::default(), PluginMode::AutoLoad));
    assert!(matches!(
        EmbeddedAssetPlugin::default().mode,
        PluginMode::AutoLoad
    ));
}

#[test]
fn auto_load_after_the_sources_fills_them_at_build() {
    let plugin = EmbeddedAssetPlugin::default();
    let plan = plugin.build(true);
    assert_eq!(
        plan,
        BuildPlan {
            install: Install::EmbeddedSource,
            misconfigured: false
        }
    );
    assert!(!plugin.finish(true));
}

#[test]
fn auto_load_before_the_sources_fills_them_at_finish() {
    let plugin = EmbeddedAssetPlugin::default();
    let plan = plugin.build(false);
    assert_eq!(
        plan,
        BuildPlan {
            install: Install::Nothing,
            misconfigured: false
        }
    );
    assert!(plugin.finish(false));
}

#[test]
fn replace_default_before_the_sources() {
    let plugin = EmbeddedAssetPlugin {
        mode: PluginMode::ReplaceDefault,
    };
    assert_eq!(
        plugin.build(false),
        BuildPlan {
            install: Install::DefaultSource,
            misconfigured: false
        }
    );
    assert!(!plugin.finish(false));
    assert!(!plugin.finish(true));
}

#[test]
fn replace_default_after_the_sources_is_misconfigured() {
    let plugin = EmbeddedAssetPlugin {
        mode: PluginMode::ReplaceDefault,
    };
    assert_eq!(
        plugin.build(true),
        BuildPlan {
            install: Install::DefaultSource,
            misconfigured: true
        }
    );
    assert_eq!(
        EmbeddedAssetPlugin::misconfigured_message(),
        "plugin EmbeddedAssetPlugin must be added before plugin AssetPlugin when replacing the default asset source"
    );
}

#[test]
fn replace_and_fallback_keeps_the_path() {
    let plugin = EmbeddedAssetPlugin {
        mode: PluginMode::ReplaceAndFallback {
            path: "runtime_assets".to_string(),
        },
    };
    assert_eq!(
        plugin.build(false),
        BuildPlan {
            install: Install::DefaultSourceWithFallback {
                path: "runtime_assets".to_string()
            },
            misconfigured: false
        }
    );
    assert_eq!(
        plugin.build(true),
        BuildPlan {
            install: Install::DefaultSourceWithFallback {
                path: "runtime_assets".to_string()
            },
            misconfigured: true
        }
    );
    assert!(!plugin.finish(false));
}
