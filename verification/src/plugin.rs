//! What the plugin decides: where the embedded assets are installed in the
//! host application, and when.
//!
//! The host calls [`EmbeddedAssetPlugin::build`] when the plugin is added and
//! [`EmbeddedAssetPlugin::finish`] when every plugin has been added, tells
//! each what it found, and does what they answer.

use vstd::prelude::*;

verus! {

/// How [`EmbeddedAssetPlugin`] should behave.
#[derive(Debug, Clone)]
pub enum PluginMode {
    /// Embed the assets folder and make the files available through the
    /// `embedded://` source.
    AutoLoad,
    /// Replace the default asset source with an embedded source.
    ReplaceDefault,
    /// Replace the default asset source with an embedded source. If a file is
    /// not present at build time, fallback to the default source for the
    /// current platform.
    ReplaceAndFallback {
        /// The default file path to use (relative to the project root).
        path: String,
    },
}

impl Default for PluginMode {
    fn default() -> (mode: Self)
        ensures
            mode is AutoLoad,
    {
        PluginMode::AutoLoad
    }
}

/// Plugin to embed all your asset folder.
///
/// With [`PluginMode::AutoLoad`] the assets are available through the
/// `embedded://` source, and the plugin may be added before or after the
/// plugin of the host that sets up its asset sources. With the other modes
/// they are available through the default source, and the plugin must be
/// added before it.
#[derive(Debug, Clone)]
pub struct EmbeddedAssetPlugin {
    /// How this plugin should behave.
    pub mode: PluginMode,
}

impl Default for EmbeddedAssetPlugin {
    fn default() -> (plugin: Self)
        ensures
            plugin.mode is AutoLoad,
    {
        EmbeddedAssetPlugin { mode: PluginMode::AutoLoad }
    }
}

/// Where the host is to install the embedded assets.
#[derive(Debug, Clone, PartialEq, Eq)]
pub enum Install {
    /// Nowhere, for now.
    Nothing,
    /// In the registry of the `embedded://` source.
    EmbeddedSource,
    /// In place of the default source, as a reader of the embedded assets
    /// alone.
    DefaultSource,
    /// In place of the default source, as a reader of the embedded assets that
    /// falls back to the default reader of the platform at `path`.
    DefaultSourceWithFallback { path: String },
}

/// What the host is to do when the plugin is built.
#[derive(Debug, Clone, PartialEq, Eq)]
pub struct BuildPlan {
    /// Where to install the embedded assets.
    pub install: Install,
    /// The default source is replaced too late to take effect: the host has
    /// set up its asset sources already. To be reported, not passed over.
    pub misconfigured: bool,
}

/// Whether building the plugin fills the `embedded://` source: only in
/// [`PluginMode::AutoLoad`], and only if that source is there already.
pub open spec fn build_fills_embedded_source(mode: PluginMode, sources_ready: bool) -> bool {
    mode is AutoLoad && sources_ready
}

/// Whether finishing the plugin fills the `embedded://` source: only in
/// [`PluginMode::AutoLoad`], and only if building it did not.
pub open spec fn finish_fills_embedded_source(mode: PluginMode, filled_at_build: bool) -> bool {
    mode is AutoLoad && !filled_at_build
}

impl EmbeddedAssetPlugin {
    /// What to do when the plugin is added. `sources_ready` says whether the
    /// host has set up its asset sources already.
    pub fn build(&self, sources_ready: bool) -> (plan: BuildPlan)
        ensures
            match self.mode {
                PluginMode::AutoLoad => !plan.misconfigured && plan.install == if sources_ready {
                    Install::EmbeddedSource
                } else {
                    Install::Nothing
                },
                PluginMode::ReplaceDefault => plan.misconfigured == sources_ready
                    && plan.install == Install::DefaultSource,
                PluginMode::ReplaceAndFallback { path } => plan.misconfigured == sources_ready && (
                plan.install matches Install::DefaultSourceWithFallback { path: root } && root@
                    == path@),
            },
            plan.install is EmbeddedSource == build_fills_embedded_source(
                self.mode,
                sources_ready,
            ),
    {
        match &self.mode {
            PluginMode::AutoLoad => {
                if sources_ready {
                    BuildPlan { install: Install::EmbeddedSource, misconfigured: false }
                } else {
                    BuildPlan { install: Install::Nothing, misconfigured: false }
                }
            },
            PluginMode::ReplaceDefault => {
                BuildPlan { install: Install::DefaultSource, misconfigured: sources_ready }
            },
            PluginMode::ReplaceAndFallback { path } => {
                BuildPlan {
                    install: Install::DefaultSourceWithFallback { path: path.clone() },
                    misconfigured: sources_ready,
                }
            },
        }
    }

    /// Whether to fill the `embedded://` source when every plugin has been
    /// added. `filled_at_build` says whether building this plugin did so.
    pub fn finish(&self, filled_at_build: bool) -> (fill: bool)
        ensures
            fill == finish_fills_embedded_source(self.mode, filled_at_build),
    {
        match &self.mode {
            PluginMode::AutoLoad => !filled_at_build,
            _ => false,
        }
    }

    /// What to report when [`BuildPlan::misconfigured`] is set.
    pub fn misconfigured_message() -> (text: String)
        ensures
            text@
                == "plugin EmbeddedAssetPlugin must be added before plugin AssetPlugin when replacing the default asset source"@,
    {
        "plugin EmbeddedAssetPlugin must be added before plugin AssetPlugin when replacing the default asset source".to_owned()
    }
}

/// In [`PluginMode::AutoLoad`] the `embedded://` source is filled once,
/// either when the plugin is built or when it is finished, whichever order
/// the plugins were added in. In the other modes it is never filled.
pub proof fn lemma_embedded_source_filled_once(mode: PluginMode, sources_ready: bool)
    ensures
        mode is AutoLoad ==> build_fills_embedded_source(mode, sources_ready)
            != finish_fills_embedded_source(
            mode,
            build_fills_embedded_source(mode, sources_ready),
        ),
        !(mode is AutoLoad) ==> !build_fills_embedded_source(mode, sources_ready)
            && !finish_fills_embedded_source(
            mode,
            build_fills_embedded_source(mode, sources_ready),
        ),
{
}

} // verus!
