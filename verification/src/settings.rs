//! What the user asks of the planner.

use crate::string_map::StringMap;
use crate::text::views;
use vstd::prelude::*;

verus! {

/// Where the sources of the crates come from.
#[derive(Debug, Clone, Copy, PartialEq, Eq, Structural)]
pub enum GenMode {
    /// From a vendor directory in the workspace.
    Vendored,
    /// From a remote registry.
    Remote,
}

/// The settings of a whole workspace.
pub struct RazeSettings {
    /// The platform triple to plan for.
    pub target: String,
    pub genmode: GenMode,
    /// Settings of single crates, by name and then by version.
    pub crates: StringMap<StringMap<CrateSettings>>,
}

/// The settings of one version of one crate.
pub struct CrateSettings {
    /// Dependencies to add to the ones that were resolved.
    pub additional_deps: Vec<String>,
    /// Dependencies to leave out, each as its name and version with a hyphen between them.
    pub skipped_deps: Vec<String>,
    pub additional_flags: Vec<String>,
    pub extra_aliased_targets: Vec<String>,
    /// Whether the build script is to be run.
    pub gen_buildrs: bool,
}

#[verifier::ext_equal]
pub struct RazeSettingsView {
    pub target: Seq<char>,
    pub genmode: GenMode,
    pub crates: Map<Seq<char>, Map<Seq<char>, CrateSettingsView>>,
}

#[verifier::ext_equal]
pub struct CrateSettingsView {
    pub additional_deps: Seq<Seq<char>>,
    pub skipped_deps: Seq<Seq<char>>,
    pub additional_flags: Seq<Seq<char>>,
    pub extra_aliased_targets: Seq<Seq<char>>,
    pub gen_buildrs: bool,
}

impl View for RazeSettings {
    type V = RazeSettingsView;

    open spec fn view(&self) -> RazeSettingsView {
        RazeSettingsView {
            target: self.target@,
            genmode: self.genmode,
            crates: self.crates@.map_values(
                |versions: StringMap<CrateSettings>|
                    versions@.map_values(|settings: CrateSettings| settings@),
            ),
        }
    }
}

impl View for CrateSettings {
    type V = CrateSettingsView;

    open spec fn view(&self) -> CrateSettingsView {
        CrateSettingsView {
            additional_deps: views(self.additional_deps@),
            skipped_deps: views(self.skipped_deps@),
            additional_flags: views(self.additional_flags@),
            extra_aliased_targets: views(self.extra_aliased_targets@),
            gen_buildrs: self.gen_buildrs,
        }
    }
}

impl RazeSettingsView {
    /// The settings of a crate at a version, where there are any.
    pub open spec fn of_crate(self, name: Seq<char>, version: Seq<char>) -> Option<
        CrateSettingsView,
    > {
        if self.crates.contains_key(name) && self.crates[name].contains_key(version) {
            Some(self.crates[name][version])
        } else {
            None
        }
    }
}

impl RazeSettings {
    /// The settings of a crate at a version, where there are any.
    pub fn of_crate(&self, name: &String, version: &String) -> (found: Option<&CrateSettings>)
        ensures
            match found {
                Some(settings) => self@.of_crate(name@, version@) == Some(settings@),
                None => self@.of_crate(name@, version@) is None,
            },
    {
        match self.crates.get(name) {
            Some(versions) => versions.get(version),
            None => None,
        }
    }
}

/// A crate has settings exactly where the settings list its name, and under the name its
/// version; they are the ones listed there.
pub proof fn crate_settings_are_those_listed(
    settings: RazeSettingsView,
    name: Seq<char>,
    version: Seq<char>,
    crate_settings: CrateSettingsView,
)
    ensures
        settings.of_crate(name, version) == Some(crate_settings) <==> exists|
            versions: Map<Seq<char>, CrateSettingsView>,
        | #[trigger]
            settings.crates.contains_pair(name, versions) && versions.contains_pair(
                version,
                crate_settings,
            ),
{
    if settings.of_crate(name, version) == Some(crate_settings) {
        assert(settings.crates.contains_pair(name, settings.crates[name]));
    }
}

/// What is said of settings is said of each of their fields; the settings of single crates
/// are found under the name and the version under which they were put.
pub proof fn settings_views_show_the_fields(
    settings: RazeSettings,
    name: Seq<char>,
    version: Seq<char>,
)
    ensures
        settings@.target == settings.target@,
        settings@.genmode == settings.genmode,
        settings@.crates.contains_key(name) <==> settings.crates@.contains_key(name),
        settings.crates@.contains_key(name) ==> (settings@.crates[name].contains_key(version)
            <==> settings.crates@[name]@.contains_key(version)),
        settings.crates@.contains_key(name) && settings.crates@[name]@.contains_key(version)
            ==> settings@.crates[name][version] == settings.crates@[name]@[version]@,
{
}

/// What is said of the settings of one crate is said of each of their fields.
pub proof fn crate_settings_views_show_the_fields(settings: CrateSettings)
    ensures
        settings@.gen_buildrs == settings.gen_buildrs,
        settings@.additional_deps.len() == settings.additional_deps@.len(),
        forall|i: int|
            0 <= i < settings.additional_deps@.len() ==> #[trigger] settings@.additional_deps[i]
                == settings.additional_deps@[i]@,
        settings@.skipped_deps.len() == settings.skipped_deps@.len(),
        forall|i: int|
            0 <= i < settings.skipped_deps@.len() ==> #[trigger] settings@.skipped_deps[i]
                == settings.skipped_deps@[i]@,
        settings@.additional_flags.len() == settings.additional_flags@.len(),
        forall|i: int|
            0 <= i < settings.additional_flags@.len() ==> #[trigger] settings@.additional_flags[i]
                == settings.additional_flags@[i]@,
        settings@.extra_aliased_targets.len() == settings.extra_aliased_targets@.len(),
        forall|i: int|
            0 <= i < settings.extra_aliased_targets@.len()
                ==> #[trigger] settings@.extra_aliased_targets[i]
                == settings.extra_aliased_targets@[i]@,
{
}

} // verus!
