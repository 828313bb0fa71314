//! The whole of one build: from what was probed and found on disk to what is
//! handed to the build system and to the generator of the declarations.

use vstd::prelude::*;
use crate::emit::{directive_views, directives, emit_link_directives, DirectiveView, LinkDirective};
use crate::headers::{
    all_below, entry_views, header_paths, is_manifest_of, manifest_is_unique, rerun_texts,
    umbrella_text, HeaderManifest, ManifestView, TreeEntry, TreeEntryView,
};
use crate::metadata::{LibraryMetadata, MetadataView};
use crate::render::{compiler_args, directive_lines, directive_texts, pkgconfig_lib_inc_args};
use crate::text::{append_strings, texts};

verus! {

/// What a build is told from outside: the name of the library under build,
/// the root of its header tree, and the directory of its libraries.
#[derive(Debug)]
pub struct BuildConfig {
    pub self_name: String,
    pub include_root: String,
    pub lib_dir: String,
}

/// The model of a [`BuildConfig`].
pub struct ConfigView {
    pub self_name: Seq<char>,
    pub include_root: Seq<char>,
    pub lib_dir: Seq<char>,
}

impl View for BuildConfig {
    type V = ConfigView;

    open spec fn view(&self) -> ConfigView {
        ConfigView {
            self_name: self.self_name@,
            include_root: self.include_root@,
            lib_dir: self.lib_dir@,
        }
    }
}

/// What one build comes to: the link directives, the manifest of the
/// headers, and the arguments for the C compiler.
#[derive(Debug)]
pub struct BuildPlan {
    pub directives: Vec<LinkDirective>,
    pub manifest: HeaderManifest,
    pub compiler_args: Vec<String>,
}

/// The model of a [`BuildPlan`].
pub struct PlanView {
    pub directives: Seq<DirectiveView>,
    pub manifest: ManifestView,
    pub compiler_args: Seq<Seq<char>>,
}

impl View for BuildPlan {
    type V = PlanView;

    open spec fn view(&self) -> PlanView {
        PlanView {
            directives: directive_views(self.directives@),
            manifest: self.manifest@,
            compiler_args: texts(self.compiler_args@),
        }
    }
}

/// Whether `plan` is the plan of the build that `config` describes, for the
/// metadata `meta` and the tree entries `entries`.
pub open spec fn is_plan_of(
    plan: PlanView,
    config: ConfigView,
    meta: MetadataView,
    entries: Seq<TreeEntryView>,
) -> bool {
    &&& plan.directives == directives(meta, config.self_name)
    &&& is_manifest_of(plan.manifest, config.include_root, entries)
    &&& plan.compiler_args == compiler_args(meta)
}

/// The lines that a build writes for the build system: its directives, then
/// the requests for a new build when a header or a library changes.
pub open spec fn output_texts(plan: PlanView, config: ConfigView) -> Seq<Seq<char>> {
    directive_texts(plan.directives) + rerun_texts(plan.manifest.paths, config.lib_dir)
}

/// Plans a build, or gives nothing where a header among `entries` does not
/// lie below the root of the header tree.
pub fn plan_build(config: &BuildConfig, meta: &LibraryMetadata, entries: &Vec<TreeEntry>) -> (plan:
    Option<BuildPlan>)
    ensures
        plan is Some <==> all_below(header_paths(entry_views(entries@)), config@.include_root),
        match plan {
            Some(p) => is_plan_of(p@, config@, meta@, entry_views(entries@)),
            None => true,
        },
{
    match HeaderManifest::collect(config.include_root.as_str(), entries) {
        Some(manifest) => {
            let directives = emit_link_directives(meta, config.self_name.as_str());
            let compiler_args = pkgconfig_lib_inc_args(meta);
            Some(BuildPlan { directives, manifest, compiler_args })
        },
        None => None,
    }
}

impl BuildPlan {
    /// The lines that the build writes for the build system, in order.
    pub fn output_lines(&self, config: &BuildConfig) -> (lines: Vec<String>)
        ensures
            texts(lines@) == output_texts(self@, config@),
    {
        let mut lines = directive_lines(&self.directives);
        let reruns = self.manifest.rerun_lines(config.lib_dir.as_str());
        append_strings(&mut lines, &reruns);
        lines
    }
}

/// A build that is run again on the same metadata and the same header tree,
/// in whatever order the tree is walked, has the same plan: the same lines
/// for the build system, the same umbrella header and the same compiler
/// arguments.
pub proof fn rebuild_is_identical(
    first: PlanView,
    second: PlanView,
    config: ConfigView,
    meta: MetadataView,
    entries1: Seq<TreeEntryView>,
    entries2: Seq<TreeEntryView>,
)
    requires
        is_plan_of(first, config, meta, entries1),
        is_plan_of(second, config, meta, entries2),
        header_paths(entries1).to_multiset() == header_paths(entries2).to_multiset(),
    ensures
        first == second,
        output_texts(first, config) == output_texts(second, config),
        umbrella_text(first.manifest.relative_paths) == umbrella_text(
            second.manifest.relative_paths,
        ),
{
    manifest_is_unique(first.manifest, second.manifest, config.include_root, entries1, entries2);
}

} // verus!
