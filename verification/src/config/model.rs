//! The data types of docpact configuration, with their mathematical views.
use vstd::prelude::*;
use crate::text::views;

verus! {

/// The view of an optional string.
pub open spec fn opt_view(o: Option<String>) -> Option<Seq<char>> {
    match o {
        Some(s) => Some(s@),
        None => None,
    }
}

/// The kind of the config graph found at the root.
#[derive(Debug, Clone, Copy, PartialEq, Eq, Structural)]
pub enum ImpactLayout {
    Workspace,
    Repo,
    Absent,
}

/// The `layout` field of one config file.
#[derive(Debug, Clone, Copy, PartialEq, Eq, Structural)]
pub enum ConfigLayout {
    Workspace,
    Repo,
}

/// How a child override combines with the inherited block.
#[derive(Debug, Clone, Copy, PartialEq, Eq, Structural)]
pub enum OverrideMode {
    Merge,
    Replace,
}

/// `catalog`: the repositories a workspace knows about.
#[derive(Debug)]
pub struct CatalogConfig {
    pub repos: Vec<CatalogRepo>,
}

/// One repository of the catalog.
#[derive(Debug)]
pub struct CatalogRepo {
    pub id: String,
    pub path: String,
    pub canonical_repo: Option<String>,
    pub entry_doc: Option<String>,
    pub branch_policy_doc: Option<String>,
    pub workflow_docs: Vec<String>,
    pub integration_docs: Vec<String>,
    pub workspace_integration_required: bool,
}

/// The view of a catalog repository.
pub struct CatalogRepoView {
    pub id: Seq<char>,
    pub path: Seq<char>,
    pub canonical_repo: Option<Seq<char>>,
    pub entry_doc: Option<Seq<char>>,
    pub branch_policy_doc: Option<Seq<char>>,
    pub workflow_docs: Seq<Seq<char>>,
    pub integration_docs: Seq<Seq<char>>,
    pub workspace_integration_required: bool,
}

impl View for CatalogRepo {
    type V = CatalogRepoView;

    open spec fn view(&self) -> CatalogRepoView {
        CatalogRepoView {
            id: self.id@,
            path: self.path@,
            canonical_repo: opt_view(self.canonical_repo),
            entry_doc: opt_view(self.entry_doc),
            branch_policy_doc: opt_view(self.branch_policy_doc),
            workflow_docs: views(self.workflow_docs@),
            integration_docs: views(self.integration_docs@),
            workspace_integration_required: self.workspace_integration_required,
        }
    }
}

impl View for CatalogConfig {
    type V = Seq<CatalogRepoView>;

    open spec fn view(&self) -> Seq<CatalogRepoView> {
        self.repos@.map_values(|r: CatalogRepo| r@)
    }
}

/// `ownership`: which repository owns which paths.
#[derive(Debug)]
pub struct OwnershipConfig {
    pub domains: Vec<OwnershipDomain>,
}

/// One ownership domain.
#[derive(Debug)]
pub struct OwnershipDomain {
    pub id: String,
    pub paths: OwnershipPaths,
    pub owner_repo: String,
    pub non_owner_repos: Vec<String>,
}

/// The includes and exclude patterns of an ownership domain.
#[derive(Debug)]
pub struct OwnershipPaths {
    pub includes: Vec<String>,
    pub exclude: Vec<String>,
}

/// The view of an ownership domain.
pub struct OwnershipDomainView {
    pub id: Seq<char>,
    pub includes: Seq<Seq<char>>,
    pub exclude: Seq<Seq<char>>,
    pub owner_repo: Seq<char>,
    pub non_owner_repos: Seq<Seq<char>>,
}

impl View for OwnershipDomain {
    type V = OwnershipDomainView;

    open spec fn view(&self) -> OwnershipDomainView {
        OwnershipDomainView {
            id: self.id@,
            includes: views(self.paths.includes@),
            exclude: views(self.paths.exclude@),
            owner_repo: self.owner_repo@,
            non_owner_repos: views(self.non_owner_repos@),
        }
    }
}

impl View for OwnershipConfig {
    type V = Seq<OwnershipDomainView>;

    open spec fn view(&self) -> Seq<OwnershipDomainView> {
        self.domains@.map_values(|d: OwnershipDomain| d@)
    }
}

/// `routing`: intent aliases mapped to path patterns, listed by alias in increasing
/// order with no alias twice.
#[derive(Debug)]
pub struct RoutingConfig {
    pub intents: Vec<(String, RoutingIntent)>,
}

/// The paths of one routing intent.
#[derive(Debug)]
pub struct RoutingIntent {
    pub paths: Vec<String>,
}

impl View for RoutingIntent {
    type V = Seq<Seq<char>>;

    open spec fn view(&self) -> Seq<Seq<char>> {
        views(self.paths@)
    }
}

impl View for RoutingConfig {
    type V = Seq<(Seq<char>, Seq<Seq<char>>)>;

    open spec fn view(&self) -> Seq<(Seq<char>, Seq<Seq<char>>)> {
        self.intents@.map_values(|e: (String, RoutingIntent)| (e.0@, e.1@))
    }
}

/// `coverage`: the paths whose changes lint accounts for.
#[derive(Debug)]
pub struct CoverageConfig {
    pub includes: Vec<String>,
    pub exclude: Vec<String>,
}

/// `freshness`: staleness thresholds.
#[derive(Debug, Clone, Copy, PartialEq, Eq, Structural)]
pub struct FreshnessConfig {
    pub warn_after_commits: usize,
    pub warn_after_days: usize,
    pub critical_after_days: usize,
}

/// `docInventory`: the documents a coverage audit counts.
#[derive(Debug)]
pub struct DocInventoryConfig {
    pub includes: Vec<String>,
    pub exclude: Vec<String>,
}

/// The view of an includes/exclude pattern block.
pub struct ScopedView {
    pub includes: Seq<Seq<char>>,
    pub exclude: Seq<Seq<char>>,
}

impl View for CoverageConfig {
    type V = ScopedView;

    open spec fn view(&self) -> ScopedView {
        ScopedView { includes: views(self.includes@), exclude: views(self.exclude@) }
    }
}

impl View for DocInventoryConfig {
    type V = ScopedView;

    open spec fn view(&self) -> ScopedView {
        ScopedView { includes: views(self.includes@), exclude: views(self.exclude@) }
    }
}

/// One governance rule: changes to trigger paths require the listed docs.
#[derive(Debug)]
pub struct Rule {
    pub id: String,
    pub scope: String,
    pub repo: String,
    pub triggers: Vec<Trigger>,
    pub required_docs: Vec<RequiredDoc>,
    pub reason: String,
}

/// A trigger path pattern of a rule.
#[derive(Debug)]
pub struct Trigger {
    pub path: String,
    pub kind: Option<String>,
}

/// A document a rule requires, with its review mode.
#[derive(Debug)]
pub struct RequiredDoc {
    pub path: String,
    pub mode: Option<String>,
}

/// The view of a trigger.
pub struct TriggerView {
    pub path: Seq<char>,
    pub kind: Option<Seq<char>>,
}

/// The view of a required doc.
pub struct RequiredDocView {
    pub path: Seq<char>,
    pub mode: Option<Seq<char>>,
}

impl View for Trigger {
    type V = TriggerView;

    open spec fn view(&self) -> TriggerView {
        TriggerView { path: self.path@, kind: opt_view(self.kind) }
    }
}

impl View for RequiredDoc {
    type V = RequiredDocView;

    open spec fn view(&self) -> RequiredDocView {
        RequiredDocView { path: self.path@, mode: opt_view(self.mode) }
    }
}

/// The view of a rule.
pub struct RuleView {
    pub id: Seq<char>,
    pub scope: Seq<char>,
    pub repo: Seq<char>,
    pub triggers: Seq<TriggerView>,
    pub required_docs: Seq<RequiredDocView>,
    pub reason: Seq<char>,
}

impl View for Rule {
    type V = RuleView;

    open spec fn view(&self) -> RuleView {
        RuleView {
            id: self.id@,
            scope: self.scope@,
            repo: self.repo@,
            triggers: self.triggers@.map_values(|t: Trigger| t@),
            required_docs: self.required_docs@.map_values(|d: RequiredDoc| d@),
            reason: self.reason@,
        }
    }
}

/// Where one config file was found.
#[derive(Debug)]
pub struct ImpactFileDescriptor {
    pub abs_path: String,
    pub rel_path: String,
    pub base_dir: String,
}

/// Where an effective rule came from.
#[derive(Debug, Clone, Copy, PartialEq, Eq, Structural)]
pub enum RuleOriginKind {
    RootLocal,
    RepoLocal,
    WorkspaceProfile,
    OverrideAdd,
    OverrideReplace,
}

/// The provenance of an effective rule.
#[derive(Debug)]
pub struct RuleProvenance {
    pub config_source: String,
    pub origin_kind: RuleOriginKind,
    pub workspace_profile: Option<String>,
}

/// A rule as loaded into the effective config graph.
#[derive(Debug)]
pub struct LoadedRule {
    pub source: String,
    pub config_source: String,
    pub base_dir: String,
    pub rule: Rule,
    pub provenance: RuleProvenance,
}

/// The view of a rule provenance.
pub struct RuleProvenanceView {
    pub config_source: Seq<char>,
    pub origin_kind: RuleOriginKind,
    pub workspace_profile: Option<Seq<char>>,
}

/// The view of a loaded rule.
pub struct LoadedRuleView {
    pub source: Seq<char>,
    pub config_source: Seq<char>,
    pub base_dir: Seq<char>,
    pub rule: RuleView,
    pub provenance: RuleProvenanceView,
}

impl View for RuleProvenance {
    type V = RuleProvenanceView;

    open spec fn view(&self) -> RuleProvenanceView {
        RuleProvenanceView {
            config_source: self.config_source@,
            origin_kind: self.origin_kind,
            workspace_profile: opt_view(self.workspace_profile),
        }
    }
}

impl View for LoadedRule {
    type V = LoadedRuleView;

    open spec fn view(&self) -> LoadedRuleView {
        LoadedRuleView {
            source: self.source@,
            config_source: self.config_source@,
            base_dir: self.base_dir@,
            rule: self.rule@,
            provenance: self.provenance@,
        }
    }
}

/// The views of a list of loaded rules.
pub open spec fn loaded_views(v: Seq<LoadedRule>) -> Seq<LoadedRuleView> {
    v.map_values(|l: LoadedRule| l@)
}

/// Where a resolved config block came from.
#[derive(Debug, Clone, Copy, PartialEq, Eq, Structural)]
pub enum ConfigBlockSourceKind {
    Local,
    WorkspaceProfile,
    OverrideMerge,
    OverrideReplace,
    Default,
}

/// How one block of an effective config was resolved.
#[derive(Debug)]
pub struct BlockResolution {
    pub origin_kind: ConfigBlockSourceKind,
    pub workspace_profile: Option<String>,
    pub mode: Option<String>,
}

/// The view of a block resolution.
pub struct BlockResolutionView {
    pub origin_kind: ConfigBlockSourceKind,
    pub workspace_profile: Option<Seq<char>>,
    pub mode: Option<Seq<char>>,
}

impl View for BlockResolution {
    type V = BlockResolutionView;

    open spec fn view(&self) -> BlockResolutionView {
        BlockResolutionView {
            origin_kind: self.origin_kind,
            workspace_profile: opt_view(self.workspace_profile),
            mode: opt_view(self.mode),
        }
    }
}

/// The effective coverage block of one config.
#[derive(Debug)]
pub struct LoadedCoverageConfig {
    pub source: String,
    pub base_dir: String,
    pub coverage: CoverageConfig,
    pub resolution: BlockResolution,
}

/// The effective freshness block of one config.
#[derive(Debug)]
pub struct LoadedFreshnessConfig {
    pub source: String,
    pub base_dir: String,
    pub freshness: FreshnessConfig,
    pub resolution: BlockResolution,
}

/// The effective doc inventory block of one config.
#[derive(Debug)]
pub struct LoadedDocInventoryConfig {
    pub source: String,
    pub base_dir: String,
    pub doc_inventory: DocInventoryConfig,
    pub resolution: BlockResolution,
}

/// The effective routing block of one config.
#[derive(Debug)]
pub struct LoadedRoutingConfig {
    pub source: String,
    pub base_dir: String,
    pub routing: RoutingConfig,
    pub resolution: BlockResolution,
}

/// The view of an effective include/exclude block with where it came from.
pub struct LoadedScopedView {
    pub source: Seq<char>,
    pub base_dir: Seq<char>,
    pub block: ScopedView,
    pub resolution: BlockResolutionView,
}

/// The view of an effective freshness block with where it came from.
pub struct LoadedFreshnessView {
    pub source: Seq<char>,
    pub base_dir: Seq<char>,
    pub freshness: FreshnessConfig,
    pub resolution: BlockResolutionView,
}

/// The view of an effective routing block with where it came from.
pub struct LoadedRoutingView {
    pub source: Seq<char>,
    pub base_dir: Seq<char>,
    pub intents: Seq<(Seq<char>, Seq<Seq<char>>)>,
    pub resolution: BlockResolutionView,
}

impl View for LoadedCoverageConfig {
    type V = LoadedScopedView;

    open spec fn view(&self) -> LoadedScopedView {
        LoadedScopedView {
            source: self.source@,
            base_dir: self.base_dir@,
            block: self.coverage@,
            resolution: self.resolution@,
        }
    }
}

impl View for LoadedDocInventoryConfig {
    type V = LoadedScopedView;

    open spec fn view(&self) -> LoadedScopedView {
        LoadedScopedView {
            source: self.source@,
            base_dir: self.base_dir@,
            block: self.doc_inventory@,
            resolution: self.resolution@,
        }
    }
}

impl View for LoadedFreshnessConfig {
    type V = LoadedFreshnessView;

    open spec fn view(&self) -> LoadedFreshnessView {
        LoadedFreshnessView {
            source: self.source@,
            base_dir: self.base_dir@,
            freshness: self.freshness,
            resolution: self.resolution@,
        }
    }
}

impl View for LoadedRoutingConfig {
    type V = LoadedRoutingView;

    open spec fn view(&self) -> LoadedRoutingView {
        LoadedRoutingView {
            source: self.source@,
            base_dir: self.base_dir@,
            intents: self.routing@,
            resolution: self.resolution@,
        }
    }
}

/// The catalog block of one config file.
#[derive(Debug)]
pub struct LoadedCatalogConfig {
    pub source: String,
    pub base_dir: String,
    pub catalog: CatalogConfig,
}

/// The ownership block of one config file.
#[derive(Debug)]
pub struct LoadedOwnershipConfig {
    pub source: String,
    pub base_dir: String,
    pub ownership: OwnershipConfig,
}

/// One ownership domain that claims a tracked path.
#[derive(Debug)]
pub struct OwnershipDomainMatch {
    pub source: String,
    pub base_dir: String,
    pub domain_id: String,
    pub owner_repo: String,
    pub non_owner_repos: Vec<String>,
    pub matched_include: String,
    pub static_prefix_len: usize,
    pub wildcard_count: usize,
}

/// The ownership analysis of one tracked path.
#[derive(Debug)]
pub struct OwnershipPathAnalysis {
    pub path: String,
    pub matches: Vec<OwnershipDomainMatch>,
    pub selected: OwnershipDomainMatch,
    pub has_conflict: bool,
    pub has_overlap: bool,
}

/// A tracked path claimed by domains with different owner repos.
#[derive(Debug)]
pub struct OwnershipConflict {
    pub path: String,
    pub owner_repos: Vec<String>,
    pub domain_ids: Vec<String>,
}

/// A tracked path claimed by several domains of one owner repo.
#[derive(Debug)]
pub struct OwnershipOverlap {
    pub path: String,
    pub owner_repo: String,
    pub domain_ids: Vec<String>,
    pub selected_domain_id: String,
}

/// The ownership analysis of a set of tracked paths.
#[derive(Debug)]
pub struct OwnershipAnalysis {
    pub paths: Vec<OwnershipPathAnalysis>,
    pub conflicts: Vec<OwnershipConflict>,
    pub overlaps: Vec<OwnershipOverlap>,
}

/// How a child config inherited from a workspace profile.
#[derive(Debug)]
pub struct InheritanceResolution {
    pub workspace_profile: String,
    pub add_count: usize,
    pub replace_count: usize,
    pub disable_count: usize,
    pub disabled_rule_ids: Vec<String>,
    pub coverage_mode: Option<String>,
    pub doc_inventory_mode: Option<String>,
    pub freshness_mode: Option<String>,
    pub routing_mode: Option<String>,
}

/// One config of the graph with everything it inherits applied.
#[derive(Debug)]
pub struct EffectiveConfig {
    pub source: String,
    pub base_dir: String,
    pub rules: Vec<LoadedRule>,
    pub coverage: LoadedCoverageConfig,
    pub freshness: LoadedFreshnessConfig,
    pub routing: LoadedRoutingConfig,
    pub doc_inventory: LoadedDocInventoryConfig,
    pub inheritance: Option<InheritanceResolution>,
}

/// The view of an inheritance resolution.
pub struct InheritanceView {
    pub workspace_profile: Seq<char>,
    pub add_count: nat,
    pub replace_count: nat,
    pub disable_count: nat,
    pub disabled_rule_ids: Seq<Seq<char>>,
    pub coverage_mode: Option<Seq<char>>,
    pub doc_inventory_mode: Option<Seq<char>>,
    pub freshness_mode: Option<Seq<char>>,
    pub routing_mode: Option<Seq<char>>,
}

impl View for InheritanceResolution {
    type V = InheritanceView;

    open spec fn view(&self) -> InheritanceView {
        InheritanceView {
            workspace_profile: self.workspace_profile@,
            add_count: self.add_count as nat,
            replace_count: self.replace_count as nat,
            disable_count: self.disable_count as nat,
            disabled_rule_ids: views(self.disabled_rule_ids@),
            coverage_mode: opt_view(self.coverage_mode),
            doc_inventory_mode: opt_view(self.doc_inventory_mode),
            freshness_mode: opt_view(self.freshness_mode),
            routing_mode: opt_view(self.routing_mode),
        }
    }
}

/// The view of an effective config.
pub struct EffectiveView {
    pub source: Seq<char>,
    pub base_dir: Seq<char>,
    pub rules: Seq<LoadedRuleView>,
    pub coverage: LoadedScopedView,
    pub freshness: LoadedFreshnessView,
    pub routing: LoadedRoutingView,
    pub doc_inventory: LoadedScopedView,
    pub inheritance: Option<InheritanceView>,
}

impl View for EffectiveConfig {
    type V = EffectiveView;

    open spec fn view(&self) -> EffectiveView {
        EffectiveView {
            source: self.source@,
            base_dir: self.base_dir@,
            rules: loaded_views(self.rules@),
            coverage: self.coverage@,
            freshness: self.freshness@,
            routing: self.routing@,
            doc_inventory: self.doc_inventory@,
            inheritance: match self.inheritance {
                Some(i) => Some(i@),
                None => None,
            },
        }
    }
}

/// One problem found by config validation.
#[derive(Debug)]
pub struct ConfigValidationProblem {
    pub source: String,
    pub rule_id: Option<String>,
    pub message: String,
}

/// The view of a validation problem.
pub struct ProblemView {
    pub source: Seq<char>,
    pub rule_id: Option<Seq<char>>,
    pub message: Seq<char>,
}

impl View for ConfigValidationProblem {
    type V = ProblemView;

    open spec fn view(&self) -> ProblemView {
        ProblemView { source: self.source@, rule_id: opt_view(self.rule_id), message: self.message@ }
    }
}

/// The views of a list of validation problems.
pub open spec fn problem_views(v: Seq<ConfigValidationProblem>) -> Seq<ProblemView> {
    v.map_values(|p: ConfigValidationProblem| p@)
}

/// A whole config file as written.
#[derive(Debug)]
pub struct ConfigFile {
    pub layout: ConfigLayout,
    pub coverage: Option<CoverageConfig>,
    pub freshness: Option<FreshnessConfig>,
    pub routing: Option<RoutingConfig>,
    pub catalog: Option<CatalogConfig>,
    pub ownership: Option<OwnershipConfig>,
    pub doc_inventory: Option<DocInventoryConfig>,
    pub rules: Vec<Rule>,
    pub workspace: Option<WorkspaceSection>,
    pub inherit: Option<InheritConfig>,
    pub overrides: Option<OverridesConfig>,
}

/// The `workspace` block of a workspace root; profiles are listed by name in
/// increasing order with no name twice.
#[derive(Debug)]
pub struct WorkspaceSection {
    pub name: Option<String>,
    pub profiles: Vec<(String, WorkspaceProfile)>,
}

/// A reusable profile that child configs inherit.
#[derive(Debug)]
pub struct WorkspaceProfile {
    pub coverage: Option<CoverageConfig>,
    pub freshness: Option<FreshnessConfig>,
    pub routing: Option<RoutingConfig>,
    pub doc_inventory: Option<DocInventoryConfig>,
    pub rules: Vec<Rule>,
}

/// The `inherit` block of a child config.
#[derive(Debug)]
pub struct InheritConfig {
    pub workspace_profile: String,
}

/// The `overrides` block of a child config.
#[derive(Debug)]
pub struct OverridesConfig {
    pub rules: RuleOverrides,
    pub coverage: Option<ScopedPatternOverride>,
    pub doc_inventory: Option<ScopedPatternOverride>,
    pub freshness: Option<FreshnessOverride>,
    pub routing: Option<RoutingOverride>,
}

/// Rule additions, replacements and removals of a child config.
#[derive(Debug)]
pub struct RuleOverrides {
    pub add: Vec<Rule>,
    pub replace: Vec<Rule>,
    pub disable: Vec<RuleDisable>,
}

/// One disabled inherited rule.
#[derive(Debug)]
pub struct RuleDisable {
    pub id: String,
    pub reason: String,
}

/// An override of an includes/exclude block.
#[derive(Debug)]
pub struct ScopedPatternOverride {
    pub mode: OverrideMode,
    pub includes: Vec<String>,
    pub exclude: Vec<String>,
}

/// An override of the freshness block.
#[derive(Debug)]
pub struct FreshnessOverride {
    pub mode: OverrideMode,
    pub warn_after_commits: usize,
    pub warn_after_days: usize,
    pub critical_after_days: usize,
}

/// An override of the routing block.
#[derive(Debug)]
pub struct RoutingOverride {
    pub mode: OverrideMode,
    pub intents: Vec<(String, RoutingIntent)>,
}

/// A config file together with where it was found.
#[derive(Debug)]
pub struct ParsedImpactFile {
    pub descriptor: ImpactFileDescriptor,
    pub parsed: ConfigFile,
}

} // verus!
