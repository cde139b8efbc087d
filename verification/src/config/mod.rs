//! The configuration model: rules, scoped blocks, catalog and ownership, and the
//! resolution of workspace inheritance.
pub mod blocks;
pub mod copy;
pub mod crosscheck;
pub mod effective;
pub mod graphcheck;
pub mod inherit;
pub mod model;
pub mod normalize;
pub mod ownership;
pub mod pathcheck;
pub mod paths;
pub mod problems;
pub mod resolve;
pub mod validate;

pub use model::{
    BlockResolution, CatalogConfig, CatalogRepo, ConfigBlockSourceKind, ConfigFile, ConfigLayout,
    ConfigValidationProblem, CoverageConfig, DocInventoryConfig, EffectiveConfig,
    FreshnessConfig, FreshnessOverride, ImpactFileDescriptor, ImpactLayout, InheritConfig,
    InheritanceResolution, LoadedCatalogConfig, LoadedCoverageConfig, LoadedDocInventoryConfig,
    LoadedFreshnessConfig, LoadedOwnershipConfig, LoadedRoutingConfig, LoadedRule,
    OverrideMode, OverridesConfig, OwnershipAnalysis, OwnershipConfig, OwnershipConflict,
    OwnershipDomain, OwnershipDomainMatch, OwnershipOverlap, OwnershipPathAnalysis,
    OwnershipPaths, ParsedImpactFile, RequiredDoc, RoutingConfig, RoutingIntent,
    RoutingOverride, Rule, RuleDisable, RuleOriginKind, RuleOverrides, RuleProvenance,
    ScopedPatternOverride, Trigger, WorkspaceProfile, WorkspaceSection,
};
pub use paths::{
    CONFIG_FILE, DOC_ROOT_DIR, normalize_path, normalized, path_relative_to, resolve_rule_path,
    resolved_rule_path,
};
