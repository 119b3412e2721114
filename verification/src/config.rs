//! Configuration.
use vstd::prelude::*;

use crate::detect::ProjectInfo;
use crate::error::BarzelError;
use crate::percent;
use crate::percent::Percent;
use crate::text;

verus! {

#[derive(Debug)]
pub struct BarzelConfig {
    pub project: ProjectConfig,
    pub layers: LayersConfig,
    pub reporting: ReportingConfig,
    pub history: HistoryConfig,
}

/// Controls local history snapshots and metric-regression findings.
#[derive(Debug, Clone, Copy, PartialEq, Eq, Structural)]
pub struct HistoryConfig {
    /// When false, history is still saved but regression findings are not injected.
    pub enabled: bool,
    /// Minimum drop in coverage (a fraction) before a finding is emitted.
    pub coverage_regression_tolerance: Percent,
    /// Minimum drop in mutation score (a fraction) before a finding is emitted.
    pub mutation_regression_tolerance: Percent,
    /// Maximum history entries to keep per package and language. 0 keeps all entries.
    pub max_entries_per_package: usize,
}

#[derive(Debug)]
pub struct ProjectConfig {
    pub name: String,
    pub language: String,
}

#[derive(Debug)]
pub struct LayersConfig {
    pub enabled: Vec<String>,
    pub logic: LogicConfig,
    pub structural: StructuralConfig,
    pub hostile: HostileConfig,
    pub operational: OperationalConfig,
}

#[derive(Debug)]
pub struct OperationalConfig {
    pub health_checks: Vec<HealthCheckConfig>,
    pub commands: Vec<OperationalCommandConfig>,
}

/// A custom command to run during the operational layer.
#[derive(Debug)]
pub struct OperationalCommandConfig {
    /// Human-readable name shown in findings and report output.
    pub name: String,
    /// Executable to run (no shell expansion).
    pub cmd: String,
    /// Arguments passed directly to the executable.
    pub args: Vec<String>,
    /// Working directory relative to the project root; the project root if absent.
    pub cwd: Option<String>,
    /// Timeout in milliseconds.
    pub timeout_ms: u64,
}

/// A single HTTP endpoint to verify during the operational layer.
#[derive(Debug)]
pub struct HealthCheckConfig {
    /// Human-readable name shown in findings and report output.
    pub name: String,
    /// Full URL to request.
    pub url: String,
    /// HTTP status code considered healthy.
    pub expected_status: u16,
    /// Request timeout in milliseconds.
    pub timeout_ms: u64,
}

#[derive(Debug, Clone, Copy)]
pub struct LogicConfig {
    pub property_based: bool,
    pub formal_verification: bool,
    /// Minimum coverage percentage to pass the logic layer; no check if absent.
    pub min_coverage: Option<Percent>,
}

#[derive(Debug, Clone, Copy, PartialEq, Eq, Structural)]
pub struct StructuralConfig {
    pub mutation_testing: bool,
    /// Minimum mutation score to pass.
    pub mutation_threshold: Percent,
}

#[derive(Debug, Clone, Copy, PartialEq, Eq, Structural)]
pub struct HostileConfig {
    pub fuzzing: bool,
    pub sast: bool,
}

#[derive(Debug)]
pub struct ReportingConfig {
    pub format: String,
    /// Minimum severity that causes a non-zero exit: critical | high | medium | low | any.
    pub fail_on: String,
}

// ── defaults ────────────────────────────────────────────────────────────────

pub fn default_true() -> (r: bool)
    ensures
        r,
{
    true
}

pub fn default_max_entries() -> (r: usize)
    ensures
        r == 50,
{
    50
}

pub fn default_command_timeout_ms() -> (r: u64)
    ensures
        r == 30_000,
{
    30_000
}

pub fn default_expected_status() -> (r: u16)
    ensures
        r == 200,
{
    200
}

pub fn default_timeout_ms() -> (r: u64)
    ensures
        r == 5000,
{
    5000
}

pub open spec fn default_history() -> HistoryConfig {
    HistoryConfig {
        enabled: true,
        coverage_regression_tolerance: Percent { bits: percent::ZERO },
        mutation_regression_tolerance: Percent { bits: percent::ZERO },
        max_entries_per_package: 50,
    }
}

impl Default for HistoryConfig {
    fn default() -> (r: Self)
        ensures
            r == default_history(),
    {
        HistoryConfig {
            enabled: default_true(),
            coverage_regression_tolerance: Percent { bits: percent::ZERO },
            mutation_regression_tolerance: Percent { bits: percent::ZERO },
            max_entries_per_package: default_max_entries(),
        }
    }
}

/// The tolerance between 0 and 1 that stands for `v`: `v` itself, the nearer bound, or 0
/// for what is not finite.
pub open spec fn clamped(v: Percent) -> Percent {
    if !v.is_finite() {
        Percent { bits: percent::ZERO }
    } else if v.under(Percent { bits: percent::ZERO }) {
        Percent { bits: percent::ZERO }
    } else if (Percent { bits: percent::ONE }).under(v) {
        Percent { bits: percent::ONE }
    } else {
        v
    }
}

fn clamp_tolerance(v: Percent) -> (r: Percent)
    ensures
        r == clamped(v),
{
    let zero = Percent { bits: percent::ZERO };
    let one = Percent { bits: percent::ONE };
    if !v.finite() {
        zero
    } else if v.below(zero) {
        zero
    } else if one.below(v) {
        one
    } else {
        v
    }
}

impl HistoryConfig {
    pub open spec fn normal(self) -> HistoryConfig {
        HistoryConfig {
            enabled: self.enabled,
            coverage_regression_tolerance: clamped(self.coverage_regression_tolerance),
            mutation_regression_tolerance: clamped(self.mutation_regression_tolerance),
            max_entries_per_package: self.max_entries_per_package,
        }
    }

    /// A copy with tolerances between 0 and 1.
    pub fn normalized(&self) -> (r: Self)
        ensures
            r == self.normal(),
    {
        HistoryConfig {
            enabled: self.enabled,
            coverage_regression_tolerance: clamp_tolerance(self.coverage_regression_tolerance),
            mutation_regression_tolerance: clamp_tolerance(self.mutation_regression_tolerance),
            max_entries_per_package: self.max_entries_per_package,
        }
    }
}

/// Tolerances end up between 0 and 1, and those that are there already stay.
pub proof fn law_tolerances_are_bounded(v: Percent)
    ensures
        clamped(v).is_finite(),
        clamped(v).reaches(Percent { bits: percent::ZERO }),
        (Percent { bits: percent::ONE }).reaches(clamped(v)),
        v.reaches(Percent { bits: percent::ZERO }) && (Percent { bits: percent::ONE }).reaches(v)
            ==> clamped(v) == v,
        clamped(clamped(v)) == clamped(v),
{
}

/// All layers, in their order.
pub open spec fn all_layers() -> Seq<Seq<char>> {
    seq!["logic"@, "structural"@, "hostile"@, "operational"@]
}

/// The configuration of a project that has none of its own.
pub open spec fn is_default(c: BarzelConfig) -> bool {
    &&& text::views(c.layers.enabled@) == all_layers()
    &&& c.layers.logic == (LogicConfig {
        property_based: true,
        formal_verification: true,
        min_coverage: None,
    })
    &&& c.layers.structural == (StructuralConfig {
        mutation_testing: true,
        mutation_threshold: Percent { bits: percent::NINETY_FIVE },
    })
    &&& c.layers.hostile == (HostileConfig { fuzzing: true, sast: true })
    &&& c.layers.operational.health_checks@.len() == 0
    &&& c.layers.operational.commands@.len() == 0
    &&& c.reporting.format@ == "json"@
    &&& c.reporting.fail_on@ == "high"@
    &&& c.history == default_history()
}

impl Default for OperationalConfig {
    fn default() -> (r: Self)
        ensures
            r.health_checks@.len() == 0,
            r.commands@.len() == 0,
    {
        OperationalConfig { health_checks: Vec::new(), commands: Vec::new() }
    }
}

fn layer_names() -> (r: Vec<String>)
    ensures
        text::views(r@) == all_layers(),
{
    let r: Vec<String> = vec![
        "logic".to_string(),
        "structural".to_string(),
        "hostile".to_string(),
        "operational".to_string(),
    ];
    assert(text::views(r@) =~= all_layers());
    r
}

impl Default for BarzelConfig {
    fn default() -> (r: Self)
        ensures
            is_default(r),
            r.project.name@ == "unknown"@,
            r.project.language@ == "unknown"@,
    {
        BarzelConfig {
            project: ProjectConfig {
                name: "unknown".to_string(),
                language: "unknown".to_string(),
            },
            layers: LayersConfig {
                enabled: layer_names(),
                logic: LogicConfig {
                    property_based: true,
                    formal_verification: true,
                    min_coverage: None,
                },
                structural: StructuralConfig {
                    mutation_testing: true,
                    mutation_threshold: Percent { bits: percent::NINETY_FIVE },
                },
                hostile: HostileConfig { fuzzing: true, sast: true },
                operational: OperationalConfig::default(),
            },
            reporting: ReportingConfig {
                format: "json".to_string(),
                fail_on: "high".to_string(),
            },
            history: HistoryConfig::default(),
        }
    }
}

// ── validation ──────────────────────────────────────────────────────────────

pub open spec fn is_layer_name(s: Seq<char>) -> bool {
    s == "logic"@ || s == "structural"@ || s == "hostile"@ || s == "operational"@
}

pub fn known_layer(s: &str) -> (r: bool)
    ensures
        r == is_layer_name(s@),
{
    text::same(s, "logic") || text::same(s, "structural") || text::same(s, "hostile")
        || text::same(s, "operational")
}

/// The names among `names` that name no layer.
pub open spec fn unknown_layers(names: Seq<Seq<char>>) -> Seq<Seq<char>>
    decreases names.len(),
{
    if names.len() == 0 {
        Seq::empty()
    } else if is_layer_name(names.last()) {
        unknown_layers(names.drop_last())
    } else {
        unknown_layers(names.drop_last()).push(names.last())
    }
}

pub fn bad_layers(names: &Vec<String>) -> (r: Vec<String>)
    ensures
        text::views(r@) == unknown_layers(text::views(names@)),
{
    let ghost all = text::views(names@);
    let mut r: Vec<String> = Vec::new();
    let mut i: usize = 0;
    assert(all.subrange(0, 0) =~= Seq::<Seq<char>>::empty());
    assert(text::views(r@) =~= Seq::<Seq<char>>::empty());
    while i < names.len()
        invariant
            i <= names@.len(),
            all == text::views(names@),
            text::views(r@) == unknown_layers(all.subrange(0, i as int)),
        decreases names@.len() - i,
    {
        let ghost before = text::views(r@);
        proof {
            let next = all.subrange(0, i + 1);
            assert(next.drop_last() =~= all.subrange(0, i as int));
            assert(next.last() == names@[i as int]@);
        }
        if !known_layer(names[i].as_str()) {
            r.push(names[i].clone());
            assert(text::views(r@) =~= before.push(names@[i as int]@));
        }
        i += 1;
    }
    assert(all.subrange(0, i as int) =~= all);
    r
}

pub open spec fn plural(n: nat) -> Seq<char> {
    if n == 1 {
        Seq::empty()
    } else {
        "s"@
    }
}

pub fn plural_s(n: usize) -> (r: &'static str)
    ensures
        r@ == plural(n as nat),
{
    if n == 1 {
        proof {
            reveal_strlit("");
            assert(""@ =~= Seq::<char>::empty());
        }
        ""
    } else {
        "s"
    }
}

pub open spec fn is_fail_on(s: Seq<char>) -> bool {
    s == "critical"@ || s == "high"@ || s == "medium"@ || s == "low"@ || s == "any"@
}

/// Why a configuration is refused, if it is.
pub open spec fn config_fault(c: BarzelConfig) -> Option<Seq<char>> {
    let names = text::views(c.layers.enabled@);
    let bad = unknown_layers(names);
    if names.len() == 0 {
        Some(
            "layers.enabled must not be empty; valid layers: logic, structural, hostile, operational"@,
        )
    } else if bad.len() > 0 {
        Some(
            "unknown layer"@ + plural(bad.len()) + " in layers.enabled: "@ + text::joined(
                bad,
                ", "@,
            ) + "; valid layers: logic, structural, hostile, operational"@,
        )
    } else if !is_fail_on(c.reporting.fail_on@) {
        Some(
            "invalid reporting.fail_on '"@ + c.reporting.fail_on@
                + "'; valid values: critical, high, medium, low, any"@,
        )
    } else {
        None
    }
}

impl BarzelConfig {
    /// The configuration that was read, with tolerances in bounds, or the default where
    /// none could be read.
    pub fn load_for_project(read: Option<BarzelConfig>) -> (r: Self)
        ensures
            match read {
                Some(c) => r.history == c.history.normal() && r.project == c.project && r.layers
                    == c.layers && r.reporting == c.reporting,
                None => is_default(r) && r.project.name@ == "unknown"@ && r.project.language@
                    == "unknown"@,
            },
    {
        match read {
            Some(c) => BarzelConfig {
                project: c.project,
                layers: c.layers,
                reporting: c.reporting,
                history: c.history.normalized(),
            },
            None => BarzelConfig::default(),
        }
    }

    /// The default configuration with the name and language of a project.
    pub fn from_project_info(info: &ProjectInfo) -> (r: Self)
        ensures
            is_default(r),
            r.project.name@ == (match info.package_name {
                Some(n) => n@,
                None => "project"@,
            }),
            r.project.language@ == info.language.text(),
    {
        let c = BarzelConfig::default();
        let name = match &info.package_name {
            Some(n) => n.clone(),
            None => "project".to_string(),
        };
        BarzelConfig {
            project: ProjectConfig { name, language: info.language.as_str().to_string() },
            layers: c.layers,
            reporting: c.reporting,
            history: c.history,
        }
    }

    /// Rejects empty layer lists, unknown layer names, and invalid `fail_on` values.
    pub fn validate(&self) -> (r: Result<(), BarzelError>)
        ensures
            match config_fault(*self) {
                Some(m) => r matches Err(BarzelError::Config(e)) && e@ == m,
                None => r is Ok,
            },
    {
        if self.layers.enabled.len() == 0 {
            assert(text::views(self.layers.enabled@).len() == 0);
            return Err(
                BarzelError::Config(
                    "layers.enabled must not be empty; valid layers: logic, structural, hostile, operational".to_string(),
                ),
            );
        }
        let bad = bad_layers(&self.layers.enabled);
        assert(text::views(self.layers.enabled@).len() > 0);
        assert(text::views(bad@).len() == bad@.len());
        if bad.len() > 0 {
            let list = text::join(&bad, ", ");
            return Err(
                BarzelError::Config(
                    text::cat5(
                        "unknown layer",
                        plural_s(bad.len()),
                        " in layers.enabled: ",
                        list.as_str(),
                        "; valid layers: logic, structural, hostile, operational",
                    ),
                ),
            );
        }
        let f = self.reporting.fail_on.as_str();
        if !(text::same(f, "critical") || text::same(f, "high") || text::same(f, "medium")
            || text::same(f, "low") || text::same(f, "any")) {
            return Err(
                BarzelError::Config(
                    text::cat3(
                        "invalid reporting.fail_on '",
                        f,
                        "'; valid values: critical, high, medium, low, any",
                    ),
                ),
            );
        }
        Ok(())
    }
}

/// The default configuration is valid.
pub proof fn law_default_is_valid(c: BarzelConfig)
    requires
        is_default(c),
    ensures
        config_fault(c) is None,
{
    let names = text::views(c.layers.enabled@);
    assert(names.drop_last().drop_last().drop_last().drop_last() =~= Seq::<Seq<char>>::empty());
    reveal_with_fuel(unknown_layers, 5);
}

/// A configuration is refused for its layers exactly when it lists none or an unknown one.
pub proof fn law_unknown_layers(names: Seq<Seq<char>>)
    ensures
        unknown_layers(names).len() == 0 <==> forall|i: int|
            0 <= i < names.len() ==> is_layer_name(#[trigger] names[i]),
    decreases names.len(),
{
    if names.len() > 0 {
        law_unknown_layers(names.drop_last());
        if unknown_layers(names).len() == 0 {
            assert forall|i: int| 0 <= i < names.len() implies is_layer_name(#[trigger] names[i]) by {
                if i < names.len() - 1 {
                    assert(names.drop_last()[i] == names[i]);
                }
            }
        } else if forall|i: int| 0 <= i < names.len() ==> is_layer_name(#[trigger] names[i]) {
            assert forall|i: int| 0 <= i < names.drop_last().len() implies is_layer_name(
                #[trigger] names.drop_last()[i],
            ) by {
                assert(names.drop_last()[i] == names[i]);
            }
            assert(is_layer_name(names[names.len() - 1]));
        }
    }
}

/// A configuration is well exactly where it enables at least one layer and only layers that
/// there are, and fails on a severity that there is.
pub proof fn law_what_is_well_configured(c: BarzelConfig)
    ensures
        config_fault(c) is None <==> c.layers.enabled@.len() > 0 && (forall|i: int|
            0 <= i < c.layers.enabled@.len() ==> ((#[trigger] c.layers.enabled@[i])@ == "logic"@
                || c.layers.enabled@[i]@ == "structural"@ || c.layers.enabled@[i]@ == "hostile"@
                || c.layers.enabled@[i]@ == "operational"@)) && (c.reporting.fail_on@
            == "critical"@ || c.reporting.fail_on@ == "high"@ || c.reporting.fail_on@ == "medium"@
            || c.reporting.fail_on@ == "low"@ || c.reporting.fail_on@ == "any"@),
{
    let names = text::views(c.layers.enabled@);
    law_unknown_layers(names);
    assert forall|i: int| 0 <= i < names.len() implies #[trigger] names[i]
        == c.layers.enabled@[i]@ by {}
    if unknown_layers(names).len() == 0 {
        assert forall|i: int| 0 <= i < c.layers.enabled@.len() implies ((
        #[trigger] c.layers.enabled@[i])@ == "logic"@ || c.layers.enabled@[i]@ == "structural"@
            || c.layers.enabled@[i]@ == "hostile"@ || c.layers.enabled@[i]@ == "operational"@) by {
            assert(is_layer_name(names[i]));
        }
    } else {
        let i = choose|i: int| 0 <= i < names.len() && !is_layer_name(#[trigger] names[i]);
        assert(names[i] == c.layers.enabled@[i]@);
    }
}

/// The unknown layers are those names that name no layer, in order.
pub proof fn law_unknown_names_are_listed(names: Seq<Seq<char>>)
    ensures
        unknown_layers(names) == names.filter(
            |s: Seq<char>|
                s != "logic"@ && s != "structural"@ && s != "hostile"@ && s != "operational"@,
        ),
    decreases names.len(),
{
    reveal(Seq::filter);
    if names.len() > 0 {
        law_unknown_names_are_listed(names.drop_last());
    }
}

/// By default all layers are enabled, everything is looked for, nothing is asked of the
/// coverage, ninety-five percent of the mutants are to be found, high findings fail a run,
/// and fifty entries of history are kept, of which any drop counts.
pub proof fn law_what_is_default(c: BarzelConfig)
    requires
        is_default(c),
    ensures
        text::views(c.layers.enabled@) == seq![
            "logic"@,
            "structural"@,
            "hostile"@,
            "operational"@,
        ],
        c.layers.logic.min_coverage is None && c.layers.logic.property_based
            && c.layers.logic.formal_verification,
        c.layers.structural.mutation_testing && c.layers.structural.mutation_threshold.bits
            == 0x4057_c000_0000_0000,
        c.layers.hostile.fuzzing && c.layers.hostile.sast,
        c.reporting.fail_on@ == "high"@ && c.reporting.format@ == "json"@,
        c.history.enabled && c.history.max_entries_per_package == 50,
        c.history.coverage_regression_tolerance.bits == 0
            && c.history.mutation_regression_tolerance.bits == 0,
{
}

/// A tolerance is kept within nothing and one: less than nothing and what is no number is
/// nothing, more than one is one, and what lies between stays.
pub proof fn law_tolerances_are_kept_within(v: Percent)
    ensures
        v.bits <= 0x3ff0_0000_0000_0000 ==> clamped(v) == v,
        0x3ff0_0000_0000_0000 < v.bits < 0x7ff0_0000_0000_0000 ==> clamped(v).bits
            == 0x3ff0_0000_0000_0000,
        v.bits > 0x8000_0000_0000_0000 ==> clamped(v).bits == 0,
        0x7ff0_0000_0000_0000 <= v.bits < 0x8000_0000_0000_0000 ==> clamped(v).bits == 0,
{
}

/// The word for one or several.
pub proof fn law_plurals(n: nat)
    ensures
        n == 1 ==> plural(n) == Seq::<char>::empty(),
        n != 1 ==> plural(n) == "s"@,
{
}

/// What is told of a configuration that is not well.
pub proof fn law_what_a_fault_is_told_as(c: BarzelConfig)
    ensures
        c.layers.enabled@.len() == 0 ==> config_fault(c) == Some(
            "layers.enabled must not be empty; valid layers: logic, structural, hostile, operational"@,
        ),
        unknown_layers(text::views(c.layers.enabled@)).len() == 1 ==> config_fault(c) == Some(
            "unknown layer"@ + Seq::<char>::empty() + " in layers.enabled: "@ + text::joined(
                unknown_layers(text::views(c.layers.enabled@)),
                ", "@,
            ) + "; valid layers: logic, structural, hostile, operational"@,
        ),
        unknown_layers(text::views(c.layers.enabled@)).len() > 1 ==> config_fault(c) == Some(
            "unknown layer"@ + "s"@ + " in layers.enabled: "@ + text::joined(
                unknown_layers(text::views(c.layers.enabled@)),
                ", "@,
            ) + "; valid layers: logic, structural, hostile, operational"@,
        ),
        c.layers.enabled@.len() > 0 && unknown_layers(text::views(c.layers.enabled@)).len() == 0
            && config_fault(c) is Some ==> config_fault(c) == Some(
            "invalid reporting.fail_on '"@ + c.reporting.fail_on@
                + "'; valid values: critical, high, medium, low, any"@,
        ),
{
    law_unknown_names_are_listed(text::views(c.layers.enabled@));
    if c.layers.enabled@.len() == 0 {
        assert(text::views(c.layers.enabled@).len() == 0);
        assert(unknown_layers(text::views(c.layers.enabled@)).len() == 0);
    }
}

} // verus!
