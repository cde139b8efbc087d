//! The command-line model: the commands, their arguments and the value parsers.
use vstd::prelude::*;
use crate::text::{chars_of, decimal, str_to_string};

verus! {

/// The whole command line.
#[derive(Debug)]
pub struct Cli {
    pub command: Commands,
}

/// The subcommands.
#[derive(Debug)]
pub enum Commands {
    Lint(LintArgs),
    Baseline(BaselineArgs),
    Waiver(WaiverArgs),
    Route(RouteArgs),
    Render(RenderArgs),
    ListRules(ListRulesArgs),
    Doctor(DoctorArgs),
    Coverage(CoverageArgs),
    Freshness(FreshnessArgs),
    Diagnostics(DiagnosticsArgs),
    Review(ReviewArgs),
    Explain(ExplainArgs),
    ValidateConfig(ValidateConfigArgs),
}

/// Arguments of `lint`.
#[derive(Debug)]
pub struct LintArgs {
    pub root: Option<String>,
    pub config: Option<String>,
    pub base: Option<String>,
    pub head: Option<String>,
    pub files: Option<String>,
    pub staged: bool,
    pub worktree: bool,
    pub merge_base: Option<String>,
    pub mode: LintMode,
    pub format: OutputFormat,
    pub detail: DiagnosticDetail,
    pub diagnostics_page: usize,
    pub diagnostics_page_size: usize,
    pub fail_on_uncovered_change: bool,
    pub fail_on_stale_docs: bool,
    pub baseline: Option<String>,
    pub waivers: Option<String>,
    pub output: Option<String>,
}

/// Arguments of `baseline`.
#[derive(Debug)]
pub struct BaselineArgs {
    pub command: BaselineCommands,
}

/// The subcommands of `baseline`.
#[derive(Debug)]
pub enum BaselineCommands {
    Create(BaselineCreateArgs),
}

/// Arguments of `baseline create`.
#[derive(Debug)]
pub struct BaselineCreateArgs {
    pub report: String,
    pub output: String,
}

/// Arguments of `waiver`.
#[derive(Debug)]
pub struct WaiverArgs {
    pub command: WaiverCommands,
}

/// The subcommands of `waiver`.
#[derive(Debug)]
pub enum WaiverCommands {
    Add(WaiverAddArgs),
}

/// Arguments of `waiver add`.
#[derive(Debug)]
pub struct WaiverAddArgs {
    pub root: Option<String>,
    pub report: String,
    pub id: String,
    pub reason: String,
    pub owner: String,
    pub expires_at: String,
    pub scope_rule_ids: Vec<String>,
    pub scope_paths: Vec<String>,
    pub waivers: String,
    pub format: WaiverOutputFormat,
}

/// Arguments of `coverage`.
#[derive(Debug)]
pub struct CoverageArgs {
    pub root: Option<String>,
    pub config: Option<String>,
    pub format: CoverageOutputFormat,
}

/// Arguments of `route`.
#[derive(Debug)]
pub struct RouteArgs {
    pub root: Option<String>,
    pub config: Option<String>,
    pub paths: Option<String>,
    pub module: Vec<String>,
    pub intent: Vec<String>,
    pub detail: RouteDetail,
    pub limit: Option<usize>,
    pub format: RouteOutputFormat,
}

/// Arguments of `render`.
#[derive(Debug)]
pub struct RenderArgs {
    pub root: Option<String>,
    pub config: Option<String>,
    pub view: RenderView,
    pub paths: Option<String>,
    pub module: Vec<String>,
    pub intent: Vec<String>,
    pub limit: Option<usize>,
    pub format: RenderOutputFormat,
}

/// Arguments of `list-rules`.
#[derive(Debug)]
pub struct ListRulesArgs {
    pub root: Option<String>,
    pub config: Option<String>,
    pub format: ListRulesOutputFormat,
}

/// Arguments of `doctor`.
#[derive(Debug)]
pub struct DoctorArgs {
    pub root: Option<String>,
    pub config: Option<String>,
    pub format: DoctorOutputFormat,
}

/// Arguments of `freshness`.
#[derive(Debug)]
pub struct FreshnessArgs {
    pub root: Option<String>,
    pub config: Option<String>,
    pub format: FreshnessOutputFormat,
}

/// Arguments of `diagnostics`.
#[derive(Debug)]
pub struct DiagnosticsArgs {
    pub command: DiagnosticsCommands,
}

/// The subcommands of `diagnostics`.
#[derive(Debug)]
pub enum DiagnosticsCommands {
    Show(DiagnosticsShowArgs),
}

/// Arguments of `diagnostics show`.
#[derive(Debug)]
pub struct DiagnosticsShowArgs {
    pub report: String,
    pub id: String,
    pub format: DiagnosticsOutputFormat,
}

/// Arguments of `review`.
#[derive(Debug)]
pub struct ReviewArgs {
    pub command: ReviewCommands,
}

/// The subcommands of `review`.
#[derive(Debug)]
pub enum ReviewCommands {
    Mark(ReviewMarkArgs),
}

/// Arguments of `review mark`.
#[derive(Debug)]
pub struct ReviewMarkArgs {
    pub root: Option<String>,
    pub paths: Vec<String>,
    pub report: Option<String>,
    pub id: Option<String>,
    pub date: Option<String>,
    pub commit: Option<String>,
    pub format: ReviewOutputFormat,
}

/// Arguments of `explain`.
#[derive(Debug)]
pub struct ExplainArgs {
    pub path: String,
    pub root: Option<String>,
    pub config: Option<String>,
}

/// Arguments of `validate-config`.
#[derive(Debug)]
pub struct ValidateConfigArgs {
    pub root: Option<String>,
    pub config: Option<String>,
    pub strict: bool,
}

/// Whether lint problems fail the run.
#[derive(Debug, Clone, Copy, PartialEq, Eq, Structural)]
pub enum LintMode {
    Warn,
    Enforce,
}

/// Output formats of `lint`.
#[derive(Debug, Clone, Copy, PartialEq, Eq, Structural)]
pub enum OutputFormat {
    Text,
    Json,
    Sarif,
}

/// Output formats of `list-rules`.
#[derive(Debug, Clone, Copy, PartialEq, Eq, Structural)]
pub enum ListRulesOutputFormat {
    Text,
    Json,
}

/// Output formats of `doctor`.
#[derive(Debug, Clone, Copy, PartialEq, Eq, Structural)]
pub enum DoctorOutputFormat {
    Text,
    Json,
}

/// Output formats of `coverage`.
#[derive(Debug, Clone, Copy, PartialEq, Eq, Structural)]
pub enum CoverageOutputFormat {
    Text,
    Json,
}

/// Output formats of `route`.
#[derive(Debug, Clone, Copy, PartialEq, Eq, Structural)]
pub enum RouteOutputFormat {
    Text,
    Json,
}

/// Output formats of `render`.
#[derive(Debug, Clone, Copy, PartialEq, Eq, Structural)]
pub enum RenderOutputFormat {
    Text,
    Json,
}

/// The views `render` can produce.
#[derive(Debug, Clone, Copy, PartialEq, Eq, Structural)]
pub enum RenderView {
    CatalogSummary,
    OwnershipSummary,
    NavigationSummary,
    WorkspaceSummary,
}

/// Detail levels of `route`.
#[derive(Debug, Clone, Copy, PartialEq, Eq, Structural)]
pub enum RouteDetail {
    Compact,
    Full,
}

/// Output formats of `freshness`.
#[derive(Debug, Clone, Copy, PartialEq, Eq, Structural)]
pub enum FreshnessOutputFormat {
    Text,
    Json,
}

/// Output formats of `diagnostics`.
#[derive(Debug, Clone, Copy, PartialEq, Eq, Structural)]
pub enum DiagnosticsOutputFormat {
    Text,
    Json,
}

/// Output formats of `review`.
#[derive(Debug, Clone, Copy, PartialEq, Eq, Structural)]
pub enum ReviewOutputFormat {
    Text,
    Json,
}

/// Output formats of `waiver`.
#[derive(Debug, Clone, Copy, PartialEq, Eq, Structural)]
pub enum WaiverOutputFormat {
    Text,
    Json,
}

/// Detail levels of lint diagnostics.
#[derive(Debug, Clone, Copy, PartialEq, Eq, Structural)]
pub enum DiagnosticDetail {
    Summary,
    Compact,
    Full,
}

/// The command-line spelling of a detail level.
pub open spec fn detail_name(d: DiagnosticDetail) -> Seq<char> {
    match d {
        DiagnosticDetail::Summary => "summary"@,
        DiagnosticDetail::Compact => "compact"@,
        DiagnosticDetail::Full => "full"@,
    }
}

impl DiagnosticDetail {
    /// The command-line spelling of this detail level.
    pub fn as_str(self) -> (s: &'static str)
        ensures
            s@ == detail_name(self),
    {
        match self {
            DiagnosticDetail::Summary => "summary",
            DiagnosticDetail::Compact => "compact",
            DiagnosticDetail::Full => "full",
        }
    }
}

/// `c` is an ASCII digit.
pub open spec fn is_digit(c: char) -> bool {
    '0' <= c && c <= '9'
}

/// The value of an ASCII digit.
pub open spec fn digit_value(c: char) -> nat {
    (c as int - '0' as int) as nat
}

/// The number that the digit string `s` spells.
pub open spec fn digits_value(s: Seq<char>) -> nat
    decreases s.len(),
{
    if s.len() == 0 {
        0
    } else {
        digits_value(s.drop_last()) * 10 + digit_value(s.last())
    }
}

/// The digits of `s` once an optional leading `+` is dropped.
pub open spec fn unsigned_digits(s: Seq<char>) -> Seq<char> {
    if s.len() > 0 && s[0] == '+' {
        s.drop_first()
    } else {
        s
    }
}

/// `s` is what `usize::from_str` accepts as to its shape: an optional `+`, then one
/// or more ASCII digits.
pub open spec fn is_unsigned_literal(s: Seq<char>) -> bool {
    unsigned_digits(s).len() > 0 && is_unsigned_literal_digits(unsigned_digits(s))
}

/// The number `s` spells, or `None` where `usize::from_str` fails on it.
pub open spec fn parse_usize(s: Seq<char>) -> Option<nat> {
    if is_unsigned_literal(s) && digits_value(unsigned_digits(s)) <= usize::MAX {
        Some(digits_value(unsigned_digits(s)))
    } else {
        None
    }
}

/// Parses an unsigned decimal the way `str::parse::<usize>` does.
pub fn parse_usize_str(value: &str) -> (r: Option<usize>)
    ensures
        match r {
            Some(n) => parse_usize(value@) == Some(n as nat),
            None => parse_usize(value@) is None,
        },
{
    let v = chars_of(value);
    let mut start: usize = 0;
    if v.len() > 0 && v[0] == '+' {
        start = 1;
    }
    let ghost d = unsigned_digits(value@);
    proof {
        assert(d =~= v@.subrange(start as int, v.len() as int));
    }
    if start == v.len() {
        return None;
    }
    let mut acc: usize = 0;
    let mut i: usize = start;
    while i < v.len()
        invariant
            start <= i <= v.len(),
            d == v@.subrange(start as int, v.len() as int),
            d == unsigned_digits(value@),
            v@ == value@,
            forall|k: int| 0 <= k < i - start ==> is_digit(#[trigger] d[k]),
            acc as nat == digits_value(d.take(i - start)),
        decreases v.len() - i,
    {
        let c = v[i];
        if !('0' <= c && c <= '9') {
            proof {
                assert(!is_digit(d[i - start]));
                assert(!is_unsigned_literal_digits(d));
                assert(unsigned_digits(value@) == d);
                assert(!is_unsigned_literal(value@));
                assert(parse_usize(value@) is None);
            }
            return None;
        }
        let dv = (c as u32 - '0' as u32) as usize;
        proof {
            assert(d.take(i - start + 1).drop_last() =~= d.take(i - start));
            assert(d.take(i - start + 1).last() == c);
        }
        if acc > (usize::MAX - dv) / 10 {
            proof {
                // the value already exceeds usize::MAX and only grows with more digits
                assert(acc * 10 + dv > usize::MAX) by (nonlinear_arith)
                    requires
                        acc > (usize::MAX - dv) / 10,
                        dv <= 9,
                ;
                assert(digits_value(d.take(i - start + 1)) == acc * 10 + dv);
                lemma_digits_value_grows(d, i - start + 1);
                assert(unsigned_digits(value@) == d);
                if is_unsigned_literal(value@) {
                    assert(is_unsigned_literal_digits(d));
                }
                assert(parse_usize(value@) is None);
            }
            return None;
        }
        acc = acc * 10 + dv;
        i += 1;
    }
    proof {
        assert(d.take(v.len() - start) =~= d);
    }
    Some(acc)
}

proof fn lemma_digits_value_grows(d: Seq<char>, k: int)
    requires
        0 <= k <= d.len(),
        forall|i: int| 0 <= i < k ==> is_digit(#[trigger] d[i]),
    ensures
        is_unsigned_literal_digits(d) ==> digits_value(d) >= digits_value(d.take(k)),
    decreases d.len() - k,
{
    if k < d.len() {
        if is_unsigned_literal_digits(d) {
            lemma_digits_value_grows(d, k + 1);
            assert(d.take(k + 1).drop_last() =~= d.take(k));
            assert(digits_value(d.take(k + 1)) == digits_value(d.take(k)) * 10 + digit_value(d[k]));
            assert(digits_value(d.take(k)) * 10 >= digits_value(d.take(k))) by (nonlinear_arith);
        }
    } else {
        assert(d.take(k) =~= d);
    }
}

/// All characters of `d` are ASCII digits.
pub open spec fn is_unsigned_literal_digits(d: Seq<char>) -> bool {
    forall|i: int| 0 <= i < d.len() ==> is_digit(#[trigger] d[i])
}

/// The result `parse_positive_usize` gives: a positive number, or the message saying
/// why the text is not one.
pub open spec fn positive_usize_result(s: Seq<char>) -> Result<nat, Seq<char>> {
    match parse_usize(s) {
        Some(n) => if n == 0 {
            Err("value must be greater than 0"@)
        } else {
            Ok(n)
        },
        None => Err("invalid positive integer: "@ + s),
    }
}

/// Parses a positive integer option value.
pub fn parse_positive_usize(value: &str) -> (r: Result<usize, String>)
    ensures
        match r {
            Ok(n) => positive_usize_result(value@) == Ok::<nat, Seq<char>>(n as nat),
            Err(e) => positive_usize_result(value@) == Err::<nat, Seq<char>>(e@),
        },
{
    match parse_usize_str(value) {
        Some(n) => {
            if n == 0 {
                Err(str_to_string("value must be greater than 0"))
            } else {
                Ok(n)
            }
        },
        None => {
            let mut s = str_to_string("invalid positive integer: ");
            s.append(value);
            Err(s)
        },
    }
}

/// `s` has the shape `YYYY-MM-DD` with a month in 1..=12 and a day in 1..=31.
pub open spec fn is_iso_date(s: Seq<char>) -> bool {
    &&& s.len() == 10
    &&& s[4] == '-'
    &&& s[7] == '-'
    &&& forall|i: int| 0 <= i < 10 && i != 4 && i != 7 ==> is_digit(#[trigger] s[i])
    &&& 1 <= digit_value(s[5]) * 10 + digit_value(s[6]) <= 12
    &&& 1 <= digit_value(s[8]) * 10 + digit_value(s[9]) <= 31
}

/// Checks a `YYYY-MM-DD` option value; the value itself when it is one.
pub fn parse_iso_date(value: &str) -> (r: Result<String, String>)
    ensures
        match r {
            Ok(s) => is_iso_date(value@) && s@ == value@,
            Err(e) => !is_iso_date(value@) && e@ == "invalid YYYY-MM-DD date: "@ + value@,
        },
{
    let v = chars_of(value);
    let mut ok = v.len() == 10;
    if ok {
        ok = v[4] == '-' && v[7] == '-';
    }
    let mut i: usize = 0;
    while ok && i < 10
        invariant
            ok ==> v@.len() == 10 && v@[4] == '-' && v@[7] == '-',
            ok ==> forall|k: int| 0 <= k < i && k != 4 && k != 7 ==> is_digit(#[trigger] v@[k]),
            i <= 10,
            !ok ==> !is_iso_date(value@),
            v@ == value@,
        decreases 10 - i + (if ok { 1int } else { 0int }),
    {
        if i != 4 && i != 7 && !('0' <= v[i] && v[i] <= '9') {
            ok = false;
        } else {
            i += 1;
        }
    }
    if ok {
        let month = (v[5] as u32 - '0' as u32) * 10 + (v[6] as u32 - '0' as u32);
        let day = (v[8] as u32 - '0' as u32) * 10 + (v[9] as u32 - '0' as u32);
        if 1 <= month && month <= 12 && 1 <= day && day <= 31 {
            return Ok(str_to_string(value));
        }
    }
    let mut e = str_to_string("invalid YYYY-MM-DD date: ");
    e.append(value);
    Err(e)
}

} // verus!
