//! Local metric snapshots for trend and regression detection.
use vstd::prelude::*;

use crate::cache;
use crate::order;
use crate::order::{stable_order, Key};
use crate::percent::Percent;
use crate::report;
use crate::report::{BarzelReport, LayerResult, LayerStatus, ReportStatus, WorkspaceMemberReport};
use crate::text;
use crate::time::Timestamp;

verus! {

/// One metric-bearing layer inside a history entry.
#[derive(Debug)]
pub struct HistoryLayerMetric {
    pub runner: String,
    pub status: LayerStatus,
    pub mutation_score: Option<Percent>,
    pub coverage: Option<Percent>,
}

pub struct HistoryLayerMetricV {
    pub runner: Seq<char>,
    pub status: LayerStatus,
    pub mutation_score: Option<Percent>,
    pub coverage: Option<Percent>,
}

/// Snapshot of metric data from one project (or workspace member) for one run.
#[derive(Debug)]
pub struct HistoryEntry {
    pub report_id: String,
    pub timestamp: Timestamp,
    pub project: String,
    /// Relative path within a workspace, absent for single-project runs.
    pub package_path: Option<String>,
    pub language: String,
    pub status: ReportStatus,
    /// Only layers with a mutation score or a coverage.
    pub layers: Vec<HistoryLayerMetric>,
}

pub struct HistoryEntryV {
    pub report_id: Seq<char>,
    pub timestamp: Timestamp,
    pub project: Seq<char>,
    pub package_path: Option<Seq<char>>,
    pub language: Seq<char>,
    pub status: ReportStatus,
    pub layers: Seq<HistoryLayerMetricV>,
}

impl View for HistoryLayerMetric {
    type V = HistoryLayerMetricV;

    open spec fn view(&self) -> HistoryLayerMetricV {
        HistoryLayerMetricV {
            runner: self.runner@,
            status: self.status,
            mutation_score: self.mutation_score,
            coverage: self.coverage,
        }
    }
}

pub open spec fn metrics_view(v: Seq<HistoryLayerMetric>) -> Seq<HistoryLayerMetricV> {
    v.map_values(|m: HistoryLayerMetric| m@)
}

impl View for HistoryEntry {
    type V = HistoryEntryV;

    open spec fn view(&self) -> HistoryEntryV {
        HistoryEntryV {
            report_id: self.report_id@,
            timestamp: self.timestamp,
            project: self.project@,
            package_path: text::opt_view(self.package_path),
            language: self.language@,
            status: self.status,
            layers: metrics_view(self.layers@),
        }
    }
}

pub open spec fn entries_view(v: Seq<HistoryEntry>) -> Seq<HistoryEntryV> {
    v.map_values(|e: HistoryEntry| e@)
}

// ── entries of a report ─────────────────────────────────────────────────────

pub open spec fn has_metric(l: report::LayerResultV) -> bool {
    l.metrics.mutation_score is Some || l.metrics.coverage is Some
}

pub open spec fn metric_of(l: report::LayerResultV) -> HistoryLayerMetricV {
    HistoryLayerMetricV {
        runner: l.runner,
        status: l.status,
        mutation_score: l.metrics.mutation_score,
        coverage: l.metrics.coverage,
    }
}

/// The layers that carry a measurement.
pub open spec fn measured(layers: Seq<report::LayerResultV>) -> Seq<HistoryLayerMetricV>
    decreases layers.len(),
{
    if layers.len() == 0 {
        Seq::empty()
    } else if has_metric(layers.last()) {
        measured(layers.drop_last()).push(metric_of(layers.last()))
    } else {
        measured(layers.drop_last())
    }
}

pub open spec fn name_or(r: BarzelReport, other: Seq<char>) -> Seq<char> {
    match r.project.package_name {
        Some(n) => n@,
        None => other,
    }
}

pub open spec fn member_entry(r: BarzelReport, m: WorkspaceMemberReport) -> HistoryEntryV {
    HistoryEntryV {
        report_id: r.id@,
        timestamp: r.timestamp,
        project: name_or(r, "workspace"@),
        package_path: Some(m.package_path@),
        language: m.language@,
        status: m.status,
        layers: measured(report::layers_view(m.layers@)),
    }
}

pub open spec fn member_entries(r: BarzelReport, members: Seq<WorkspaceMemberReport>) -> Seq<
    HistoryEntryV,
>
    decreases members.len(),
{
    if members.len() == 0 {
        Seq::empty()
    } else {
        let before = member_entries(r, members.drop_last());
        if measured(report::layers_view(members.last().layers@)).len() > 0 {
            before.push(member_entry(r, members.last()))
        } else {
            before
        }
    }
}

/// The entries of a report: one for a project with measurements, or one for each member
/// of a workspace with measurements.
pub open spec fn entries_of(r: BarzelReport) -> Seq<HistoryEntryV> {
    if r.workspace_members@.len() == 0 {
        let layers = measured(report::layers_view(r.layers@));
        if layers.len() == 0 {
            Seq::empty()
        } else {
            seq![
                HistoryEntryV {
                    report_id: r.id@,
                    timestamp: r.timestamp,
                    project: name_or(r, r.project.language.text()),
                    package_path: None,
                    language: r.project.language.text(),
                    status: r.status,
                    layers,
                },
            ]
        }
    } else {
        member_entries(r, r.workspace_members@)
    }
}

/// The layers that carry a measurement.
pub fn metric_layers(layers: &Vec<LayerResult>) -> (r: Vec<HistoryLayerMetric>)
    ensures
        metrics_view(r@) == measured(report::layers_view(layers@)),
{
    let ghost all = report::layers_view(layers@);
    let mut r: Vec<HistoryLayerMetric> = Vec::new();
    let mut i: usize = 0;
    assert(all.subrange(0, 0) =~= Seq::<report::LayerResultV>::empty());
    assert(metrics_view(r@) =~= Seq::<HistoryLayerMetricV>::empty());
    while i < layers.len()
        invariant
            i <= layers@.len(),
            all == report::layers_view(layers@),
            metrics_view(r@) == measured(all.subrange(0, i as int)),
        decreases layers@.len() - i,
    {
        let l = &layers[i];
        let ghost before = metrics_view(r@);
        proof {
            let next = all.subrange(0, i + 1);
            assert(next.drop_last() =~= all.subrange(0, i as int));
            assert(next.last() == l@);
        }
        if l.metrics.mutation_score.is_some() || l.metrics.coverage.is_some() {
            let m = HistoryLayerMetric {
                runner: l.runner.clone(),
                status: l.status,
                mutation_score: l.metrics.mutation_score,
                coverage: l.metrics.coverage,
            };
            r.push(m);
            assert(metrics_view(r@) =~= before.push(metric_of(l@)));
        }
        i += 1;
    }
    assert(all.subrange(0, i as int) =~= all);
    r
}

fn project_name(r: &BarzelReport, other: &str) -> (s: String)
    ensures
        s@ == name_or(*r, other@),
{
    match &r.project.package_name {
        Some(n) => n.clone(),
        None => other.to_string(),
    }
}

/// The history entries of a completed report.
pub fn entries_from_report(report: &BarzelReport) -> (r: Vec<HistoryEntry>)
    ensures
        entries_view(r@) == entries_of(*report),
{
    let mut r: Vec<HistoryEntry> = Vec::new();
    assert(entries_view(r@) =~= Seq::<HistoryEntryV>::empty());
    if report.workspace_members.len() == 0 {
        let layers = metric_layers(&report.layers);
        assert(metrics_view(layers@).len() == layers@.len());
        if layers.len() > 0 {
            let e = HistoryEntry {
                report_id: report.id.clone(),
                timestamp: report.timestamp,
                project: project_name(report, report.project.language.as_str()),
                package_path: None,
                language: report.project.language.as_str().to_string(),
                status: report.status,
                layers,
            };
            r.push(e);
            assert(entries_view(r@) =~= entries_of(*report));
        }
        return r;
    }
    let ghost all = report.workspace_members@;
    let mut i: usize = 0;
    assert(all.subrange(0, 0) =~= Seq::<WorkspaceMemberReport>::empty());
    while i < report.workspace_members.len()
        invariant
            i <= report.workspace_members@.len(),
            all == report.workspace_members@,
            entries_view(r@) == member_entries(*report, all.subrange(0, i as int)),
        decreases report.workspace_members@.len() - i,
    {
        let m = &report.workspace_members[i];
        let ghost before = entries_view(r@);
        proof {
            let next = all.subrange(0, i + 1);
            assert(next.drop_last() =~= all.subrange(0, i as int));
            assert(next.last() == *m);
        }
        let layers = metric_layers(&m.layers);
        assert(metrics_view(layers@).len() == layers@.len());
        if layers.len() > 0 {
            let e = HistoryEntry {
                report_id: report.id.clone(),
                timestamp: report.timestamp,
                project: project_name(report, "workspace"),
                package_path: Some(m.package_path.clone()),
                language: m.language.clone(),
                status: m.status,
                layers,
            };
            r.push(e);
            assert(entries_view(r@) =~= before.push(member_entry(*report, *m)));
        }
        i += 1;
    }
    assert(all.subrange(0, i as int) =~= all);
    r
}

proof fn lemma_measured_carry_metrics(layers: Seq<report::LayerResultV>, i: int)
    requires
        0 <= i < measured(layers).len(),
    ensures
        measured(layers)[i].mutation_score is Some || measured(layers)[i].coverage is Some,
    decreases layers.len(),
{
    if layers.len() > 0 {
        if i < measured(layers.drop_last()).len() {
            lemma_measured_carry_metrics(layers.drop_last(), i);
        }
    }
}

/// Every entry has a layer, and every layer of an entry a measurement; a single project
/// has at most one entry.
pub proof fn law_entries_carry_metrics(r: BarzelReport, i: int, k: int)
    requires
        0 <= i < entries_of(r).len(),
        0 <= k < entries_of(r)[i].layers.len(),
    ensures
        entries_of(r)[i].layers.len() > 0,
        entries_of(r)[i].layers[k].mutation_score is Some || entries_of(r)[i].layers[k].coverage is Some,
        entries_of(r)[i].report_id == r.id@,
        r.workspace_members@.len() == 0 ==> entries_of(r).len() == 1,
{
    if r.workspace_members@.len() == 0 {
        lemma_measured_carry_metrics(report::layers_view(r.layers@), k);
    } else {
        lemma_member_entries(r, r.workspace_members@, i, k);
    }
}

proof fn lemma_member_entries(
    r: BarzelReport,
    members: Seq<WorkspaceMemberReport>,
    i: int,
    k: int,
)
    requires
        0 <= i < member_entries(r, members).len(),
        0 <= k < member_entries(r, members)[i].layers.len(),
    ensures
        member_entries(r, members)[i].layers[k].mutation_score is Some || member_entries(
            r,
            members,
        )[i].layers[k].coverage is Some,
        member_entries(r, members)[i].report_id == r.id@,
    decreases members.len(),
{
    if members.len() > 0 {
        if i < member_entries(r, members.drop_last()).len() {
            lemma_member_entries(r, members.drop_last(), i, k);
        } else {
            lemma_measured_carry_metrics(report::layers_view(members.last().layers@), k);
        }
    }
}

// ── file names ──────────────────────────────────────────────────────────────

pub const FNV_START: u64 = 0xcbf2_9ce4_8422_2325;

pub const FNV_FACTOR: u64 = 0x0000_0100_0000_01b3;

/// The FNV-1a hash of bytes, in 64 bits.
pub open spec fn fnv(bytes: Seq<u8>) -> u64
    decreases bytes.len(),
{
    if bytes.len() == 0 {
        FNV_START
    } else {
        (fnv(bytes.drop_last()) ^ (bytes.last() as u64)).wrapping_mul(FNV_FACTOR)
    }
}

pub open spec fn hex_digit(d: nat) -> char {
    if d < 10 {
        ('0' as int + d) as char
    } else {
        ('a' as int + (d - 10)) as char
    }
}

/// The last `width` hexadecimal digits of a number.
pub open spec fn hex(n: nat, width: nat) -> Seq<char>
    decreases width,
{
    if width == 0 {
        Seq::empty()
    } else {
        hex(n / 16, (width - 1) as nat).push(hex_digit(n % 16))
    }
}

fn hex_char(d: u64) -> (c: char)
    requires
        d < 16,
    ensures
        c == hex_digit(d as nat),
{
    if d < 10 {
        ('0' as u8 + d as u8) as char
    } else {
        ('a' as u8 + (d - 10) as u8) as char
    }
}

fn hex_text(n: u64, width: u8) -> (r: String)
    ensures
        r@ == hex(n as nat, width as nat),
    decreases width,
{
    if width == 0 {
        String::new()
    } else {
        let mut r = hex_text(n / 16, width - 1);
        r.push(hex_char(n % 16));
        r
    }
}

/// A short stable hash of a text: the last eight hexadecimal digits of its FNV-1a hash.
pub fn hash8(s: &str) -> (r: String)
    ensures
        r@ == hashed(s@),
{
    let bytes = s.as_bytes();
    let mut h: u64 = FNV_START;
    let mut i: usize = 0;
    assert(bytes@.subrange(0, 0) =~= Seq::<u8>::empty());
    while i < bytes.len()
        invariant
            i <= bytes@.len(),
            h == fnv(bytes@.subrange(0, i as int)),
        decreases bytes@.len() - i,
    {
        proof {
            let next = bytes@.subrange(0, i + 1);
            assert(next.drop_last() =~= bytes@.subrange(0, i as int));
        }
        h = (h ^ (bytes[i] as u64)).wrapping_mul(FNV_FACTOR);
        i += 1;
    }
    assert(bytes@.subrange(0, i as int) =~= bytes@);
    hex_text(h, 8)
}

/// What tells the entries of one report apart: the package, or else the language.
pub open spec fn suffix_of(e: HistoryEntryV) -> Seq<char> {
    match e.package_path {
        Some(p) => p,
        None => e.language,
    }
}

/// The short hash of a text.
pub open spec fn hashed(s: Seq<char>) -> Seq<char> {
    hex(fnv(vstd::utf8::encode_utf8(s)) as nat, 8)
}

/// The name of the file of an entry.
pub open spec fn entry_name(e: HistoryEntryV) -> Seq<char> {
    cache::sanitized(e.report_id) + "-"@ + cache::sanitized(suffix_of(e)) + "-"@ + hashed(
        suffix_of(e),
    ) + ".json"@
}

proof fn lemma_hex_len(n: nat, width: nat)
    ensures
        hex(n, width).len() == width,
    decreases width,
{
    if width > 0 {
        lemma_hex_len(n / 16, (width - 1) as nat);
    }
}

/// Entries share a file only where their packages have the same hash, and, as identifiers
/// have one length, where the identifiers of their reports are the same once they are made
/// safe, from the first character to the last.
pub proof fn law_entry_names_tell_apart(a: HistoryEntryV, b: HistoryEntryV)
    requires
        entry_name(a) == entry_name(b),
    ensures
        hashed(suffix_of(a)) == hashed(suffix_of(b)),
        a.report_id.len() == b.report_id.len() ==> cache::sanitized(a.report_id)
            == cache::sanitized(b.report_id),
{
    reveal_strlit(".json");
    let (x, y) = (entry_name(a), entry_name(b));
    let n = x.len() as int;
    lemma_hex_len(fnv(vstd::utf8::encode_utf8(suffix_of(a))) as nat, 8);
    lemma_hex_len(fnv(vstd::utf8::encode_utf8(suffix_of(b))) as nat, 8);
    assert(hashed(suffix_of(a)) =~= x.subrange(n - 13, n - 5));
    assert(hashed(suffix_of(b)) =~= y.subrange(n - 13, n - 5));
    if a.report_id.len() == b.report_id.len() {
        let k = a.report_id.len() as int;
        assert(cache::sanitized(a.report_id) =~= x.subrange(0, k));
        assert(cache::sanitized(b.report_id) =~= y.subrange(0, k));
    }
}

/// The name of the file of an entry. Suffixes that are the same once they are made safe
/// are told apart by their hash.
pub fn entry_file_name(entry: &HistoryEntry) -> (r: String)
    ensures
        r@ == entry_name(entry@),
{
    let raw = match &entry.package_path {
        Some(p) => p.as_str(),
        None => entry.language.as_str(),
    };
    let id = cache::sanitize(entry.report_id.as_str());
    let suffix = cache::sanitize(raw);
    let hash = hash8(raw);
    let front = text::cat5(id.as_str(), "-", suffix.as_str(), "-", hash.as_str());
    text::cat(front.as_str(), ".json")
}

// ── stored entries ──────────────────────────────────────────────────────────

pub open spec fn time_key(t: Timestamp) -> order::KeyV {
    order::KeyV { major: t.secs as int, minor: t.nanos as int, texts: Seq::empty() }
}

pub open spec fn entry_keys(v: Seq<HistoryEntry>) -> Seq<order::KeyV> {
    v.map_values(|e: HistoryEntry| time_key(e.timestamp))
}

/// The positions of entries from the oldest to the newest; of entries of the same time
/// the first stays first.
pub fn load_history_entries(entries: &Vec<HistoryEntry>) -> (r: Vec<usize>)
    ensures
        order::is_stable_order(order::positions(r@), entry_keys(entries@)),
{
    let mut keys: Vec<Key> = Vec::new();
    let mut i: usize = 0;
    while i < entries.len()
        invariant
            i <= entries@.len(),
            keys@.len() == i,
            forall|k: int| 0 <= k < i ==> (#[trigger] keys@[k])@ == time_key(entries@[k].timestamp),
        decreases entries@.len() - i,
    {
        let texts: Vec<String> = Vec::new();
        assert(text::views(texts@) =~= Seq::<Seq<char>>::empty());
        let t = entries[i].timestamp;
        keys.push(Key { major: t.secs, minor: t.nanos as i64, texts });
        i += 1;
    }
    assert(order::keys_of(keys@) =~= entry_keys(entries@));
    stable_order(&keys)
}

/// The entries are of the same package and language.
pub open spec fn same_group(a: HistoryEntry, b: HistoryEntry) -> bool {
    text::opt_view(a.package_path) == text::opt_view(b.package_path) && a.language@ == b.language@
}

/// The entry at `j` is newer than the one at `i`; of two entries of the same time the one
/// that is listed later.
pub open spec fn is_later(v: Seq<HistoryEntry>, j: int, i: int) -> bool {
    v[j].timestamp.is_after(v[i].timestamp) || (v[j].timestamp == v[i].timestamp && j > i)
}

/// How many of the first `n` entries are of the group of the entry at `i` and newer.
pub open spec fn later_in_group(v: Seq<HistoryEntry>, i: int, n: int) -> nat
    decreases n,
{
    if n <= 0 {
        0
    } else {
        later_in_group(v, i, n - 1) + if same_group(v[n - 1], v[i]) && is_later(v, n - 1, i) {
            1nat
        } else {
            0nat
        }
    }
}

/// The entry at `i` is too old: its group has enough newer ones.
pub open spec fn is_outdated(v: Seq<HistoryEntry>, max: int, i: int) -> bool {
    max > 0 && later_in_group(v, i, v.len() as int) >= max
}

fn grouped(a: &HistoryEntry, b: &HistoryEntry) -> (r: bool)
    ensures
        r == same_group(*a, *b),
{
    let same_package = match (&a.package_path, &b.package_path) {
        (Some(x), Some(y)) => text::same(x.as_str(), y.as_str()),
        (None, None) => true,
        _ => false,
    };
    same_package && text::same(a.language.as_str(), b.language.as_str())
}

/// Which of the entries, listed in any order, are to be removed so that each package and
/// language keeps its newest `max` entries; 0 keeps all.
pub fn outdated(entries: &Vec<HistoryEntry>, max: usize) -> (r: Vec<bool>)
    ensures
        r@.len() == entries@.len(),
        forall|i: int|
            0 <= i < r@.len() ==> #[trigger] r@[i] == is_outdated(entries@, max as int, i),
{
    let mut r: Vec<bool> = Vec::new();
    let mut i: usize = 0;
    while i < entries.len()
        invariant
            i <= entries@.len(),
            r@.len() == i,
            forall|k: int| 0 <= k < i ==> #[trigger] r@[k] == is_outdated(entries@, max as int, k),
        decreases entries@.len() - i,
    {
        let mut n: usize = 0;
        let mut j: usize = 0;
        while j < entries.len()
            invariant
                i < entries@.len(),
                n <= j <= entries@.len(),
                n == later_in_group(entries@, i as int, j as int),
            decreases entries@.len() - j,
        {
            if grouped(&entries[j], &entries[i]) && later(entries, j, i) {
                n += 1;
            }
            j += 1;
        }
        r.push(max > 0 && n >= max);
        i += 1;
    }
    r
}

fn later(entries: &Vec<HistoryEntry>, j: usize, i: usize) -> (r: bool)
    requires
        i < entries@.len(),
        j < entries@.len(),
    ensures
        r == is_later(entries@, j as int, i as int),
{
    let a = entries[j].timestamp;
    let b = entries[i].timestamp;
    a.after(b) || (!b.after(a) && j > i)
}

/// Pruning takes the oldest first: what is newer than a kept entry of its group is kept.
pub proof fn law_pruning_keeps_the_newest(v: Seq<HistoryEntry>, max: int, i: int, j: int)
    requires
        0 <= i < v.len(),
        0 <= j < v.len(),
        same_group(v[i], v[j]),
        is_later(v, j, i),
        !is_outdated(v, max, i),
    ensures
        !is_outdated(v, max, j),
{
    lemma_newer_has_fewer(v, i, j, v.len() as int);
}

proof fn lemma_newer_has_fewer(v: Seq<HistoryEntry>, i: int, j: int, n: int)
    requires
        same_group(v[i], v[j]),
        is_later(v, j, i),
    ensures
        later_in_group(v, j, n) <= later_in_group(v, i, n),
    decreases n,
{
    if n > 0 {
        lemma_newer_has_fewer(v, i, j, n - 1);
    }
}

/// How many of the first `n` entries are of the group of `e` and kept.
pub open spec fn kept_in_group(v: Seq<HistoryEntry>, max: int, e: HistoryEntry, n: int) -> nat
    decreases n,
{
    if n <= 0 {
        0
    } else {
        kept_in_group(v, max, e, n - 1) + if same_group(v[n - 1], e) && !is_outdated(
            v,
            max,
            n - 1,
        ) {
            1nat
        } else {
            0nat
        }
    }
}

/// With a limit, no package and language keeps more entries than it allows.
pub proof fn law_pruning_meets_the_limit(v: Seq<HistoryEntry>, max: int, e: HistoryEntry)
    requires
        max > 0,
    ensures
        kept_in_group(v, max, e, v.len() as int) <= max,
{
    let n = v.len() as int;
    if kept_in_group(v, max, e, n) > 0 {
        let o = lemma_oldest_kept(v, max, e, n);
        lemma_kept_are_newer(v, max, e, o, n);
    }
}

/// The oldest of the kept entries of a group.
proof fn lemma_oldest_kept(v: Seq<HistoryEntry>, max: int, e: HistoryEntry, n: int) -> (o: int)
    requires
        n <= v.len(),
        kept_in_group(v, max, e, n) > 0,
    ensures
        0 <= o < n,
        same_group(v[o], e),
        !is_outdated(v, max, o),
        forall|k: int|
            0 <= k < n && k != o && same_group(v[k], e) && !is_outdated(v, max, k)
                ==> #[trigger] is_later(v, k, o),
    decreases n,
{
    let last = n - 1;
    if kept_in_group(v, max, e, last) == 0 {
        lemma_none_kept(v, max, e, last);
        last
    } else {
        let o = lemma_oldest_kept(v, max, e, last);
        if same_group(v[last], e) && !is_outdated(v, max, last) && is_later(v, o, last) {
            assert forall|k: int|
                0 <= k < n && k != last && same_group(v[k], e) && !is_outdated(
                    v,
                    max,
                    k,
                ) implies #[trigger] is_later(v, k, last) by {
                if k != o {
                    assert(is_later(v, k, o));
                }
            }
            last
        } else {
            o
        }
    }
}

proof fn lemma_none_kept(v: Seq<HistoryEntry>, max: int, e: HistoryEntry, n: int)
    requires
        kept_in_group(v, max, e, n) == 0,
    ensures
        forall|k: int|
            0 <= k < n ==> !(same_group(#[trigger] v[k], e) && !is_outdated(v, max, k)),
    decreases n,
{
    if n > 0 {
        lemma_none_kept(v, max, e, n - 1);
    }
}

/// All kept entries of a group but its oldest are newer than that.
proof fn lemma_kept_are_newer(v: Seq<HistoryEntry>, max: int, e: HistoryEntry, o: int, n: int)
    requires
        n <= v.len(),
        same_group(v[o], e),
        forall|k: int|
            0 <= k < v.len() && k != o && same_group(v[k], e) && !is_outdated(v, max, k)
                ==> #[trigger] is_later(v, k, o),
    ensures
        kept_in_group(v, max, e, n) <= later_in_group(v, o, n) + if 0 <= o < n {
            1nat
        } else {
            0nat
        },
    decreases n,
{
    if n > 0 {
        lemma_kept_are_newer(v, max, e, o, n - 1);
        let last = n - 1;
        if last != o && same_group(v[last], e) && !is_outdated(v, max, last) {
            assert(is_later(v, last, o));
        }
    }
}

/// Without a limit nothing is pruned.
pub proof fn law_no_limit_keeps_all(v: Seq<HistoryEntry>, i: int)
    ensures
        !is_outdated(v, 0, i),
{
}

// ── laws ────────────────────────────────────────────────────────────────────

/// Of the layers of a report those with a mutation score or a coverage are kept, in order,
/// with their runner, their status and what was measured.
pub proof fn law_measurements_are_kept(
    layers: Seq<report::LayerResultV>,
    l: report::LayerResultV,
)
    ensures
        measured(Seq::empty()) == Seq::<HistoryLayerMetricV>::empty(),
        l.metrics.mutation_score is Some || l.metrics.coverage is Some ==> measured(layers.push(l))
            == measured(layers).push(
            HistoryLayerMetricV {
                runner: l.runner,
                status: l.status,
                mutation_score: l.metrics.mutation_score,
                coverage: l.metrics.coverage,
            },
        ),
        l.metrics.mutation_score is None && l.metrics.coverage is None ==> measured(layers.push(l))
            == measured(layers),
{
    assert(layers.push(l).drop_last() =~= layers);
}

/// A report of one project gives one entry, with its own status; a report of a workspace
/// one for each member with a measurement, with the status of the member.
pub proof fn law_who_gets_an_entry(
    r: BarzelReport,
    members: Seq<WorkspaceMemberReport>,
    m: WorkspaceMemberReport,
)
    ensures
        r.workspace_members@.len() == 0 && measured(report::layers_view(r.layers@)).len() > 0
            ==> entries_of(r).len() == 1 && entries_of(r)[0].report_id == r.id@
            && entries_of(r)[0].timestamp == r.timestamp && entries_of(r)[0].package_path is None
            && entries_of(r)[0].language == r.project.language.text() && entries_of(r)[0].status
            == r.status && entries_of(r)[0].layers == measured(report::layers_view(r.layers@)) && (
        r.project.package_name matches Some(n) ==> entries_of(r)[0].project == n@),
        r.workspace_members@.len() == 0 && measured(report::layers_view(r.layers@)).len() == 0
            ==> entries_of(r).len() == 0,
        r.workspace_members@.len() > 0 ==> entries_of(r) == member_entries(r, r.workspace_members@),
        member_entries(r, Seq::empty()) == Seq::<HistoryEntryV>::empty(),
        measured(report::layers_view(m.layers@)).len() == 0 ==> member_entries(r, members.push(m))
            == member_entries(r, members),
        measured(report::layers_view(m.layers@)).len() > 0 ==> ({
            let all = member_entries(r, members.push(m));
            &&& all.len() == member_entries(r, members).len() + 1
            &&& all.drop_last() == member_entries(r, members)
            &&& all.last().report_id == r.id@ && all.last().timestamp == r.timestamp
            &&& all.last().package_path == Some(m.package_path@) && all.last().language
                == m.language@ && all.last().status == m.status
            &&& all.last().layers == measured(report::layers_view(m.layers@))
        }),
{
    assert(members.push(m).drop_last() =~= members);
    if measured(report::layers_view(m.layers@)).len() > 0 {
        assert(member_entries(r, members.push(m)).drop_last() =~= member_entries(r, members));
    }
}

/// The file of an entry is named after its report, its package or language, and a hash of
/// these.
pub proof fn law_entries_of_packages_are_apart(e: HistoryEntryV)
    ensures
        e.package_path matches Some(p) ==> suffix_of(e) == p,
        e.package_path is None ==> suffix_of(e) == e.language,
        entry_name(e) == cache::sanitized(e.report_id) + "-"@ + cache::sanitized(suffix_of(e)) + "-"@
            + hashed(suffix_of(e)) + ".json"@,
{
}

/// Entries are listed from the oldest to the newest, each once.
pub proof fn law_oldest_entries_come_first(v: Seq<HistoryEntry>, order: Seq<int>, i: int, j: int)
    requires
        order::is_stable_order(order, entry_keys(v)),
        0 <= i < j < order.len(),
    ensures
        v[order[i]].timestamp.secs <= v[order[j]].timestamp.secs,
        v[order[i]].timestamp.secs == v[order[j]].timestamp.secs ==> v[order[i]].timestamp.nanos
            <= v[order[j]].timestamp.nanos,
        v[order[i]].timestamp == v[order[j]].timestamp ==> order[i] < order[j],
        order.len() == v.len(),
{
    let keys = entry_keys(v);
    assert(order::goes_before(keys, order[i], order[j]));
    assert(0 <= order[i] < keys.len() && 0 <= order[j] < keys.len());
}

/// An entry is outdated exactly where the limit is not 0 and at least so many entries of the
/// same package and language are newer: of a later time, or of the same and listed later.
pub proof fn law_newer_entries_outdate(v: Seq<HistoryEntry>, max: int, i: int)
    requires
        0 <= i < v.len(),
    ensures
        is_outdated(v, max, i) <==> max > 0 && Seq::new(v.len(), |k: int| k).filter(
            |k: int|
                text::opt_view(v[k].package_path) == text::opt_view(v[i].package_path)
                    && v[k].language@ == v[i].language@ && (v[k].timestamp.secs
                    > v[i].timestamp.secs || (v[k].timestamp.secs == v[i].timestamp.secs
                    && v[k].timestamp.nanos > v[i].timestamp.nanos) || (v[k].timestamp
                    == v[i].timestamp && k > i)),
        ).len() >= max,
{
    lemma_newer_count(v, i, v.len() as int);
}

proof fn lemma_newer_count(v: Seq<HistoryEntry>, i: int, n: int)
    requires
        0 <= i < v.len(),
        0 <= n <= v.len(),
    ensures
        later_in_group(v, i, n) == Seq::new(n as nat, |k: int| k).filter(
            |k: int|
                text::opt_view(v[k].package_path) == text::opt_view(v[i].package_path)
                    && v[k].language@ == v[i].language@ && (v[k].timestamp.secs
                    > v[i].timestamp.secs || (v[k].timestamp.secs == v[i].timestamp.secs
                    && v[k].timestamp.nanos > v[i].timestamp.nanos) || (v[k].timestamp
                    == v[i].timestamp && k > i)),
        ).len(),
    decreases n,
{
    reveal(Seq::filter);
    let all = Seq::new(n as nat, |k: int| k);
    if n > 0 {
        lemma_newer_count(v, i, n - 1);
        assert(all.drop_last() =~= Seq::new((n - 1) as nat, |k: int| k));
        assert(all.last() == n - 1);
    }
}

/// The hash of a name starts from the offset of FNV-1a and takes in byte after byte: it is
/// mixed in, then all is multiplied by the prime of FNV. The last eight digits of it are
/// written in base sixteen.
pub proof fn law_names_are_hashed_byte_by_byte(bytes: Seq<u8>, b: u8, n: nat, s: Seq<char>)
    ensures
        fnv(Seq::empty()) == 0xcbf2_9ce4_8422_2325,
        fnv(bytes.push(b)) == (fnv(bytes) ^ (b as u64)).wrapping_mul(0x0000_0100_0000_01b3),
        hashed(s).len() == 8,
        hex(n, 1) == seq![hex_digit(n % 16)],
        hex(n, 8).last() == hex_digit(n % 16),
        hex_digit(0) == '0' && hex_digit(9) == '9' && hex_digit(10) == 'a' && hex_digit(15) == 'f',
{
    assert(bytes.push(b).drop_last() =~= bytes);
    lemma_hex_len(fnv(vstd::utf8::encode_utf8(s)) as nat, 8);
    reveal_with_fuel(hex, 2);
    assert(hex(n, 1) =~= seq![hex_digit(n % 16)]);
}

/// An entry of a member is named after the project, or is of a workspace without a name.
pub proof fn law_names_of_entries(r: BarzelReport, m: WorkspaceMemberReport)
    ensures
        r.project.package_name matches Some(n) ==> member_entry(r, m).project == n@,
        r.project.package_name is None ==> member_entry(r, m).project == "workspace"@,
{
}

} // verus!
