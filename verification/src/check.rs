//! The tool check, and looking up reports.
use vstd::prelude::*;

use crate::config;
use crate::config::BarzelConfig;
use crate::data;
use crate::data::{Data, DataV};
use crate::detect;
use crate::detect::{Member, MemberV, WorkspaceInfo, WorkspaceInfoV, WorkspaceKind};
use crate::error::BarzelError;
use crate::report;
use crate::report::{BarzelReport, StoredReport};
use crate::text;

verus! {

// ── reports by reference ────────────────────────────────────────────────────

/// The position of the report that `id_ref` refers to: the latest for `latest`, else the
/// first whose identifier begins with it.
pub fn load_report_by_ref(stored: &Vec<StoredReport>, id_ref: &str) -> (r: Result<
    usize,
    BarzelError,
>)
    ensures
        match r {
            Ok(i) => i < stored@.len() && if id_ref@ == "latest"@ {
                forall|j: int|
                    0 <= j < stored@.len() ==> !report::is_newer(
                        #[trigger] stored@[j],
                        stored@[i as int],
                    )
            } else {
                text::begins(stored@[i as int].report.id@, id_ref@) && forall|j: int|
                    0 <= j < i ==> !text::begins((#[trigger] stored@[j]).report.id@, id_ref@)
            },
            Err(e) => (e matches BarzelError::Detection(m) && m@ == "report not found: "@ + id_ref@)
                && if id_ref@ == "latest"@ {
                stored@.len() == 0
            } else {
                forall|j: int|
                    0 <= j < stored@.len() ==> !text::begins(
                        (#[trigger] stored@[j]).report.id@,
                        id_ref@,
                    )
            },
        },
{
    let found = if text::same(id_ref, "latest") {
        BarzelReport::load_latest(stored)
    } else {
        BarzelReport::load_by_id(stored, id_ref)
    };
    match found {
        Some(i) => Ok(i),
        None => Err(BarzelError::Detection(text::cat("report not found: ", id_ref))),
    }
}

// ── configurations of members ───────────────────────────────────────────────

/// Why the configuration of a member is refused, if it is: it could not be read, or is not
/// valid.
pub open spec fn member_fault(
    path: Seq<char>,
    read: Option<Result<BarzelConfig, BarzelError>>,
) -> Option<Seq<char>> {
    match read {
        None => None,
        Some(Err(e)) => Some(path + ": "@ + e.text()),
        Some(Ok(c)) => match config::config_fault(c) {
            Some(m) => Some(path + ": "@ + ("configuration error: "@ + m)),
            None => None,
        },
    }
}

/// The first refusal among members, from position `i` on.
pub open spec fn fault_from(
    members: Seq<Member>,
    read: Seq<Option<Result<BarzelConfig, BarzelError>>>,
    i: int,
) -> Option<Seq<char>>
    decreases members.len() - i,
{
    if i < 0 || i >= members.len() {
        None
    } else {
        match member_fault(members[i].path@, read[i]) {
            Some(m) => Some(m),
            None => fault_from(members, read, i + 1),
        }
    }
}

pub open spec fn members_of(w: WorkspaceInfo) -> Seq<Member> {
    match w {
        WorkspaceInfo::Single(_) => Seq::empty(),
        WorkspaceInfo::Multi { members, .. } => members@,
    }
}

/// Refuses a workspace with a member whose own configuration is refused. `read` gives what
/// was read for each member; members without a configuration of their own are passed over.
pub fn validate_workspace_member_configs(
    workspace: &WorkspaceInfo,
    read: &Vec<Option<Result<BarzelConfig, BarzelError>>>,
) -> (r: Result<(), BarzelError>)
    requires
        read@.len() == members_of(*workspace).len(),
    ensures
        match fault_from(members_of(*workspace), read@, 0) {
            Some(m) => r matches Err(BarzelError::Config(e)) && e@ == m,
            None => r is Ok,
        },
{
    let members = match workspace {
        WorkspaceInfo::Single(_) => {
            return Ok(());
        },
        WorkspaceInfo::Multi { members, .. } => members,
    };
    let mut i: usize = 0;
    while i < members.len()
        invariant
            i <= members@.len(),
            members@ == members_of(*workspace),
            read@.len() == members@.len(),
            fault_from(members@, read@, i as int) == fault_from(members@, read@, 0),
        decreases members@.len() - i,
    {
        let path = members[i].path.as_str();
        match &read[i] {
            None => {},
            Some(Err(e)) => {
                let m = e.message();
                return Err(BarzelError::Config(text::cat3(path, ": ", m.as_str())));
            },
            Some(Ok(c)) => match c.validate() {
                Err(e) => {
                    let m = e.message();
                    return Err(BarzelError::Config(text::cat3(path, ": ", m.as_str())));
                },
                Ok(()) => {},
            },
        }
        i += 1;
    }
    Ok(())
}

// ── the tool check ──────────────────────────────────────────────────────────

/// What the check found of a tool.
#[derive(Debug)]
pub struct ToolStatus {
    pub name: String,
    pub layer: String,
    pub install: String,
    pub available: bool,
    /// The tool is needed for this project.
    pub required: bool,
    /// The tool works on this kind of project.
    pub applicable: bool,
}

/// How many required tools are missing.
pub open spec fn missing(v: Seq<ToolStatus>) -> nat
    decreases v.len(),
{
    if v.len() == 0 {
        0
    } else {
        missing(v.drop_last()) + if v.last().required && !v.last().available { 1nat } else { 0nat }
    }
}

pub fn missing_required(v: &Vec<ToolStatus>) -> (r: usize)
    ensures
        r == missing(v@),
        r <= v@.len(),
{
    let mut n: usize = 0;
    let mut i: usize = 0;
    assert(v@.subrange(0, 0) =~= Seq::<ToolStatus>::empty());
    while i < v.len()
        invariant
            n <= i <= v@.len(),
            n == missing(v@.subrange(0, i as int)),
        decreases v@.len() - i,
    {
        proof {
            let next = v@.subrange(0, i + 1);
            assert(next.drop_last() =~= v@.subrange(0, i as int));
        }
        if v[i].required && !v[i].available {
            n += 1;
        }
        i += 1;
    }
    assert(v@.subrange(0, i as int) =~= v@);
    n
}

/// The section of the check in which a tool stands.
#[derive(Debug, Clone, Copy, PartialEq, Eq, Structural)]
pub enum Section {
    Required,
    LayerDisabled,
    NotApplicable,
}

/// The section of a tool. A required tool that works on other projects only stands in
/// both: with the required ones here, and with those that are not applicable.
pub open spec fn stands_in(s: ToolStatus, section: Section) -> bool {
    match section {
        Section::Required => s.required,
        Section::LayerDisabled => s.applicable && !s.required,
        Section::NotApplicable => !s.applicable,
    }
}

pub fn in_section(s: &ToolStatus, section: Section) -> (r: bool)
    ensures
        r == stands_in(*s, section),
{
    match section {
        Section::Required => s.required,
        Section::LayerDisabled => s.applicable && !s.required,
        Section::NotApplicable => !s.applicable,
    }
}

/// Every tool stands in a section, and in one only unless it is required where it does not
/// apply.
pub proof fn law_every_tool_has_a_section(s: ToolStatus)
    ensures
        exists|section: Section| stands_in(s, section),
        (s.required ==> s.applicable) ==> forall|a: Section, b: Section|
            stands_in(s, a) && stands_in(s, b) ==> a == b,
{
    if s.required {
        assert(stands_in(s, Section::Required));
    } else if s.applicable {
        assert(stands_in(s, Section::LayerDisabled));
    } else {
        assert(stands_in(s, Section::NotApplicable));
    }
}

pub open spec fn member_paths(members: Seq<Member>) -> Seq<Seq<char>> {
    members.map_values(|m: Member| m.path@)
}

/// The members of a workspace by name: all of up to seven, else seven and how many more.
pub open spec fn member_names(members: Seq<Member>) -> Seq<char> {
    if members.len() <= 7 {
        text::joined(member_paths(members), ", "@)
    } else {
        text::joined(member_paths(members.subrange(0, 7)), ", "@) + ", +"@ + text::decimal(
            (members.len() - 7) as nat,
        ) + " more"@
    }
}

fn paths_up_to(members: &Vec<Member>, n: usize) -> (r: Vec<String>)
    requires
        n <= members@.len(),
    ensures
        text::views(r@) == member_paths(members@.subrange(0, n as int)),
{
    let mut r: Vec<String> = Vec::new();
    let mut i: usize = 0;
    while i < n
        invariant
            i <= n <= members@.len(),
            r@.len() == i,
            forall|k: int| 0 <= k < i ==> (#[trigger] r@[k])@ == members@[k].path@,
        decreases n - i,
    {
        r.push(members[i].path.clone());
        i += 1;
    }
    assert(text::views(r@) =~= member_paths(members@.subrange(0, n as int)));
    r
}

/// The members of a workspace by name.
pub fn member_list(members: &Vec<Member>) -> (r: String)
    ensures
        r@ == member_names(members@),
{
    if members.len() <= 7 {
        let all = paths_up_to(members, members.len());
        assert(members@.subrange(0, members@.len() as int) =~= members@);
        text::join(&all, ", ")
    } else {
        let shown = paths_up_to(members, 7);
        let list = text::join(&shown, ", ");
        let rest = text::number((members.len() - 7) as u64);
        text::cat4(list.as_str(), ", +", rest.as_str(), " more")
    }
}

/// The heading of the check of a workspace.
pub fn workspace_heading(kind: WorkspaceKind, members: &Vec<Member>) -> (r: String)
    ensures
        r@ == "Barzel workspace check — "@ + kind.text() + " ("@ + text::decimal(members@.len())
            + " members: "@ + member_names(members@) + ")"@,
{
    let n = text::number(members.len() as u64);
    let list = member_list(members);
    let front = text::cat5(
        "Barzel workspace check — ",
        kind.as_str(),
        " (",
        n.as_str(),
        " members: ",
    );
    text::cat3(front.as_str(), list.as_str(), ")")
}

// ── the check as a document ─────────────────────────────────────────────────

/// A list of texts in a document.
pub open spec fn texts_tree(v: Seq<Seq<char>>) -> DataV {
    DataV::List(v.map_values(|s: Seq<char>| DataV::Text(s)))
}

/// A text in a document, if there is one.
pub open spec fn opt_text_tree(s: Option<Seq<char>>) -> DataV {
    match s {
        Some(s) => DataV::Text(s),
        None => DataV::Null,
    }
}

/// What a document says of a member of a workspace.
pub open spec fn package_tree(m: MemberV) -> DataV {
    DataV::Fields(
        seq![
            ("path"@, DataV::Text(m.path)),
            ("name"@, opt_text_tree(m.info.package_name)),
            ("language"@, DataV::Text(m.info.language.text())),
        ],
    )
}

/// What a document says of a check: of what, how many required tools are missing, and of
/// each tool.
pub open spec fn check_tree(workspace: WorkspaceInfoV, missing: nat, tools: DataV) -> DataV {
    match workspace {
        WorkspaceInfoV::Single(p) => DataV::Fields(
            seq![
                ("language"@, DataV::Text(p.language.text())),
                (
                    "frameworks"@,
                    DataV::Fields(
                        seq![
                            ("is_nextjs"@, DataV::Bool(p.is_nextjs)),
                            ("has_ai_deps"@, DataV::Bool(p.has_ai_deps)),
                            ("ai_frameworks"@, texts_tree(p.ai_frameworks)),
                        ],
                    ),
                ),
                ("missing_required_tools"@, DataV::Number(Some(missing as u64))),
                ("tools"@, tools),
            ],
        ),
        WorkspaceInfoV::Multi { kind, members } => DataV::Fields(
            seq![
                ("is_workspace"@, DataV::Bool(true)),
                ("workspace_kind"@, DataV::Text(kind.text())),
                ("packages"@, DataV::List(members.map_values(|m: MemberV| package_tree(m)))),
                ("missing_required_tools"@, DataV::Number(Some(missing as u64))),
                ("tools"@, tools),
            ],
        ),
    }
}

/// A list of texts.
fn texts_data(v: &Vec<String>) -> (r: Data)
    ensures
        r@ == texts_tree(text::views(v@)),
{
    let mut list: Vec<Data> = Vec::new();
    let mut i: usize = 0;
    while i < v.len()
        invariant
            i <= v@.len(),
            list@.len() == i,
            forall|k: int| 0 <= k < i ==> (#[trigger] list@[k])@ == DataV::Text(v@[k]@),
        decreases v@.len() - i,
    {
        list.push(Data::Text(v[i].clone()));
        i += 1;
    }
    let r = Data::List(list);
    assert(r@->List_0 =~= texts_tree(text::views(v@))->List_0);
    r
}

/// What a document says of a member of a workspace.
fn package_data(m: &Member) -> (r: Data)
    ensures
        r@ == package_tree(m@),
{
    let name = match &m.info.package_name {
        Some(s) => Data::Text(s.clone()),
        None => Data::Null,
    };
    let r = Data::Fields(
        vec![
            ("path".to_string(), Data::Text(m.path.clone())),
            ("name".to_string(), name),
            ("language".to_string(), Data::Text(m.info.language.as_str().to_string())),
        ],
    );
    proof {
        reveal_with_fuel(data::tree_of, 2);
        assert(r@->Fields_0 =~= package_tree(m@)->Fields_0);
    }
    r
}

/// The members of a workspace in a document.
fn packages_data(members: &Vec<Member>) -> (r: Data)
    ensures
        r@ == DataV::List(
            detect::members_view(members@).map_values(|m: MemberV| package_tree(m)),
        ),
{
    let mut list: Vec<Data> = Vec::new();
    let mut i: usize = 0;
    while i < members.len()
        invariant
            i <= members@.len(),
            list@.len() == i,
            forall|k: int| 0 <= k < i ==> (#[trigger] list@[k])@ == package_tree(members@[k]@),
        decreases members@.len() - i,
    {
        list.push(package_data(&members[i]));
        i += 1;
    }
    let r = Data::List(list);
    assert(r@->List_0 =~= detect::members_view(members@).map_values(
        |m: MemberV| package_tree(m),
    ));
    r
}

/// A check as a document. `tools` says of each tool what was found.
pub fn build_check_payload(
    workspace: &WorkspaceInfo,
    statuses: &Vec<ToolStatus>,
    tools: Data,
) -> (r: Data)
    ensures
        r@ == check_tree(workspace@, missing(statuses@), tools@),
{
    let n = Data::Number(Some(missing_required(statuses) as u64));
    match workspace {
        WorkspaceInfo::Single(p) => {
            let frameworks = Data::Fields(
                vec![
                    ("is_nextjs".to_string(), Data::Bool(p.frameworks.is_nextjs)),
                    ("has_ai_deps".to_string(), Data::Bool(p.frameworks.has_ai_deps)),
                    ("ai_frameworks".to_string(), texts_data(&p.frameworks.ai_frameworks)),
                ],
            );
            let r = Data::Fields(
                vec![
                    ("language".to_string(), Data::Text(p.language.as_str().to_string())),
                    ("frameworks".to_string(), frameworks),
                    ("missing_required_tools".to_string(), n),
                    ("tools".to_string(), tools),
                ],
            );
            proof {
                reveal_with_fuel(data::tree_of, 2);
                let whole = check_tree(workspace@, missing(statuses@), tools@)->Fields_0;
                assert(frameworks@->Fields_0 =~= whole[1].1->Fields_0);
                assert(r@->Fields_0 =~= whole);
            }
            r
        },
        WorkspaceInfo::Multi { kind, members } => {
            let r = Data::Fields(
                vec![
                    ("is_workspace".to_string(), Data::Bool(true)),
                    ("workspace_kind".to_string(), Data::Text(kind.as_str().to_string())),
                    ("packages".to_string(), packages_data(members)),
                    ("missing_required_tools".to_string(), n),
                    ("tools".to_string(), tools),
                ],
            );
            proof {
                reveal_with_fuel(data::tree_of, 2);
                let whole = check_tree(workspace@, missing(statuses@), tools@)->Fields_0;
                assert(r@->Fields_0 =~= whole);
            }
            r
        },
    }
}

// ── laws ────────────────────────────────────────────────────────────────────

/// As many required tools are missing as are required and not available.
pub proof fn law_missing_tools_are_required(v: Seq<ToolStatus>)
    ensures
        missing(v) == v.filter(|s: ToolStatus| s.required && !s.available).len(),
    decreases v.len(),
{
    reveal(Seq::filter);
    if v.len() > 0 {
        law_missing_tools_are_required(v.drop_last());
    }
}

/// A tool stands among the required ones where it is required; where it is not, among those
/// of disabled layers if it works on the project, else among those that do not.
pub proof fn law_sections_of_tools(s: ToolStatus)
    ensures
        stands_in(s, Section::Required) <==> s.required,
        stands_in(s, Section::LayerDisabled) <==> !s.required && s.applicable,
        stands_in(s, Section::NotApplicable) <==> !s.applicable,
{
}

/// The first member whose configuration cannot be read or is not well is the one that is
/// told of, by its path; members without a configuration are well.
pub proof fn law_first_fault_is_told(
    members: Seq<Member>,
    read: Seq<Option<Result<BarzelConfig, BarzelError>>>,
    i: int,
)
    requires
        members.len() == read.len(),
    ensures
        0 <= i < members.len() && (read[i] matches Some(Err(e))) && (forall|k: int|
            0 <= k < i ==> member_fault((#[trigger] members[k]).path@, read[k]) is None) ==> ({
            let e = read[i]->0->Err_0;
            fault_from(members, read, 0) == Some(members[i].path@ + ": "@ + e.text())
        }),
        0 <= i < members.len() && (read[i] matches Some(Ok(c)) && config::config_fault(c) is Some)
            && (forall|k: int|
            0 <= k < i ==> member_fault((#[trigger] members[k]).path@, read[k]) is None)
            ==> fault_from(members, read, 0) is Some,
        (forall|k: int|
            0 <= k < members.len() ==> (read[k] is None || (read[k] matches Some(Ok(c))
                && config::config_fault(c) is None)) && (#[trigger] members[k]).path@.len() >= 0)
            ==> fault_from(members, read, 0) is None,
{
    if 0 <= i < members.len() && (forall|k: int|
        0 <= k < i ==> member_fault((#[trigger] members[k]).path@, read[k]) is None) {
        lemma_fault_at(members, read, 0, i);
    }
    if forall|k: int|
        0 <= k < members.len() ==> (read[k] is None || (read[k] matches Some(Ok(c))
            && config::config_fault(c) is None)) && (#[trigger] members[k]).path@.len() >= 0 {
        lemma_no_fault(members, read, 0);
    }
}

proof fn lemma_fault_at(
    members: Seq<Member>,
    read: Seq<Option<Result<BarzelConfig, BarzelError>>>,
    from: int,
    i: int,
)
    requires
        0 <= from <= i < members.len(),
        forall|k: int|
            from <= k < i ==> member_fault((#[trigger] members[k]).path@, read[k]) is None,
    ensures
        fault_from(members, read, from) == fault_from(members, read, i),
    decreases i - from,
{
    if from < i {
        assert(member_fault(members[from].path@, read[from]) is None);
        lemma_fault_at(members, read, from + 1, i);
    }
}

proof fn lemma_no_fault(
    members: Seq<Member>,
    read: Seq<Option<Result<BarzelConfig, BarzelError>>>,
    from: int,
)
    requires
        0 <= from <= members.len(),
        forall|k: int|
            0 <= k < members.len() ==> (read[k] is None || (read[k] matches Some(Ok(c))
                && config::config_fault(c) is None)) && (#[trigger] members[k]).path@.len() >= 0,
    ensures
        fault_from(members, read, from) is None,
    decreases members.len() - from,
{
    if from < members.len() {
        assert(members[from].path@.len() >= 0);
        lemma_no_fault(members, read, from + 1);
    }
}

/// Up to seven members are listed by name; of more the first seven, and how many more there
/// are.
pub proof fn law_members_are_listed(members: Seq<Member>)
    ensures
        members.len() == 1 ==> member_names(members) == members[0].path@,
        members.len() == 2 ==> member_names(members) == members[0].path@ + ", "@ + members[1].path@,
        members.len() <= 7 ==> member_names(members) == text::joined(member_paths(members), ", "@),
        members.len() > 7 ==> member_names(members) == text::joined(
            member_paths(members.subrange(0, 7)),
            ", "@,
        ) + ", +"@ + text::decimal((members.len() - 7) as nat) + " more"@,
{
    let v = member_paths(members);
    if members.len() == 2 {
        assert(v.drop_last() =~= seq![members[0].path@]);
        assert(v.last() == members[1].path@);
        assert(text::joined(seq![members[0].path@], ", "@) == members[0].path@);
    }
}

/// The answer to a check of a single project holds its language, its frameworks, the number
/// of missing tools and the tools; that of a workspace its kind and its packages.
pub proof fn law_what_a_check_answers(w: WorkspaceInfoV, missing: nat, tools: DataV)
    requires
        missing <= u64::MAX,
    ensures
        check_tree(w, missing, tools).field("missing_required_tools"@) == Some(
            DataV::Number(Some(missing as u64)),
        ),
        check_tree(w, missing, tools).field("tools"@) == Some(tools),
        w matches WorkspaceInfoV::Single(p) ==> check_tree(w, missing, tools).field("language"@)
            == Some(DataV::Text(p.language.text())),
        w matches WorkspaceInfoV::Multi { kind, members } ==> check_tree(
            w,
            missing,
            tools,
        ).field("is_workspace"@) == Some(DataV::Bool(true)) && check_tree(w, missing, tools).field(
            "workspace_kind"@,
        ) == Some(DataV::Text(kind.text())) && (check_tree(w, missing, tools).field(
            "packages"@,
        ) matches Some(DataV::List(v)) && v.len() == members.len()),
{
    reveal_strlit("language");
    reveal_strlit("frameworks");
    reveal_strlit("missing_required_tools");
    reveal_strlit("tools");
    reveal_strlit("is_workspace");
    reveal_strlit("workspace_kind");
    reveal_strlit("packages");
    assert("language"@.len() == 8 && "frameworks"@.len() == 10 && "tools"@.len() == 5);
    assert("missing_required_tools"@.len() == 22 && "is_workspace"@.len() == 12);
    assert("workspace_kind"@.len() == 14 && "packages"@.len() == 8);
    reveal_with_fuel(data::field_from, 6);
}

/// What is told of a member whose configuration is not well.
pub proof fn law_what_a_faulty_member_is_told_as(
    path: Seq<char>,
    c: BarzelConfig,
    m: Seq<char>,
    e: BarzelError,
)
    ensures
        config::config_fault(c) == Some(m) ==> member_fault(path, Some(Ok(c))) == Some(
            path + ": "@ + ("configuration error: "@ + m),
        ),
        config::config_fault(c) is None ==> member_fault(path, Some(Ok(c))) is None,
        member_fault(path, Some(Err(e))) == Some(path + ": "@ + e.text()),
        member_fault(path, None) is None,
{
}

/// A package is told by its path, its name and its language; the frameworks of a project by
/// what is known of them.
pub proof fn law_what_is_told_of_a_package(m: MemberV, p: crate::detect::ProjectInfoV, missing: nat, tools: DataV)
    ensures
        package_tree(m).field("path"@) == Some(DataV::Text(m.path)),
        package_tree(m).field("name"@) == Some(opt_text_tree(m.info.package_name)),
        package_tree(m).field("language"@) == Some(DataV::Text(m.info.language.text())),
        check_tree(WorkspaceInfoV::Single(p), missing, tools).field("frameworks"@) matches Some(f)
            && f.field("is_nextjs"@) == Some(DataV::Bool(p.is_nextjs)) && f.field("has_ai_deps"@)
            == Some(DataV::Bool(p.has_ai_deps)) && f.field("ai_frameworks"@) == Some(
            texts_tree(p.ai_frameworks),
        ),
{
    reveal_strlit("path");
    reveal_strlit("name");
    reveal_strlit("language");
    reveal_strlit("frameworks");
    reveal_strlit("is_nextjs");
    reveal_strlit("has_ai_deps");
    reveal_strlit("ai_frameworks");
    assert("path"@[0] == 'p' && "name"@[0] == 'n' && "language"@.len() == 8);
    assert("frameworks"@.len() == 10 && "is_nextjs"@.len() == 9 && "has_ai_deps"@.len() == 11);
    assert("ai_frameworks"@.len() == 13 && "path"@.len() == 4 && "name"@.len() == 4);
    reveal_with_fuel(data::field_from, 6);
}

} // verus!
