//! The branches of a replay: one per session file, one per dynamic workflow
//! run, and the workflow membership of sub-agents.
use vstd::prelude::*;

use crate::json::{TraceRecord, short_id, spec_short_id, spec_u64_at, string_at, string_at_is, strs, u64_at};
use crate::text::{chars_eq, clone_opt_string, clone_string, opt_view, slice_chars, str_eq, str_to_chars};
use crate::trace_events::{data_string, or_text, or_u64, record_type, workflow_branch_id, workflow_id};
use crate::trace_model::{ArtifactHeader, Projection, RawSession, TraceBranch};
use crate::sort::{KeyView, SortKey, key_lt, key_view, key_views, law_stable_order_is_sorted_and_stable, lemma_sorted_order_perm, stable_order, stable_sort, stably_sorted};

verus! {

/// The values of a branch.
pub struct BranchV {
    pub id: Seq<char>,
    pub parent_id: Option<Seq<char>>,
    pub label: Seq<char>,
    pub role: Seq<char>,
    pub context_id: Seq<char>,
    pub forked: bool,
    pub created_at: u64,
    pub removed_at: Option<u64>,
    pub status: Seq<char>,
}

pub open spec fn branch_view(b: TraceBranch) -> BranchV {
    BranchV {
        id: b.id@,
        parent_id: opt_view(b.parent_id),
        label: b.label@,
        role: b.role@,
        context_id: b.context_id@,
        forked: b.forked,
        created_at: b.created_at,
        removed_at: b.removed_at,
        status: b.status@,
    }
}

pub open spec fn branch_views(bs: Seq<TraceBranch>) -> Seq<BranchV> {
    bs.map_values(|b: TraceBranch| branch_view(b))
}

/// The branch of a session file. The root session is the supervisor;
/// every other one a sub-agent, labelled by its projection or its short id.
/// A forked session shares its parent's context. A settled one was removed
/// when its file last changed.
pub open spec fn spec_branch_for(h: ArtifactHeader, p: Projection, root: Seq<char>) -> BranchV {
    let is_root = h.id@ == root;
    let forked = opt_view(p.mode) == Some("fork"@);
    let removed_at = if p.settled {
        Some(h.updated_at)
    } else {
        None
    };
    BranchV {
        id: h.id@,
        parent_id: opt_view(h.parent_session),
        label: if is_root {
            or_text(opt_view(p.title), "Supervisor"@)
        } else {
            match opt_view(p.label) {
                Some(l) => l,
                None => or_text(opt_view(p.title), spec_short_id(h.id@)),
            }
        },
        role: if is_root {
            "supervisor"@
        } else {
            "subagent"@
        },
        context_id: if forked {
            or_text(opt_view(h.parent_session), h.id@)
        } else {
            h.id@
        },
        forked,
        created_at: h.created_at,
        removed_at,
        status: if removed_at is Some {
            "removed"@
        } else {
            "recorded"@
        },
    }
}

/// Context law: a forked session shares its parent's context, so its branch
/// has the context of its (unforked) parent's branch; an unforked session
/// opens a context of its own, named by its id, different from its parent's.
pub proof fn law_fork_shares_parent_context(
    child: ArtifactHeader,
    child_projection: Projection,
    parent: ArtifactHeader,
    parent_projection: Projection,
    root: Seq<char>,
)
    requires
        opt_view(child.parent_session) == Some(parent.id@),
        child.id@ != parent.id@,
        opt_view(parent_projection.mode) != Some("fork"@),
    ensures
        spec_branch_for(child, child_projection, root).forked ==> spec_branch_for(child, child_projection, root).context_id
            == spec_branch_for(parent, parent_projection, root).context_id,
        !spec_branch_for(child, child_projection, root).forked ==> spec_branch_for(
            child,
            child_projection,
            root,
        ).context_id == child.id@ && spec_branch_for(child, child_projection, root).context_id != spec_branch_for(
            parent,
            parent_projection,
            root,
        ).context_id,
        spec_branch_for(child, child_projection, root).forked <==> opt_view(child_projection.mode) == Some("fork"@),
{
}

fn or_string(o: &Option<String>, d: String) -> (r: String)
    ensures
        r@ == or_text(opt_view(*o), d@),
{
    match o {
        Some(x) => clone_string(x),
        None => d,
    }
}

pub fn branch_for(header: &ArtifactHeader, projection: &Projection, root_id: &str) -> (r: TraceBranch)
    ensures
        branch_view(r) == spec_branch_for(*header, *projection, root_id@),
{
    let is_root = str_eq(header.id.as_str(), root_id);
    let forked = match &projection.mode {
        Some(m) => str_eq(m.as_str(), "fork"),
        None => false,
    };
    let removed_at = if projection.settled {
        Some(header.updated_at)
    } else {
        None
    };
    let label = if is_root {
        or_string(&projection.title, String::from_str("Supervisor"))
    } else {
        match &projection.label {
            Some(l) => clone_string(l),
            None => or_string(&projection.title, short_id(header.id.as_str())),
        }
    };
    TraceBranch {
        id: clone_string(&header.id),
        parent_id: clone_opt_string(&header.parent_session),
        label,
        role: if is_root {
            String::from_str("supervisor")
        } else {
            String::from_str("subagent")
        },
        context_id: if forked {
            or_string(&header.parent_session, clone_string(&header.id))
        } else {
            clone_string(&header.id)
        },
        forked,
        created_at: header.created_at,
        removed_at,
        status: if projection.settled {
            String::from_str("removed")
        } else {
            String::from_str("recorded")
        },
    }
}

// ----- workflow runs -----
/// The context of the branch with the given id; where two share it, the
/// later one counts.
pub open spec fn context_of(bs: Seq<BranchV>, id: Seq<char>) -> Option<Seq<char>>
    decreases bs.len(),
{
    if bs.len() == 0 {
        None
    } else if bs.last().id == id {
        Some(bs.last().context_id)
    } else {
        context_of(bs.drop_last(), id)
    }
}

fn find_context(bs: &Vec<TraceBranch>, id: &str) -> (r: Option<String>)
    ensures
        opt_view(r) == context_of(branch_views(bs@), id@),
{
    let ghost bv = branch_views(bs@);
    let mut j = bs.len();
    assert(bv.take(j as int) =~= bv);
    while j > 0
        invariant
            j <= bs.len(),
            bv == branch_views(bs@),
            context_of(bv, id@) == context_of(bv.take(j as int), id@),
        decreases j,
    {
        let b = &bs[j - 1];
        assert(bv.take(j as int).last() == branch_view(*b));
        if str_eq(b.id.as_str(), id) {
            return Some(clone_string(&b.context_id));
        }
        assert(bv.take(j as int).drop_last() =~= bv.take(j - 1));
        j = j - 1;
    }
    None
}

/// The first row with the given id.
pub open spec fn row_index(rows: Seq<BranchV>, id: Seq<char>) -> Option<nat>
    decreases rows.len(),
{
    if rows.len() == 0 {
        None
    } else if rows[0].id == id {
        Some(0)
    } else {
        match row_index(rows.drop_first(), id) {
            Some(k) => Some(k + 1),
            None => None,
        }
    }
}

pub open spec fn run_of(r: TraceRecord) -> Seq<char> {
    or_text(data_string(r.value, "runId"@), "unknown"@)
}

/// A run-start record opens its run's branch unless the run has one.
pub open spec fn start_rows(
    rows: Seq<BranchV>,
    h: ArtifactHeader,
    context: Seq<char>,
    rs: Seq<TraceRecord>,
) -> Seq<BranchV>
    decreases rs.len(),
{
    if rs.len() == 0 {
        rows
    } else {
        let prev = start_rows(rows, h, context, rs.drop_last());
        let r = rs.last();
        if record_type(r) == Some("tool-workflow/run-start"@) {
            let id = workflow_id(h.id@, run_of(r));
            if row_index(prev, id) is Some {
                prev
            } else {
                prev.push(
                    BranchV {
                        id,
                        parent_id: Some(h.id@),
                        label: or_text(data_string(r.value, "name"@), "Dynamic workflow"@),
                        role: "workflow"@,
                        context_id: context,
                        forked: false,
                        created_at: or_u64(spec_u64_at(r.value, seq!["time"@]), h.created_at),
                        removed_at: None,
                        status: "recorded"@,
                    },
                )
            }
        } else {
            prev
        }
    }
}

pub open spec fn ended(b: BranchV, at: Option<u64>) -> BranchV {
    BranchV {
        id: b.id,
        parent_id: b.parent_id,
        label: b.label,
        role: b.role,
        context_id: b.context_id,
        forked: b.forked,
        created_at: b.created_at,
        removed_at: at,
        status: "removed"@,
    }
}

/// A run-end record removes its run's branch, at the record's time.
pub open spec fn end_rows(rows: Seq<BranchV>, h: ArtifactHeader, rs: Seq<TraceRecord>) -> Seq<BranchV>
    decreases rs.len(),
{
    if rs.len() == 0 {
        rows
    } else {
        let prev = end_rows(rows, h, rs.drop_last());
        let r = rs.last();
        if record_type(r) == Some("tool-workflow/run-end"@) {
            match row_index(prev, workflow_id(h.id@, run_of(r))) {
                Some(k) => prev.update(k as int, ended(prev[k as int], spec_u64_at(r.value, seq!["time"@]))),
                None => prev,
            }
        } else {
            prev
        }
    }
}

pub open spec fn session_context(s: RawSession, bs: Seq<BranchV>) -> Seq<char> {
    or_text(context_of(bs, s.header.id@), s.header.id@)
}

/// The workflow runs of all sessions, in the order they first start.
pub open spec fn workflow_rows(sessions: Seq<RawSession>, bs: Seq<BranchV>) -> Seq<BranchV>
    decreases sessions.len(),
{
    if sessions.len() == 0 {
        Seq::empty()
    } else {
        let prev = workflow_rows(sessions.drop_last(), bs);
        let s = sessions.last();
        end_rows(
            start_rows(prev, s.header, session_context(s, bs), s.records@),
            s.header,
            s.records@,
        )
    }
}

pub open spec fn created_keys(rows: Seq<BranchV>) -> Seq<KeyView> {
    rows.map_values(|b: BranchV| (b.created_at, None::<u64>, Seq::<char>::empty()))
}

pub fn row_index_exec(rows: &Vec<TraceBranch>, id: &str) -> (r: Option<usize>)
    ensures
        match r {
            Some(k) => k < rows@.len() && row_index(branch_views(rows@), id@) == Some(k as nat),
            None => row_index(branch_views(rows@), id@) is None,
        },
{
    let mut i: usize = 0;
    let ghost all = branch_views(rows@);
    assert(all.subrange(0, all.len() as int) =~= all);
    while i < rows.len()
        invariant
            i <= rows.len(),
            all == branch_views(rows@),
            forall|k: int| 0 <= k < i ==> all[k].id != id@,
            row_index(all, id@) == match row_index(all.subrange(i as int, all.len() as int), id@) {
                Some(k) => Some((k + i) as nat),
                None => None::<nat>,
            },
        decreases rows.len() - i,
    {
        let ghost rest = all.subrange(i as int, all.len() as int);
        assert(rest[0] == all[i as int]);
        if str_eq(rows[i].id.as_str(), id) {
            return Some(i);
        }
        assert(rest.drop_first() =~= all.subrange(i + 1, all.len() as int));
        i = i + 1;
    }
    assert(all.subrange(i as int, all.len() as int) =~= Seq::<BranchV>::empty());
    None
}

pub fn type_is(r: &TraceRecord, t: &str) -> (b: bool)
    ensures
        b == (record_type(*r) == Some(t@)),
{
    let p: &[&str] = &["type"];
    assert(strs(p@) =~= seq!["type"@]);
    string_at_is(&r.value, p, t)
}

fn data_text_or(r: &TraceRecord, key: &str, d: &str) -> (s: String)
    ensures
        s@ == or_text(data_string(r.value, key@), d@),
{
    let p: [&str; 2] = ["data", key];
    let ps: &[&str] = &p;
    assert(strs(ps@) =~= seq!["data"@, key@]);
    match string_at(&r.value, ps) {
        Some(x) => x,
        None => String::from_str(d),
    }
}

fn add_starts(rows: &mut Vec<TraceBranch>, h: &ArtifactHeader, context: &str, rs: &Vec<TraceRecord>)
    ensures
        branch_views(final(rows)@) == start_rows(branch_views(old(rows)@), *h, context@, rs@),
{
    let ghost start = branch_views(rows@);
    let p_time: &[&str] = &["time"];
    assert(strs(p_time@) =~= seq!["time"@]);
    let mut i: usize = 0;
    assert(rs@.take(0) =~= Seq::<TraceRecord>::empty());
    while i < rs.len()
        invariant
            i <= rs.len(),
            strs(p_time@) == seq!["time"@],
            branch_views(rows@) == start_rows(start, *h, context@, rs@.take(i as int)),
        decreases rs.len() - i,
    {
        let r = &rs[i];
        assert(rs@.take(i + 1).drop_last() =~= rs@.take(i as int));
        assert(rs@.take(i + 1).last() == *r);
        if type_is(r, "tool-workflow/run-start") {
            let run = data_text_or(r, "runId", "unknown");
            let id = workflow_branch_id(h.id.as_str(), run.as_str());
            match row_index_exec(rows, id.as_str()) {
                Some(_) => {},
                None => {
                    let time = match u64_at(&r.value, p_time) {
                        Some(t) => t,
                        None => h.created_at,
                    };
                    let b = TraceBranch {
                        id,
                        parent_id: Some(clone_string(&h.id)),
                        label: data_text_or(r, "name", "Dynamic workflow"),
                        role: String::from_str("workflow"),
                        context_id: String::from_str(context),
                        forked: false,
                        created_at: time,
                        removed_at: None,
                        status: String::from_str("recorded"),
                    };
                    let ghost before = branch_views(rows@);
                    rows.push(b);
                    assert(branch_views(rows@) =~= before.push(branch_view(b)));
                },
            }
        }
        i = i + 1;
    }
    assert(rs@.take(rs.len() as int) =~= rs@);
}

fn add_ends(rows: &mut Vec<TraceBranch>, h: &ArtifactHeader, rs: &Vec<TraceRecord>)
    ensures
        branch_views(final(rows)@) == end_rows(branch_views(old(rows)@), *h, rs@),
{
    let ghost start = branch_views(rows@);
    let p_time: &[&str] = &["time"];
    assert(strs(p_time@) =~= seq!["time"@]);
    let mut i: usize = 0;
    assert(rs@.take(0) =~= Seq::<TraceRecord>::empty());
    while i < rs.len()
        invariant
            i <= rs.len(),
            strs(p_time@) == seq!["time"@],
            branch_views(rows@) == end_rows(start, *h, rs@.take(i as int)),
        decreases rs.len() - i,
    {
        let r = &rs[i];
        assert(rs@.take(i + 1).drop_last() =~= rs@.take(i as int));
        assert(rs@.take(i + 1).last() == *r);
        if type_is(r, "tool-workflow/run-end") {
            let run = data_text_or(r, "runId", "unknown");
            let id = workflow_branch_id(h.id.as_str(), run.as_str());
            match row_index_exec(rows, id.as_str()) {
                Some(k) => {
                    let ghost before = branch_views(rows@);
                    let mut b = rows.remove(k);
                    b.removed_at = u64_at(&r.value, p_time);
                    b.status = String::from_str("removed");
                    rows.insert(k, b);
                    assert(branch_views(rows@) =~= before.update(
                        k as int,
                        ended(before[k as int], spec_u64_at(r.value, seq!["time"@])),
                    ));
                },
                None => {},
            }
        }
        i = i + 1;
    }
    assert(rs@.take(rs.len() as int) =~= rs@);
}

proof fn lemma_views_sorted(items: Seq<TraceBranch>, keys: Seq<KeyView>)
    requires
        items.len() == keys.len(),
    ensures
        branch_views(stably_sorted(items, keys)) == stably_sorted(branch_views(items), keys),
{
    lemma_sorted_order_perm(keys, keys.len());
    assert(branch_views(stably_sorted(items, keys)) =~= stably_sorted(branch_views(items), keys));
}

/// One branch per workflow run (`workflow_rows`), ordered by start time.
/// Workflow rows: distinct ids, each a workflow branch that was not forked.
pub open spec fn workflow_rows_ok(rows: Seq<BranchV>) -> bool {
    &&& forall|a: int, b: int| 0 <= a < b < rows.len() ==> (#[trigger] rows[a]).id != (#[trigger] rows[b]).id
    &&& forall|k: int| 0 <= k < rows.len() ==> (#[trigger] rows[k]).role == "workflow"@ && !rows[k].forked
}

pub proof fn lemma_row_index(rows: Seq<BranchV>, id: Seq<char>)
    ensures
        match row_index(rows, id) {
            Some(k) => k < rows.len() && rows[k as int].id == id,
            None => forall|k: int| 0 <= k < rows.len() ==> (#[trigger] rows[k]).id != id,
        },
    decreases rows.len(),
{
    if rows.len() > 0 && rows[0].id != id {
        lemma_row_index(rows.drop_first(), id);
        match row_index(rows.drop_first(), id) {
            Some(k) => {},
            None => {
                assert forall|k: int| 0 <= k < rows.len() implies (#[trigger] rows[k]).id != id by {
                    if k > 0 {
                        assert(rows[k] == rows.drop_first()[k - 1]);
                    }
                }
            },
        }
    }
}

proof fn lemma_start_rows(rows: Seq<BranchV>, h: ArtifactHeader, context: Seq<char>, rs: Seq<TraceRecord>)
    requires
        workflow_rows_ok(rows),
    ensures
        workflow_rows_ok(start_rows(rows, h, context, rs)),
    decreases rs.len(),
{
    if rs.len() > 0 {
        lemma_start_rows(rows, h, context, rs.drop_last());
        let prev = start_rows(rows, h, context, rs.drop_last());
        let r = rs.last();
        if record_type(r) == Some("tool-workflow/run-start"@) {
            let id = workflow_id(h.id@, run_of(r));
            lemma_row_index(prev, id);
            if row_index(prev, id) is None {
                let n = start_rows(rows, h, context, rs);
                assert forall|a: int, b: int| 0 <= a < b < n.len() implies (#[trigger] n[a]).id != (#[trigger] n[b]).id by {
                    assert(n[a] == prev[a]);
                    if b < prev.len() {
                        assert(n[b] == prev[b]);
                    }
                }
                assert forall|k: int| 0 <= k < n.len() implies (#[trigger] n[k]).role == "workflow"@ && !n[k].forked by {
                    if k < prev.len() {
                        assert(n[k] == prev[k]);
                    }
                }
            }
        }
    }
}

proof fn lemma_end_rows(rows: Seq<BranchV>, h: ArtifactHeader, rs: Seq<TraceRecord>)
    requires
        workflow_rows_ok(rows),
    ensures
        workflow_rows_ok(end_rows(rows, h, rs)),
        end_rows(rows, h, rs).len() == rows.len(),
        forall|k: int| 0 <= k < rows.len() ==> (#[trigger] end_rows(rows, h, rs)[k]).id == rows[k].id,
    decreases rs.len(),
{
    if rs.len() > 0 {
        lemma_end_rows(rows, h, rs.drop_last());
        let prev = end_rows(rows, h, rs.drop_last());
        let r = rs.last();
        if record_type(r) == Some("tool-workflow/run-end"@) {
            let id = workflow_id(h.id@, run_of(r));
            lemma_row_index(prev, id);
            match row_index(prev, id) {
                Some(k) => {
                    let n = end_rows(rows, h, rs);
                    assert(n == prev.update(k as int, ended(prev[k as int], spec_u64_at(r.value, seq!["time"@]))));
                    assert forall|a: int, b: int| 0 <= a < b < n.len() implies (#[trigger] n[a]).id != (#[trigger] n[b]).id by {
                        assert(n[a].id == prev[a].id);
                        assert(n[b].id == prev[b].id);
                    }
                    assert forall|q: int| 0 <= q < n.len() implies (#[trigger] n[q]).role == "workflow"@ && !n[q].forked by {
                        assert(n[q].role == prev[q].role && n[q].forked == prev[q].forked);
                    }
                    assert forall|q: int| 0 <= q < rows.len() implies (#[trigger] n[q]).id == rows[q].id by {
                        assert(n[q].id == prev[q].id);
                    }
                },
                None => {},
            }
        }
    }
}

proof fn lemma_workflow_rows(sessions: Seq<RawSession>, bs: Seq<BranchV>)
    ensures
        workflow_rows_ok(workflow_rows(sessions, bs)),
    decreases sessions.len(),
{
    if sessions.len() > 0 {
        lemma_workflow_rows(sessions.drop_last(), bs);
        let s = sessions.last();
        let prev = workflow_rows(sessions.drop_last(), bs);
        lemma_start_rows(prev, s.header, session_context(s, bs), s.records@);
        lemma_end_rows(start_rows(prev, s.header, session_context(s, bs), s.records@), s.header, s.records@);
    }
}

pub open spec fn is_start(r: TraceRecord) -> bool {
    record_type(r) == Some("tool-workflow/run-start"@)
}

pub open spec fn is_end(r: TraceRecord) -> bool {
    record_type(r) == Some("tool-workflow/run-end"@)
}

/// The branch of a run started by record `j` of a session.
pub open spec fn opened_by(h: ArtifactHeader, rs: Seq<TraceRecord>, j: int, b: BranchV) -> bool {
    0 <= j < rs.len() && is_start(rs[j]) && b.id == workflow_id(h.id@, run_of(rs[j])) && b.parent_id == Some(h.id@)
}

pub open spec fn closed_by(h: ArtifactHeader, rs: Seq<TraceRecord>, j: int, id: Seq<char>) -> bool {
    0 <= j < rs.len() && is_end(rs[j]) && id == workflow_id(h.id@, run_of(rs[j]))
}

proof fn lemma_start_rows_origin(rows: Seq<BranchV>, h: ArtifactHeader, context: Seq<char>, rs: Seq<TraceRecord>)
    ensures
        start_rows(rows, h, context, rs).len() >= rows.len(),
        forall|k: int| 0 <= k < rows.len() ==> #[trigger] start_rows(rows, h, context, rs)[k] == rows[k],
        forall|k: int|
            rows.len() <= k < start_rows(rows, h, context, rs).len() ==> (#[trigger] start_rows(rows, h, context, rs)[k]).status
                == "recorded"@ && exists|j: int| #[trigger] opened_by(h, rs, j, start_rows(rows, h, context, rs)[k]),
        forall|j: int|
            0 <= j < rs.len() && #[trigger] is_start(rs[j]) ==> exists|k: int|
                0 <= k < start_rows(rows, h, context, rs).len() && (#[trigger] start_rows(rows, h, context, rs)[k]).id
                    == workflow_id(h.id@, run_of(rs[j])),
    decreases rs.len(),
{
    if rs.len() > 0 {
        let d = rs.drop_last();
        lemma_start_rows_origin(rows, h, context, d);
        let prev = start_rows(rows, h, context, d);
        let n = start_rows(rows, h, context, rs);
        let r = rs.last();
        let last = rs.len() - 1;
        assert(rs[last] == r);
        assert forall|j: int| 0 <= j < d.len() implies rs[j] == #[trigger] d[j] by {}
        if is_start(r) && row_index(prev, workflow_id(h.id@, run_of(r))) is None {
            let id = workflow_id(h.id@, run_of(r));
            assert(n.len() == prev.len() + 1);
            assert forall|k: int| 0 <= k < rows.len() implies #[trigger] n[k] == rows[k] by {
                assert(n[k] == prev[k]);
            }
            assert forall|k: int| rows.len() <= k < n.len() implies (#[trigger] n[k]).status == "recorded"@
                && exists|j: int| #[trigger] opened_by(h, rs, j, n[k]) by {
                if k < prev.len() {
                    assert(n[k] == prev[k]);
                    let j = choose|j: int| #[trigger] opened_by(h, d, j, prev[k]);
                    assert(opened_by(h, rs, j, n[k]));
                } else {
                    assert(n[k].id == id && n[k].parent_id == Some(h.id@) && n[k].status == "recorded"@);
                    assert(opened_by(h, rs, last, n[k]));
                }
            }
            assert forall|j: int| 0 <= j < rs.len() && #[trigger] is_start(rs[j]) implies exists|k: int|
                0 <= k < n.len() && (#[trigger] n[k]).id == workflow_id(h.id@, run_of(rs[j])) by {
                if j < d.len() {
                    assert(is_start(d[j]));
                    let k = choose|k: int| 0 <= k < prev.len() && (#[trigger] prev[k]).id == workflow_id(h.id@, run_of(d[j]));
                    assert(n[k] == prev[k]);
                } else {
                    assert(n[prev.len() as int].id == id);
                }
            }
        } else {
            assert(n == prev);
            assert forall|k: int| rows.len() <= k < n.len() implies (#[trigger] n[k]).status == "recorded"@
                && exists|j: int| #[trigger] opened_by(h, rs, j, n[k]) by {
                let j = choose|j: int| #[trigger] opened_by(h, d, j, prev[k]);
                assert(opened_by(h, rs, j, n[k]));
            }
            assert forall|j: int| 0 <= j < rs.len() && #[trigger] is_start(rs[j]) implies exists|k: int|
                0 <= k < n.len() && (#[trigger] n[k]).id == workflow_id(h.id@, run_of(rs[j])) by {
                if j < d.len() {
                    assert(is_start(d[j]));
                    let k = choose|k: int| 0 <= k < prev.len() && (#[trigger] prev[k]).id == workflow_id(h.id@, run_of(d[j]));
                } else {
                    lemma_row_index(prev, workflow_id(h.id@, run_of(r)));
                    let k = row_index(prev, workflow_id(h.id@, run_of(r)))->0;
                    assert(prev[k as int].id == workflow_id(h.id@, run_of(rs[j])));
                }
            }
        }
    }
}

proof fn lemma_end_rows_origin(rows: Seq<BranchV>, h: ArtifactHeader, rs: Seq<TraceRecord>)
    ensures
        end_rows(rows, h, rs).len() == rows.len(),
        forall|k: int|
            0 <= k < rows.len() ==> (#[trigger] end_rows(rows, h, rs)[k]).id == rows[k].id
                && end_rows(rows, h, rs)[k].parent_id == rows[k].parent_id
                && (end_rows(rows, h, rs)[k].status == rows[k].status || (end_rows(rows, h, rs)[k].status
                == "removed"@ && exists|j: int| closed_by(h, rs, j, rows[k].id))),
    decreases rs.len(),
{
    if rs.len() > 0 {
        let d = rs.drop_last();
        lemma_end_rows_origin(rows, h, d);
        let prev = end_rows(rows, h, d);
        let n = end_rows(rows, h, rs);
        let r = rs.last();
        let last = rs.len() - 1;
        assert(rs[last] == r);
        assert forall|j: int| 0 <= j < d.len() implies rs[j] == #[trigger] d[j] by {}
        let id = workflow_id(h.id@, run_of(r));
        lemma_row_index(prev, id);
        assert forall|k: int| 0 <= k < rows.len() implies (#[trigger] n[k]).id == rows[k].id
            && n[k].parent_id == rows[k].parent_id
            && (n[k].status == rows[k].status || (n[k].status == "removed"@ && exists|j: int| closed_by(h, rs, j, rows[k].id))) by {
            if prev[k].status != rows[k].status {
                let j = choose|j: int| closed_by(h, d, j, rows[k].id);
                assert(closed_by(h, rs, j, rows[k].id));
            }
            if is_end(r) && row_index(prev, id) == Some(k as nat) {
                assert(n[k].status == "removed"@);
                assert(closed_by(h, rs, last, rows[k].id));
            } else {
                assert(n[k] == prev[k]);
            }
        }
    }
}

/// A workflow row of the sessions: opened by a run-start record of one of
/// them, under that session; removed only by a run-end record of the run.
pub open spec fn row_origin(ss: Seq<RawSession>, b: BranchV) -> bool {
    &&& exists|i: int, j: int| 0 <= i < ss.len() && #[trigger] opened_by(ss[i].header, ss[i].records@, j, b)
    &&& (b.status == "recorded"@ || (b.status == "removed"@ && exists|i: int, j: int|
        0 <= i < ss.len() && #[trigger] closed_by(ss[i].header, ss[i].records@, j, b.id)))
}

#[verifier::rlimit(50)]
proof fn lemma_workflow_rows_origin(ss: Seq<RawSession>, bs: Seq<BranchV>)
    ensures
        forall|k: int| 0 <= k < workflow_rows(ss, bs).len() ==> row_origin(ss, #[trigger] workflow_rows(ss, bs)[k]),
        forall|i: int, j: int|
            0 <= i < ss.len() && 0 <= j < ss[i].records@.len() && #[trigger] is_start(ss[i].records@[j])
                ==> exists|k: int|
                0 <= k < workflow_rows(ss, bs).len() && (#[trigger] workflow_rows(ss, bs)[k]).id == workflow_id(
                    ss[i].header.id@,
                    run_of(ss[i].records@[j]),
                ),
    decreases ss.len(),
{
    if ss.len() > 0 {
        let d = ss.drop_last();
        lemma_workflow_rows_origin(d, bs);
        let s = ss.last();
        let li = ss.len() - 1;
        assert(ss[li] == s);
        assert forall|i: int| 0 <= i < d.len() implies ss[i] == #[trigger] d[i] by {}
        let prev = workflow_rows(d, bs);
        let st = start_rows(prev, s.header, session_context(s, bs), s.records@);
        let n = workflow_rows(ss, bs);
        lemma_start_rows_origin(prev, s.header, session_context(s, bs), s.records@);
        lemma_end_rows_origin(st, s.header, s.records@);
        assert(n == end_rows(st, s.header, s.records@));
        assert forall|k: int| 0 <= k < n.len() implies row_origin(ss, #[trigger] n[k]) by {
            // where the row was opened
            if k < prev.len() {
                assert(st[k] == prev[k]);
                assert(row_origin(d, prev[k]));
                assert(n[k].id == st[k].id && n[k].parent_id == st[k].parent_id);
                let (i, j) = choose|i: int, j: int| 0 <= i < d.len() && #[trigger] opened_by(d[i].header, d[i].records@, j, prev[k]);
                assert(opened_by(ss[i].header, ss[i].records@, j, n[k]));
                if prev[k].status == "removed"@ {
                    reveal_strlit("recorded");
                    reveal_strlit("removed");
                    assert("recorded"@[2] != "removed"@[2]);
                    let (i2, j2) = choose|i: int, j: int| 0 <= i < d.len() && #[trigger] closed_by(d[i].header, d[i].records@, j, prev[k].id);
                    assert(ss[i2] == d[i2]);
                    assert(closed_by(ss[i2].header, ss[i2].records@, j2, n[k].id));
                }
            } else {
                let j = choose|j: int| #[trigger] opened_by(s.header, s.records@, j, st[k]);
                assert(opened_by(ss[li].header, ss[li].records@, j, n[k]));
            }
            if n[k].status != st[k].status {
                let j = choose|j: int| closed_by(s.header, s.records@, j, st[k].id);
                assert(closed_by(ss[li].header, ss[li].records@, j, n[k].id));
            }
        }
        assert forall|i: int, j: int|
            0 <= i < ss.len() && 0 <= j < ss[i].records@.len() && #[trigger] is_start(ss[i].records@[j])
                implies exists|k: int| 0 <= k < n.len() && (#[trigger] n[k]).id == workflow_id(
                ss[i].header.id@,
                run_of(ss[i].records@[j]),
            ) by {
            if i < d.len() {
                assert(is_start(d[i].records@[j]));
                let k = choose|k: int| 0 <= k < prev.len() && (#[trigger] prev[k]).id == workflow_id(d[i].header.id@, run_of(d[i].records@[j]));
                assert(st[k] == prev[k]);
                assert(n[k].id == st[k].id);
            } else {
                assert(is_start(s.records@[j]));
                let k = choose|k: int| 0 <= k < st.len() && (#[trigger] st[k]).id == workflow_id(s.header.id@, run_of(s.records@[j]));
                assert(n[k].id == st[k].id);
            }
        }
    }
}

/// Workflow run law: every workflow branch was opened by a run-start record
/// of one of the sessions, is named `workflow:<session>:<run>` after it, has
/// that session as parent, and is `recorded`, or `removed` by a run-end
/// record of the same run; and every run-start record has its branch.
pub proof fn law_workflow_runs(ss: Seq<RawSession>, bs: Seq<BranchV>)
    ensures
        forall|k: int|
            0 <= k < stably_sorted(workflow_rows(ss, bs), created_keys(workflow_rows(ss, bs))).len() ==> row_origin(
                ss,
                #[trigger] stably_sorted(workflow_rows(ss, bs), created_keys(workflow_rows(ss, bs)))[k],
            ),
        forall|i: int, j: int|
            0 <= i < ss.len() && 0 <= j < ss[i].records@.len() && #[trigger] is_start(ss[i].records@[j])
                ==> exists|k: int|
                0 <= k < stably_sorted(workflow_rows(ss, bs), created_keys(workflow_rows(ss, bs))).len()
                    && (#[trigger] stably_sorted(workflow_rows(ss, bs), created_keys(workflow_rows(ss, bs)))[k]).id
                    == workflow_id(ss[i].header.id@, run_of(ss[i].records@[j])),
{
    let rows = workflow_rows(ss, bs);
    let keys = created_keys(rows);
    let o = stable_order(keys);
    let r = stably_sorted(rows, keys);
    lemma_workflow_rows_origin(ss, bs);
    lemma_sorted_order_perm(keys, keys.len());
    assert forall|k: int| 0 <= k < r.len() implies row_origin(ss, #[trigger] r[k]) by {
        assert(r[k] == rows[o[k]]);
    }
    assert forall|i: int, j: int|
        0 <= i < ss.len() && 0 <= j < ss[i].records@.len() && #[trigger] is_start(ss[i].records@[j])
            implies exists|k: int| 0 <= k < r.len() && (#[trigger] r[k]).id == workflow_id(ss[i].header.id@, run_of(ss[i].records@[j])) by {
        let m = choose|m: int| 0 <= m < rows.len() && (#[trigger] rows[m]).id == workflow_id(ss[i].header.id@, run_of(ss[i].records@[j]));
        assert(o.contains(m));
        let k = choose|k: int| 0 <= k < o.len() && o[k] == m;
        assert(r[k] == rows[m]);
    }
}

proof fn lemma_end_rows_keeps_removed(rows: Seq<BranchV>, h: ArtifactHeader, rs: Seq<TraceRecord>)
    ensures
        forall|k: int|
            0 <= k < rows.len() && rows[k].status == "removed"@ ==> (#[trigger] end_rows(rows, h, rs)[k]).status
                == "removed"@,
    decreases rs.len(),
{
    lemma_end_rows_origin(rows, h, rs);
    if rs.len() > 0 {
        let d = rs.drop_last();
        lemma_end_rows_keeps_removed(rows, h, d);
        lemma_end_rows_origin(rows, h, d);
        let prev = end_rows(rows, h, d);
        let n = end_rows(rows, h, rs);
        let r = rs.last();
        let id = workflow_id(h.id@, run_of(r));
        lemma_row_index(prev, id);
        assert forall|k: int| 0 <= k < rows.len() && rows[k].status == "removed"@ implies (#[trigger] n[k]).status
            == "removed"@ by {
            assert(prev[k].status == "removed"@);
            if is_end(r) && row_index(prev, id) == Some(k as nat) {
            } else {
                assert(n[k] == prev[k]);
            }
        }
    }
}

proof fn lemma_end_rows_removes(rows: Seq<BranchV>, h: ArtifactHeader, rs: Seq<TraceRecord>, id: Seq<char>, j: int)
    requires
        workflow_rows_ok(rows),
        closed_by(h, rs, j, id),
    ensures
        forall|k: int| 0 <= k < rows.len() && rows[k].id == id ==> (#[trigger] end_rows(rows, h, rs)[k]).status == "removed"@,
    decreases rs.len(),
{
    lemma_end_rows_origin(rows, h, rs);
    let d = rs.drop_last();
    let n = end_rows(rows, h, rs);
    let prev = end_rows(rows, h, d);
    lemma_end_rows_origin(rows, h, d);
    lemma_end_rows(rows, h, d);
    let r = rs.last();
    if j == rs.len() - 1 {
        assert(rs[j] == r);
        lemma_row_index(prev, id);
        assert forall|k: int| 0 <= k < rows.len() && rows[k].id == id implies (#[trigger] n[k]).status == "removed"@ by {
            assert(prev[k].id == id);
            match row_index(prev, id) {
                Some(k0) => {
                    if k0 != k {
                        assert(prev[k0 as int].id == prev[k].id);
                        if k0 < k {
                            assert(prev[k0 as int].id != prev[k].id);
                        } else {
                            assert(prev[k].id != prev[k0 as int].id);
                        }
                    }
                },
                None => {},
            }
        }
    } else {
        assert(closed_by(h, d, j, id)) by {
            assert(d[j] == rs[j]);
        }
        lemma_end_rows_removes(rows, h, d, id, j);
        lemma_end_rows_keeps_removed(prev, h, seq![r]);
        let id2 = workflow_id(h.id@, run_of(r));
        lemma_row_index(prev, id2);
        assert forall|k: int| 0 <= k < rows.len() && rows[k].id == id implies (#[trigger] n[k]).status == "removed"@ by {
            assert(prev[k].status == "removed"@);
            if is_end(r) && row_index(prev, id2) == Some(k as nat) {
            } else {
                assert(n[k] == prev[k]);
            }
        }
    }
}

/// Run `run` of session `i` has both a run-start and a run-end record.
pub open spec fn run_started_and_ended(ss: Seq<RawSession>, i: int, j1: int, j2: int) -> bool {
    &&& 0 <= i < ss.len()
    &&& 0 <= j1 < ss[i].records@.len()
    &&& 0 <= j2 < ss[i].records@.len()
    &&& is_start(ss[i].records@[j1])
    &&& is_end(ss[i].records@[j2])
    &&& run_of(ss[i].records@[j1]) == run_of(ss[i].records@[j2])
}

proof fn lemma_workflow_rows_removed(ss: Seq<RawSession>, bs: Seq<BranchV>)
    ensures
        forall|i: int, j1: int, j2: int, k: int|
            #[trigger] run_started_and_ended(ss, i, j1, j2) && 0 <= k < workflow_rows(ss, bs).len()
                && (#[trigger] workflow_rows(ss, bs)[k]).id == workflow_id(ss[i].header.id@, run_of(ss[i].records@[j1]))
                ==> workflow_rows(ss, bs)[k].status == "removed"@,
    decreases ss.len(),
{
    if ss.len() > 0 {
        let d = ss.drop_last();
        lemma_workflow_rows_removed(d, bs);
        lemma_workflow_rows(d, bs);
        let s = ss.last();
        let li = ss.len() - 1;
        assert(ss[li] == s);
        let prev = workflow_rows(d, bs);
        let ctx = session_context(s, bs);
        let st = start_rows(prev, s.header, ctx, s.records@);
        let n = workflow_rows(ss, bs);
        lemma_start_rows(prev, s.header, ctx, s.records@);
        lemma_start_rows_origin(prev, s.header, ctx, s.records@);
        lemma_end_rows_origin(st, s.header, s.records@);
        lemma_end_rows_keeps_removed(st, s.header, s.records@);
        assert(n == end_rows(st, s.header, s.records@));
        assert forall|i: int, j1: int, j2: int, k: int|
            #[trigger] run_started_and_ended(ss, i, j1, j2) && 0 <= k < n.len()
                && (#[trigger] n[k]).id == workflow_id(ss[i].header.id@, run_of(ss[i].records@[j1]))
                implies n[k].status == "removed"@ by {
            let id = workflow_id(ss[i].header.id@, run_of(ss[i].records@[j1]));
            if i == li {
                assert(closed_by(s.header, s.records@, j2, id));
                lemma_end_rows_removes(st, s.header, s.records@, id, j2);
                assert(st[k].id == id);
            } else {
                assert(ss[i] == d[i]);
                assert(run_started_and_ended(d, i, j1, j2));
                assert(is_start(d[i].records@[j1]));
                lemma_workflow_rows_origin(d, bs);
                let k0 = choose|k0: int| 0 <= k0 < prev.len() && (#[trigger] prev[k0]).id == workflow_id(
                    d[i].header.id@,
                    run_of(d[i].records@[j1]),
                );
                assert(prev[k0].status == "removed"@);
                assert(st[k0] == prev[k0]);
                assert(st[k].id == id);
                if k0 != k {
                    if k0 < k {
                        assert(st[k0].id != st[k].id);
                    } else {
                        assert(st[k].id != st[k0].id);
                    }
                }
            }
        }
    }
}

/// Workflow end law: when a session holds both the run-start and a run-end
/// record of a run, the workflow branch of that run is `removed`.
pub proof fn law_workflow_run_end_removes(ss: Seq<RawSession>, bs: Seq<BranchV>)
    ensures
        forall|i: int, j1: int, j2: int, k: int|
            #[trigger] run_started_and_ended(ss, i, j1, j2) && 0 <= k < stably_sorted(
                workflow_rows(ss, bs),
                created_keys(workflow_rows(ss, bs)),
            ).len() && (#[trigger] stably_sorted(workflow_rows(ss, bs), created_keys(workflow_rows(ss, bs)))[k]).id
                == workflow_id(ss[i].header.id@, run_of(ss[i].records@[j1])) ==> stably_sorted(
                workflow_rows(ss, bs),
                created_keys(workflow_rows(ss, bs)),
            )[k].status == "removed"@,
{
    let rows = workflow_rows(ss, bs);
    let keys = created_keys(rows);
    let o = stable_order(keys);
    let r = stably_sorted(rows, keys);
    lemma_workflow_rows_removed(ss, bs);
    lemma_sorted_order_perm(keys, keys.len());
    assert forall|i: int, j1: int, j2: int, k: int|
        #[trigger] run_started_and_ended(ss, i, j1, j2) && 0 <= k < r.len()
            && (#[trigger] r[k]).id == workflow_id(ss[i].header.id@, run_of(ss[i].records@[j1]))
            implies r[k].status == "removed"@ by {
        assert(r[k] == rows[o[k]]);
    }
}

/// Workflow law: the workflow branches of a replay have distinct ids, are
/// all unforked branches of role `workflow`, and come in order of creation.
pub proof fn law_workflow_branches(sessions: Seq<RawSession>, bs: Seq<BranchV>)
    ensures
        workflow_rows_ok(stably_sorted(workflow_rows(sessions, bs), created_keys(workflow_rows(sessions, bs)))),
        forall|a: int, b: int|
            0 <= a < b < stably_sorted(workflow_rows(sessions, bs), created_keys(workflow_rows(sessions, bs))).len()
                ==> (#[trigger] stably_sorted(workflow_rows(sessions, bs), created_keys(workflow_rows(sessions, bs)))[a]).created_at
                <= (#[trigger] stably_sorted(workflow_rows(sessions, bs), created_keys(workflow_rows(sessions, bs)))[b]).created_at,
{
    let rows = workflow_rows(sessions, bs);
    let keys = created_keys(rows);
    let o = stable_order(keys);
    let r = stably_sorted(rows, keys);
    lemma_workflow_rows(sessions, bs);
    lemma_sorted_order_perm(keys, keys.len());
    law_stable_order_is_sorted_and_stable(keys);
    assert forall|a: int, b: int| 0 <= a < b < r.len() implies (#[trigger] r[a]).id != (#[trigger] r[b]).id by {
        assert(r[a] == rows[o[a]]);
        assert(r[b] == rows[o[b]]);
        assert(o[a] != o[b]);
        if o[a] < o[b] {
            assert(rows[o[a]].id != rows[o[b]].id);
        } else {
            assert(rows[o[b]].id != rows[o[a]].id);
        }
    }
    assert forall|k: int| 0 <= k < r.len() implies (#[trigger] r[k]).role == "workflow"@ && !r[k].forked by {
        assert(r[k] == rows[o[k]]);
    }
    assert forall|a: int, b: int| 0 <= a < b < r.len() implies (#[trigger] r[a]).created_at <= (#[trigger] r[b]).created_at by {
        assert(r[a] == rows[o[a]]);
        assert(r[b] == rows[o[b]]);
        assert(keys[o[a]] == (rows[o[a]].created_at, None::<u64>, Seq::<char>::empty()));
        assert(keys[o[b]] == (rows[o[b]].created_at, None::<u64>, Seq::<char>::empty()));
        assert(!key_lt(keys[o[b]], keys[o[a]]));
    }
}

pub fn workflow_branches(sessions: &Vec<RawSession>, branches: &Vec<TraceBranch>) -> (r: Vec<TraceBranch>)
    ensures
        branch_views(r@) == stably_sorted(
            workflow_rows(sessions@, branch_views(branches@)),
            created_keys(workflow_rows(sessions@, branch_views(branches@))),
        ),
{
    let mut rows: Vec<TraceBranch> = Vec::new();
    let mut i: usize = 0;
    assert(sessions@.take(0) =~= Seq::<RawSession>::empty());
    assert(branch_views(rows@) =~= Seq::<BranchV>::empty());
    while i < sessions.len()
        invariant
            i <= sessions.len(),
            branch_views(rows@) == workflow_rows(sessions@.take(i as int), branch_views(branches@)),
        decreases sessions.len() - i,
    {
        let s = &sessions[i];
        assert(sessions@.take(i + 1).drop_last() =~= sessions@.take(i as int));
        assert(sessions@.take(i + 1).last() == *s);
        let context = match find_context(branches, s.header.id.as_str()) {
            Some(c) => c,
            None => clone_string(&s.header.id),
        };
        add_starts(&mut rows, &s.header, context.as_str(), &s.records);
        add_ends(&mut rows, &s.header, &s.records);
        i = i + 1;
    }
    assert(sessions@.take(sessions.len() as int) =~= sessions@);
    let ghost rv = branch_views(rows@);
    let mut keys: Vec<SortKey> = Vec::new();
    let mut j: usize = 0;
    while j < rows.len()
        invariant
            j <= rows.len(),
            rv == branch_views(rows@),
            key_views(keys@) == created_keys(rv).take(j as int),
        decreases rows.len() - j,
    {
        let ghost kb = keys@;
        let k = SortKey { primary: rows[j].created_at, secondary: None, tertiary: Vec::new() };
        keys.push(k);
        assert(key_views(keys@) =~= key_views(kb).push(key_view(k)));
        assert(created_keys(rv).take(j + 1) =~= created_keys(rv).take(j as int).push(
            (rows@[j as int].created_at, None::<u64>, Seq::<char>::empty()),
        ));
        j = j + 1;
    }
    assert(created_keys(rv).take(rows.len() as int) =~= created_keys(rv));
    let ghost items = rows@;
    let sorted = stable_sort(rows, &keys);
    proof {
        lemma_views_sorted(items, key_views(keys@));
    }
    sorted
}

// ----- workflow membership -----
/// The text after the last `:` (`rsplit(':').next()`), all of it when it
/// has none.
pub open spec fn after_last_colon(s: Seq<char>) -> Seq<char>
    decreases s.len(),
{
    if s.len() == 0 {
        s
    } else if s.last() == ':' {
        Seq::empty()
    } else {
        after_last_colon(s.drop_last()).push(s.last())
    }
}

fn after_last_colon_exec(s: &str) -> (r: Vec<char>)
    ensures
        r@ == after_last_colon(s@),
{
    let chars = str_to_chars(s);
    let mut j = chars.len();
    assert(chars@.take(j as int) =~= chars@);
    assert(chars@.subrange(j as int, j as int) =~= Seq::<char>::empty());
    while j > 0 && chars[j - 1] != ':'
        invariant
            j <= chars.len(),
            chars@ == s@,
            after_last_colon(chars@) == after_last_colon(chars@.take(j as int)) + chars@.subrange(
                j as int,
                chars.len() as int,
            ),
        decreases j,
    {
        let ghost t = chars@.take(j as int);
        assert(t.drop_last() =~= chars@.take(j - 1));
        assert(t.last() == chars@[j - 1]);
        assert(chars@.subrange(j - 1, chars.len() as int) =~= seq![chars@[j - 1]] + chars@.subrange(
            j as int,
            chars.len() as int,
        ));
        j = j - 1;
    }
    if j > 0 {
        assert(chars@.take(j as int).last() == ':');
    }
    assert(after_last_colon(chars@.take(j as int)) =~= Seq::<char>::empty());
    slice_chars(&chars, j, chars.len())
}

/// The workflow of a run of a session; where two match, the later one.
pub open spec fn run_workflow(ws: Seq<BranchV>, session: Seq<char>, run: Seq<char>) -> Option<Seq<char>>
    decreases ws.len(),
{
    if ws.len() == 0 {
        None
    } else if ws.last().parent_id == Some(session) && after_last_colon(ws.last().id) == run {
        Some(ws.last().id)
    } else {
        run_workflow(ws.drop_last(), session, run)
    }
}

fn run_workflow_exec(ws: &Vec<TraceBranch>, session: &str, run: &str) -> (r: Option<String>)
    ensures
        opt_view(r) == run_workflow(branch_views(ws@), session@, run@),
{
    let ghost wv = branch_views(ws@);
    let run_chars = str_to_chars(run);
    let mut j = ws.len();
    assert(wv.take(j as int) =~= wv);
    while j > 0
        invariant
            j <= ws.len(),
            run_chars@ == run@,
            wv == branch_views(ws@),
            run_workflow(wv, session@, run@) == run_workflow(wv.take(j as int), session@, run@),
        decreases j,
    {
        let w = &ws[j - 1];
        assert(wv.take(j as int).last() == branch_view(*w));
        let parent_matches = match &w.parent_id {
            Some(p) => str_eq(p.as_str(), session),
            None => false,
        };
        if parent_matches && chars_eq(&after_last_colon_exec(w.id.as_str()), &run_chars) {
            return Some(clone_string(&w.id));
        }
        assert(wv.take(j as int).drop_last() =~= wv.take(j - 1));
        j = j - 1;
    }
    None
}

pub open spec fn joined(b: BranchV, workflow: Seq<char>, label: Option<Seq<char>>) -> BranchV {
    BranchV {
        id: b.id,
        parent_id: Some(workflow),
        label: or_text(label, b.label),
        role: b.role,
        context_id: b.context_id,
        forked: b.forked,
        created_at: b.created_at,
        removed_at: b.removed_at,
        status: b.status,
    }
}

/// A member-start record makes its child a member of the run's workflow,
/// under the member's label.
pub open spec fn member_rows(
    bs: Seq<BranchV>,
    ws: Seq<BranchV>,
    session: Seq<char>,
    rs: Seq<TraceRecord>,
) -> Seq<BranchV>
    decreases rs.len(),
{
    if rs.len() == 0 {
        bs
    } else {
        let prev = member_rows(bs, ws, session, rs.drop_last());
        let r = rs.last();
        if record_type(r) == Some("tool-workflow/agent-start"@) {
            match (data_string(r.value, "childId"@), data_string(r.value, "runId"@)) {
                (Some(child), Some(run)) => match run_workflow(ws, session, run) {
                    Some(w) => match row_index(prev, child) {
                        Some(k) => prev.update(
                            k as int,
                            joined(prev[k as int], w, data_string(r.value, "label"@)),
                        ),
                        None => prev,
                    },
                    None => prev,
                },
                _ => prev,
            }
        } else {
            prev
        }
    }
}

pub open spec fn parentage(sessions: Seq<RawSession>, bs: Seq<BranchV>, ws: Seq<BranchV>) -> Seq<BranchV>
    decreases sessions.len(),
{
    if sessions.len() == 0 {
        bs
    } else {
        let s = sessions.last();
        member_rows(parentage(sessions.drop_last(), bs, ws), ws, s.header.id@, s.records@)
    }
}

pub fn data_opt(r: &TraceRecord, key: &str) -> (s: Option<String>)
    ensures
        opt_view(s) == data_string(r.value, key@),
{
    let p: [&str; 2] = ["data", key];
    let ps: &[&str] = &p;
    assert(strs(ps@) =~= seq!["data"@, key@]);
    string_at(&r.value, ps)
}

fn add_members(branches: &mut Vec<TraceBranch>, ws: &Vec<TraceBranch>, session: &str, rs: &Vec<TraceRecord>)
    ensures
        branch_views(final(branches)@) == member_rows(branch_views(old(branches)@), branch_views(ws@), session@, rs@),
{
    let ghost start = branch_views(branches@);
    let mut i: usize = 0;
    assert(rs@.take(0) =~= Seq::<TraceRecord>::empty());
    while i < rs.len()
        invariant
            i <= rs.len(),
            branch_views(branches@) == member_rows(start, branch_views(ws@), session@, rs@.take(i as int)),
        decreases rs.len() - i,
    {
        let r = &rs[i];
        assert(rs@.take(i + 1).drop_last() =~= rs@.take(i as int));
        assert(rs@.take(i + 1).last() == *r);
        if type_is(r, "tool-workflow/agent-start") {
            match (data_opt(r, "childId"), data_opt(r, "runId")) {
                (Some(child), Some(run)) => match run_workflow_exec(ws, session, run.as_str()) {
                    Some(w) => match row_index_exec(branches, child.as_str()) {
                        Some(k) => {
                            let ghost before = branch_views(branches@);
                            let label = data_opt(r, "label");
                            let mut b = branches.remove(k);
                            b.parent_id = Some(w);
                            match label {
                                Some(l) => {
                                    b.label = l;
                                },
                                None => {},
                            }
                            branches.insert(k, b);
                            assert(branch_views(branches@) =~= before.update(
                                k as int,
                                joined(before[k as int], w@, data_string(r.value, "label"@)),
                            ));
                        },
                        None => {},
                    },
                    None => {},
                },
                _ => {},
            }
        }
        i = i + 1;
    }
    assert(rs@.take(rs.len() as int) =~= rs@);
}

/// Sub-agents started by a workflow run become its members (`parentage`).
pub fn apply_workflow_parentage(
    sessions: &Vec<RawSession>,
    branches: &mut Vec<TraceBranch>,
    workflows: &Vec<TraceBranch>,
)
    ensures
        branch_views(final(branches)@) == parentage(sessions@, branch_views(old(branches)@), branch_views(workflows@)),
{
    let ghost start = branch_views(branches@);
    let mut i: usize = 0;
    assert(sessions@.take(0) =~= Seq::<RawSession>::empty());
    while i < sessions.len()
        invariant
            i <= sessions.len(),
            branch_views(branches@) == parentage(sessions@.take(i as int), start, branch_views(workflows@)),
        decreases sessions.len() - i,
    {
        let s = &sessions[i];
        assert(sessions@.take(i + 1).drop_last() =~= sessions@.take(i as int));
        assert(sessions@.take(i + 1).last() == *s);
        add_members(branches, workflows, s.header.id.as_str(), &s.records);
        i = i + 1;
    }
    assert(sessions@.take(sessions.len() as int) =~= sessions@);
}

} // verus!
