//! The task that verifies the bugs that a fuzzer found.

use std::collections::BTreeMap;

use vstd::prelude::*;
use vstd::utf8::*;

use crate::lava::check::{CheckStatus, CheckStatusView};
use crate::paths::UnixPath;
use crate::text::decimal_string;
use crate::vars::Variables;

verus! {

broadcast use vstd::laws_cmp::group_laws_cmp;

/// Verifies the crashes in `crash_dir` with `command` and adds what it finds to the table at `dst`.
#[derive(Debug)]
pub struct LavaVerifierTask {
    pub command: String,
    pub crash_dir: String,
    pub dst: String,
}

impl Clone for LavaVerifierTask {
    fn clone(&self) -> (copy: Self)
        ensures
            copy == *self,
    {
        LavaVerifierTask {
            command: self.command.clone(),
            crash_dir: self.crash_dir.clone(),
            dst: self.dst.clone(),
        }
    }
}

/// What a [`LavaVerifierTask`] comes to.
#[derive(Debug)]
pub struct LavaPlan {
    /// What marks the rows of this run.
    pub tag: String,
    /// The directory that the crashes are in.
    pub crash_dir: String,
    /// The template of the command that runs a crash.
    pub command: String,
    /// The table that the rows are added to.
    pub dst: UnixPath,
}

/// The first line of the table.
pub const BUG_HEADER: &'static str = "tag,bug_id,time";

/// A row of the table.
#[derive(Debug)]
pub struct BugRow {
    pub tag: String,
    pub bug_id: String,
    pub time: u64,
}

/// A [`BugRow`] over its characters.
pub struct BugRowView {
    pub tag: Seq<char>,
    pub bug_id: Seq<char>,
    pub time: u64,
}

impl View for BugRow {
    type V = BugRowView;

    open spec fn view(&self) -> BugRowView {
        BugRowView { tag: self.tag@, bug_id: self.bug_id@, time: self.time }
    }
}

/// In ascending order, each once.
pub open spec fn ascending(ids: Seq<u64>) -> bool {
    forall|i: int, j: int| 0 <= i < j < ids.len() ==> ids[i] < ids[j]
}

/// Keys that a map hands out in increasing order ascend.
proof fn lemma_keys_ascend(keys: Seq<&u64>)
    requires
        vstd::std_specs::btree::increasing_seq(keys),
    ensures
        ascending(keys.unref()),
{
    broadcast use vstd::std_specs::btree::axiom_increasing_seq_meaning;

    assert(vstd::laws_cmp::obeys_cmp::<u64>());
    assert(vstd::laws_cmp::obeys_cmp::<&u64>());
    assert forall|i: int, j: int| 0 <= i < j < keys.len() implies keys.unref()[i]
        < keys.unref()[j] by {
        assert(vstd::std_specs::cmp::OrdSpec::cmp_spec(&keys[i], &keys[j]) is Less);
    }
}

/// `ids` are the known bugs, in ascending order.
pub open spec fn in_order(ids: Seq<u64>, bugs: Map<u64, CheckStatusView>) -> bool {
    &&& ascending(ids)
    &&& forall|id: u64| #[trigger] ids.contains(id) <==> bugs.contains_key(id)
}

/// The known bugs, in ascending order.
pub open spec fn known_ids(bugs: Map<u64, CheckStatusView>) -> Seq<u64> {
    known_below(bugs, 0x1_0000_0000_0000_0000)
}

/// The known bugs below `limit`, in ascending order.
pub open spec fn known_below(bugs: Map<u64, CheckStatusView>, limit: nat) -> Seq<u64>
    decreases limit,
{
    if limit == 0 {
        Seq::empty()
    } else {
        let id = (limit - 1) as u64;
        let below = known_below(bugs, (limit - 1) as nat);
        if bugs.contains_key(id) {
            below.push(id)
        } else {
            below
        }
    }
}

/// A table has a row for each known bug and no other, in ascending order, each once.
pub proof fn lemma_known_ids(bugs: Map<u64, CheckStatusView>)
    ensures
        in_order(known_ids(bugs), bugs),
{
    lemma_known_below(bugs, 0x1_0000_0000_0000_0000);
}

proof fn lemma_known_below(bugs: Map<u64, CheckStatusView>, limit: nat)
    requires
        limit <= 0x1_0000_0000_0000_0000,
    ensures
        ascending(known_below(bugs, limit)),
        forall|id: u64| #[trigger]
            known_below(bugs, limit).contains(id) <==> id < limit && bugs.contains_key(id),
    decreases limit,
{
    if limit > 0 {
        let last = (limit - 1) as u64;
        let below = known_below(bugs, (limit - 1) as nat);
        let ids = known_below(bugs, limit);
        lemma_known_below(bugs, (limit - 1) as nat);
        assert forall|i: int| 0 <= i < below.len() implies #[trigger] below[i] < last by {
            assert(below.contains(below[i]));
        }
        assert forall|id: u64| #[trigger] ids.contains(id) <==> id < limit && bugs.contains_key(
            id,
        ) by {
            if ids.contains(id) {
                let i = choose|i: int| 0 <= i < ids.len() && ids[i] == id;
                if i < below.len() {
                    assert(below[i] == id && below.contains(id));
                }
            }
            if id < limit && bugs.contains_key(id) {
                if id == last {
                    assert(ids[below.len() as int] == id);
                } else {
                    assert(below.contains(id));
                    let i = choose|i: int| 0 <= i < below.len() && below[i] == id;
                    assert(ids[i] == id);
                }
            }
        }
    }
}

/// There is one ascending order.
proof fn lemma_one_order(a: Seq<u64>, b: Seq<u64>)
    requires
        ascending(a),
        ascending(b),
        forall|id: u64| #[trigger] a.contains(id) <==> b.contains(id),
    ensures
        a == b,
    decreases a.len(),
{
    if a.len() == 0 {
        if b.len() > 0 {
            assert(b.contains(b[0]));
            assert(a.contains(b[0]));
        }
        assert(a =~= b);
    } else {
        assert(a.contains(a[a.len() - 1]));
        assert(b.contains(a.last()));
        assert(b.contains(b[b.len() - 1]));
        assert(a.contains(b.last()));
        assert(a.last() == b.last());
        let (x, y) = (a.drop_last(), b.drop_last());
        assert forall|id: u64| #[trigger] x.contains(id) <==> y.contains(id) by {
            if x.contains(id) {
                let i = choose|i: int| 0 <= i < x.len() && x[i] == id;
                assert(a[i] == id && a.contains(id));
                let j = choose|j: int| 0 <= j < b.len() && b[j] == id;
                assert(y[j] == id);
            }
            if y.contains(id) {
                let j = choose|j: int| 0 <= j < y.len() && y[j] == id;
                assert(b[j] == id && b.contains(id));
                assert(a.contains(id));
                let i = choose|i: int| 0 <= i < a.len() && a[i] == id;
                assert(x[i] == id);
            }
        }
        lemma_one_order(x, y);
        assert(a =~= x.push(a.last()) && b =~= y.push(b.last()));
    }
}

/// The rows of a table: one that says that the run took place, then one for each of `ids`.
pub open spec fn bug_rows(
    tag: Seq<char>,
    ids: Seq<u64>,
    bugs: Map<u64, CheckStatusView>,
) -> Seq<BugRowView> {
    seq![BugRowView { tag, bug_id: "none"@, time: 0 }] + ids.map_values(
        |id: u64|
            BugRowView { tag, bug_id: crate::text::decimal(id as nat), time: bugs[id].time },
    )
}

/// The rows that a run adds to its table.
pub open spec fn table_rows(tag: Seq<char>, bugs: Map<u64, CheckStatusView>) -> Seq<BugRowView> {
    bug_rows(tag, known_ids(bugs), bugs)
}

pub open spec fn rows_view(rows: Seq<BugRow>) -> Seq<BugRowView> {
    rows.map_values(|row: BugRow| row@)
}

/// A [`LavaPlan`] over its characters and bytes.
pub struct LavaPlanView {
    pub tag: Seq<char>,
    pub crash_dir: Seq<char>,
    pub command: Seq<char>,
    pub dst: Seq<u8>,
}

impl View for LavaPlan {
    type V = LavaPlanView;

    open spec fn view(&self) -> LavaPlanView {
        LavaPlanView {
            tag: self.tag@,
            crash_dir: self.crash_dir@,
            command: self.command@,
            dst: self.dst@,
        }
    }
}

/// What a task comes to under `vars`.
pub open spec fn lava_plan(
    task: LavaVerifierTask,
    vars: Seq<(Seq<char>, Seq<char>)>,
) -> LavaPlanView {
    LavaPlanView {
        tag: match crate::vars::value_of(vars, "TAG"@) {
            Some(tag) => tag,
            None => "?"@,
        },
        crash_dir: crate::vars::expanded(vars, task.crash_dir@),
        command: task.command@,
        dst: encode_utf8(crate::vars::expanded(vars, task.dst@)),
    }
}

impl LavaVerifierTask {
    /// What the task comes to under `vars`.
    pub fn plan(&self, vars: &Variables) -> (plan: LavaPlan)
        ensures
            plan@ == lava_plan(*self, vars@),
    {
        let tag = match vars.get("TAG") {
            Some(tag) => tag.to_string(),
            None => "?".to_string(),
        };
        LavaPlan {
            tag,
            crash_dir: vars.expand_vars(self.crash_dir.as_str()),
            command: self.command.clone(),
            dst: UnixPath::new(vars.expand_vars(self.dst.as_str()).as_str()),
        }
    }
}

impl LavaPlan {
    /// What is said where the directory of the crashes cannot be looked at.
    pub fn stat_context(&self) -> (text: String)
        ensures
            text@ == "Failed to stat: "@ + self@.crash_dir,
    {
        let mut text = "Failed to stat: ".to_string();
        text.append(self.crash_dir.as_str());
        text
    }

    /// The rows that a check adds to the table. The first one is there whatever was found.
    pub fn rows(&self, bugs: &BTreeMap<u64, CheckStatus>) -> (rows: Vec<BugRow>)
        ensures
            rows_view(rows@) == table_rows(
                self@.tag,
                crate::lava::check::statuses_view(bugs@),
            ),
    {
        let ghost known = crate::lava::check::statuses_view(bugs@);
        let mut rows: Vec<BugRow> = Vec::new();
        rows.push(BugRow { tag: self.tag.clone(), bug_id: "none".to_string(), time: 0 });
        let ghost keys = vstd::std_specs::iter::IteratorSpec::remaining(&bugs.keys());
        let ghost ids = keys.unref();
        assert(rows_view(rows@) =~= bug_rows(self.tag@, ids.take(0), known));
        assert forall|id: u64| #[trigger] ids.contains(id) <==> known.contains_key(id) by {
            assert(ids.to_set().contains(id) <==> bugs@.dom().contains(id));
        }
        proof {
            lemma_keys_ascend(keys);
            assert(in_order(ids, known));
            lemma_known_ids(known);
            lemma_one_order(ids, known_ids(known));
        }
        for id in it: bugs.keys()
            invariant
                it.seq() == keys,
                ids == keys.unref(),
                known == crate::lava::check::statuses_view(bugs@),
                in_order(ids, known),
                rows_view(rows@) == bug_rows(self.tag@, ids.take(it.index()), known),
        {
            let ghost before = rows@;
            assert(ids[it.index()] == *id && ids.contains(*id));
            if let Some(status) = bugs.get(id) {
                rows.push(
                    BugRow {
                        tag: self.tag.clone(),
                        bug_id: decimal_string(*id),
                        time: status.time,
                    },
                );
                assert(rows_view(rows@) =~= rows_view(before).push(rows@.last()@));
                assert(rows_view(rows@) =~= bug_rows(
                    self.tag@,
                    ids.take(it.index() + 1),
                    known,
                ));
            }
        }
        assert(ids.take(ids.len() as int) =~= ids);
        rows
    }
}

/// A table has, under the tag of the run, one row that says that it took place and then a row for
/// each bug that is known and for no other, in ascending order, with its number and the time that it
/// is known from.
pub proof fn lemma_table(tag: Seq<char>, bugs: Map<u64, CheckStatusView>)
    ensures
        ({
            let rows = table_rows(tag, bugs);
            let ids = known_ids(bugs);
            &&& forall|i: int, j: int| 0 <= i < j < ids.len() ==> ids[i] < ids[j]
            &&& forall|id: u64| #[trigger] ids.contains(id) <==> bugs.contains_key(id)
            &&& rows.len() == 1 + ids.len()
            &&& rows[0] == (BugRowView { tag, bug_id: "none"@, time: 0 })
            &&& forall|i: int|
                0 <= i < ids.len() ==> rows[1 + i] == (BugRowView {
                    tag,
                    bug_id: crate::text::decimal(#[trigger] ids[i] as nat),
                    time: bugs[ids[i]].time,
                })
        }),
{
    lemma_known_ids(bugs);
}

/// A task is about the crashes in its directory and about its table, with the variables in both
/// paths replaced; its command is a template still. Its rows are marked with the variable `TAG`, or
/// with a question mark where that is not set.
pub proof fn lemma_plan_of_task(
    task: LavaVerifierTask,
    vars: Seq<(Seq<char>, Seq<char>)>,
    before: Seq<char>,
    name: Seq<char>,
    value: Seq<char>,
    after: Seq<char>,
)
    requires
        !before.contains('{'),
        !name.contains('}'),
        !after.contains('{'),
        crate::vars::value_of(vars, name) == Some(value),
    ensures
        ({
            let plan = lava_plan(task, vars);
            let template = before + seq!['{'] + name + seq!['}'] + after;
            &&& plan.command == task.command@
            &&& task.crash_dir@ == template ==> plan.crash_dir == before + value + after
            &&& task.dst@ == template ==> plan.dst == encode_utf8(before + value + after)
            &&& crate::vars::value_of(vars, "TAG"@) matches Some(tag) ==> plan.tag == tag
            &&& crate::vars::value_of(vars, "TAG"@) is None ==> plan.tag == "?"@
        }),
{
    crate::vars::lemma_expand_one(vars, before, name, value, after);
}

} // verus!
