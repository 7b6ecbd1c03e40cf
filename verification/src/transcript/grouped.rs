//! One turn from one group of records: a model response is written a content
//! block per record, and its records are rejoined here into one turn.
use vstd::prelude::*;
use crate::transcript::command::CommandTags;
use crate::transcript::json::Json;
use crate::transcript::mapper::{status_part_is, TurnMapper};
use crate::transcript::operator::{appended, operator_pieces, spells_as, uploads_view};
use crate::transcript::record::{rfc3339_millis, role_of, Record, Role, Timestamp};
use crate::transcript::results::ToolOutcome;
use crate::transcript::speaker::{judges_as, tags_view};
use crate::transcript::tools::{describes_as, split_by_blocks, ToolTables};
use crate::transcript::turn::{Part, Turn};
use crate::transcript::record::record_blocks;

verus! {

/// Whether `after` is `before` with what record `r` shows as, in a turn of
/// `role`, appended.
pub open spec fn record_parts_are(
    before: Seq<Part>,
    after: Seq<Part>,
    r: Record,
    role: Role,
    tags: Option<CommandTags>,
    uploads: Option<Seq<char>>,
    tables: ToolTables,
    outcomes: Seq<(String, ToolOutcome)>,
    noise: spec_fn(Seq<char>) -> bool,
    canon: spec_fn(Seq<char>) -> Seq<char>,
    d: spec_fn(Seq<char>, Json) -> (Seq<char>, Seq<char>, Seq<char>),
) -> bool {
    match role {
        Role::Agent => exists|b: Seq<int>|
            #[trigger] split_by_blocks(before, after, b, record_blocks(r), tables, outcomes, uploads, canon, d),
        Role::Operator => appended(before, after, operator_pieces(tags, uploads, r, noise), uploads, canon),
    }
}

/// Whether `parts` is what the records of `group` show as, one after the
/// other: record `i` adds the parts from `marks[i]` up to `marks[i + 1]`.
pub open spec fn group_parts_are(
    parts: Seq<Part>,
    marks: Seq<int>,
    group: Seq<Record>,
    role: Role,
    tags: Option<CommandTags>,
    uploads: Option<Seq<char>>,
    tables: ToolTables,
    outcomes: Seq<(String, ToolOutcome)>,
    noise: spec_fn(Seq<char>) -> bool,
    canon: spec_fn(Seq<char>) -> Seq<char>,
    d: spec_fn(Seq<char>, Json) -> (Seq<char>, Seq<char>, Seq<char>),
) -> bool {
    &&& marks.len() == group.len() + 1
    &&& marks[0] == 0
    &&& marks.last() == parts.len()
    &&& forall|i: int| 0 <= i <= group.len() ==> 0 <= #[trigger] marks[i] <= parts.len()
    &&& forall|i: int| 0 <= i < group.len() ==> record_parts_are(
        parts.take(marks[i]),
        parts.take(marks[i + 1]),
        #[trigger] group[i],
        role,
        tags,
        uploads,
        tables,
        outcomes,
        noise,
        canon,
        d,
    )
}

/// The label marking where the harness replaced the agent's context.
pub open spec fn compacted_label() -> Seq<char> {
    "Context compacted"@
}

/// When a record was written, or the epoch when it says nothing readable.
pub open spec fn stamp_or_epoch(r: Record) -> Timestamp {
    match r.timestamp {
        Some(raw) => match rfc3339_millis(raw@) {
            Some(ms) => Timestamp(ms),
            None => Timestamp(0),
        },
        None => Timestamp(0),
    }
}

proof fn lemma_record_prefix(
    before: Seq<Part>,
    after: Seq<Part>,
    r: Record,
    role: Role,
    tags: Option<CommandTags>,
    uploads: Option<Seq<char>>,
    tables: ToolTables,
    outcomes: Seq<(String, ToolOutcome)>,
    noise: spec_fn(Seq<char>) -> bool,
    canon: spec_fn(Seq<char>) -> Seq<char>,
    d: spec_fn(Seq<char>, Json) -> (Seq<char>, Seq<char>, Seq<char>),
)
    requires
        record_parts_are(before, after, r, role, tags, uploads, tables, outcomes, noise, canon, d),
    ensures
        before.len() <= after.len(),
        after.take(before.len() as int) == before,
{
    match role {
        Role::Agent => {
            let b = choose|b: Seq<int>|
                #[trigger] split_by_blocks(before, after, b, record_blocks(r), tables, outcomes, uploads, canon, d);
            let n = record_blocks(r).len() as int;
            lemma_ascending(b, n, 0, n);
        },
        Role::Operator => {},
    }
}

proof fn lemma_ascending(bounds: Seq<int>, n: int, a: int, b: int)
    requires
        bounds.len() == n + 1,
        forall|i: int| 0 <= i < n ==> bounds[i] <= #[trigger] bounds[i + 1],
        0 <= a <= b <= n,
    ensures
        bounds[a] <= bounds[b],
    decreases b - a,
{
    if a < b {
        lemma_ascending(bounds, n, a + 1, b);
        assert(bounds[a] <= bounds[a + 1]);
    }
}

proof fn lemma_group_push(
    was: Seq<Part>,
    after: Seq<Part>,
    marks: Seq<int>,
    group: Seq<Record>,
    r: Record,
    role: Role,
    tags: Option<CommandTags>,
    uploads: Option<Seq<char>>,
    tables: ToolTables,
    outcomes: Seq<(String, ToolOutcome)>,
    noise: spec_fn(Seq<char>) -> bool,
    canon: spec_fn(Seq<char>) -> Seq<char>,
    d: spec_fn(Seq<char>, Json) -> (Seq<char>, Seq<char>, Seq<char>),
)
    requires
        group_parts_are(was, marks, group, role, tags, uploads, tables, outcomes, noise, canon, d),
        record_parts_are(was, after, r, role, tags, uploads, tables, outcomes, noise, canon, d),
    ensures
        group_parts_are(
            after,
            marks.push(after.len() as int),
            group.push(r),
            role,
            tags,
            uploads,
            tables,
            outcomes,
            noise,
            canon,
            d,
        ),
{
    lemma_record_prefix(was, after, r, role, tags, uploads, tables, outcomes, noise, canon, d);
    let nm = marks.push(after.len() as int);
    let ng = group.push(r);
    assert forall|i: int| 0 <= i <= ng.len() implies 0 <= #[trigger] nm[i] <= after.len() by {
        if i <= group.len() {
            assert(0 <= marks[i] <= was.len());
        }
    }
    assert forall|i: int| 0 <= i < ng.len() implies record_parts_are(
        after.take(nm[i]),
        after.take(nm[i + 1]),
        #[trigger] ng[i],
        role,
        tags,
        uploads,
        tables,
        outcomes,
        noise,
        canon,
        d,
    ) by {
        if i < group.len() {
            assert(0 <= marks[i] <= was.len());
            assert(0 <= marks[i + 1] <= was.len());
            assert(after.take(marks[i]) =~= was.take(marks[i]));
            assert(after.take(marks[i + 1]) =~= was.take(marks[i + 1]));
            assert(record_parts_are(was.take(marks[i]), was.take(marks[i + 1]), group[i], role, tags, uploads,
                tables, outcomes, noise, canon, d));
        } else {
            assert(nm[i] == was.len());
            assert(after.take(was.len() as int) == was);
            assert(after.take(after.len() as int) =~= after);
        }
    }
}

impl TurnMapper {
    /// One turn from one group of records, in the role of its first: the
    /// records' parts one after the other. The seam where the harness
    /// replaced its context shows as a marker under the agent's role, its
    /// body dropped. Nothing for a group that is no one's, whose first record
    /// has no id, or that shows as nothing.
    pub fn turn<F: Fn(&str) -> bool, G: Fn(&str) -> String, D: Fn(&str, &Json) -> (String, String, String)>(
        group: &[Record],
        tags: Option<&CommandTags>,
        uploads: Option<&str>,
        tables: &ToolTables,
        outcomes: &Vec<(String, ToolOutcome)>,
        is_noise: &F,
        canonical: &G,
        describe: &D,
    ) -> (t: Option<Turn>)
        requires
            forall|t: &str| is_noise.requires((t,)),
            forall|t: &str| canonical.requires((t,)),
            forall|id: &str, input: &Json| describe.requires((id, input)),
        ensures
            forall|
                noise: spec_fn(Seq<char>) -> bool,
                canon: spec_fn(Seq<char>) -> Seq<char>,
                d: spec_fn(Seq<char>, Json) -> (Seq<char>, Seq<char>, Seq<char>),
            |
                judges_as(*is_noise, noise) && spells_as(*canonical, canon) && describes_as(*describe, d) ==> match t {
                    None => group@.len() == 0 || role_of(group@[0], tags_view(tags)) is None || group@[0].uuid is None
                        || (!group@[0].is_compact_summary && exists|marks: Seq<int>|
                        #[trigger] group_parts_are(
                            Seq::empty(),
                            marks,
                            group@,
                            role_of(group@[0], tags_view(tags))->0,
                            tags_view(tags),
                            uploads_view(uploads),
                            *tables,
                            outcomes@,
                            noise,
                            canon,
                            d,
                        )),
                    Some(turn) => {
                        &&& group@.len() > 0
                        &&& role_of(group@[0], tags_view(tags)) is Some
                        &&& group@[0].uuid is Some
                        &&& turn.at == Some(stamp_or_epoch(group@[0]))
                        &&& if group@[0].is_compact_summary {
                            &&& turn.role == Role::Agent
                            &&& turn.parts@.len() == 1
                            &&& status_part_is(turn.parts@[0], compacted_label())
                        } else {
                            &&& turn.role == role_of(group@[0], tags_view(tags))->0
                            &&& turn.parts@.len() > 0
                            &&& exists|marks: Seq<int>|
                                #[trigger] group_parts_are(
                                    turn.parts@,
                                    marks,
                                    group@,
                                    turn.role,
                                    tags_view(tags),
                                    uploads_view(uploads),
                                    *tables,
                                    outcomes@,
                                    noise,
                                    canon,
                                    d,
                                )
                        }
                    },
                },
    {
        if group.len() == 0 {
            return None;
        }
        let first = &group[0];
        let role = match first.role(tags) {
            Some(r) => r,
            None => return None,
        };
        if first.uuid.is_none() {
            return None;
        }
        let at = match first.at() {
            Some(t) => t,
            None => Timestamp(0),
        };
        if first.is_compact_summary {
            let mut parts: Vec<Part> = Vec::new();
            parts.push(Self::status_part("Context compacted"));
            proof {
                reveal_strlit("Context compacted");
            }
            return Some(Turn { role: Role::Agent, at: Some(at), parts });
        }
        let ghost tv = tags_view(tags);
        let ghost up = uploads_view(uploads);
        let ghost mut marks: Seq<int> = seq![0int];
        let mut parts: Vec<Part> = Vec::new();
        proof {
            assert forall|
                noise: spec_fn(Seq<char>) -> bool,
                canon: spec_fn(Seq<char>) -> Seq<char>,
                d: spec_fn(Seq<char>, Json) -> (Seq<char>, Seq<char>, Seq<char>),
            |
                judges_as(*is_noise, noise) && spells_as(*canonical, canon) && describes_as(*describe, d) implies
                group_parts_are(parts@, marks, group@.take(0), role, tv, up, *tables, outcomes@, noise, canon, d) by {
                assert(group@.take(0) =~= Seq::<Record>::empty());
            }
        }
        let mut i: usize = 0;
        while i < group.len()
            invariant
                i <= group@.len(),
                tv == tags_view(tags),
                up == uploads_view(uploads),
                forall|t: &str| is_noise.requires((t,)),
                forall|t: &str| canonical.requires((t,)),
                forall|id: &str, input: &Json| describe.requires((id, input)),
                forall|
                    noise: spec_fn(Seq<char>) -> bool,
                    canon: spec_fn(Seq<char>) -> Seq<char>,
                    d: spec_fn(Seq<char>, Json) -> (Seq<char>, Seq<char>, Seq<char>),
                |
                    judges_as(*is_noise, noise) && spells_as(*canonical, canon) && describes_as(*describe, d) ==>
                    group_parts_are(parts@, marks, group@.take(i as int), role, tv, up, *tables, outcomes@, noise, canon, d),
            decreases group@.len() - i,
        {
            let ghost was = parts@;
            match role {
                Role::Agent => Self::agent_parts(&group[i], tables, outcomes, uploads, canonical, describe, &mut parts),
                Role::Operator => Self::operator_parts(tags, uploads, &group[i], is_noise, canonical, &mut parts),
            }
            proof {
                assert(group@.take(i + 1) =~= group@.take(i as int).push(group@[i as int]));
                assert forall|
                    noise: spec_fn(Seq<char>) -> bool,
                    canon: spec_fn(Seq<char>) -> Seq<char>,
                    d: spec_fn(Seq<char>, Json) -> (Seq<char>, Seq<char>, Seq<char>),
                |
                    judges_as(*is_noise, noise) && spells_as(*canonical, canon) && describes_as(*describe, d) implies
                    group_parts_are(parts@, marks.push(parts@.len() as int), group@.take(i + 1), role, tv, up, *tables,
                        outcomes@, noise, canon, d) by {
                    assert(record_parts_are(was, parts@, group@[i as int], role, tv, up, *tables, outcomes@, noise,
                        canon, d));
                    lemma_group_push(was, parts@, marks, group@.take(i as int), group@[i as int], role, tv, up,
                        *tables, outcomes@, noise, canon, d);
                }
                marks = marks.push(parts@.len() as int);
            }
            i = i + 1;
        }
        proof {
            assert(group@.take(group@.len() as int) =~= group@);
            assert forall|
                noise: spec_fn(Seq<char>) -> bool,
                canon: spec_fn(Seq<char>) -> Seq<char>,
                d: spec_fn(Seq<char>, Json) -> (Seq<char>, Seq<char>, Seq<char>),
            |
                judges_as(*is_noise, noise) && spells_as(*canonical, canon) && describes_as(*describe, d) implies
                exists|m: Seq<int>| #[trigger] group_parts_are(parts@, m, group@, role, tv, up, *tables, outcomes@,
                    noise, canon, d) by {
                assert(group_parts_are(parts@, marks, group@, role, tv, up, *tables, outcomes@, noise, canon, d));
            }
        }
        if parts.len() == 0 {
            proof {
                assert(parts@ =~= Seq::<Part>::empty());
            }
            return None;
        }
        let turn = Turn { role, at: Some(at), parts };
        proof {
            assert(*first == group@[0]);
            assert(role == role_of(group@[0], tags_view(tags))->0);
            assert(turn.at == Some(stamp_or_epoch(group@[0])));
            assert(turn.parts@ == parts@);
        }
        Some(turn)
    }
}

} // verus!
