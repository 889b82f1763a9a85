//! Default actions and tags derived from a candidate's score, age and size.
//!
//! The score itself combines age, size (on a log scale) and reproducibility with
//! floating-point weights; it is computed by the caller and handed in here in
//! thousandths.
use vstd::prelude::*;
use crate::candidate::{Action, Candidate};
use crate::profile::Profile;
use crate::selection::AUTO_SELECT_SCORE;
use crate::text::{clone_strings, owned};
use crate::time::{now, Timestamp};

verus! {

/// The action a candidate gets: command-based actions set by a target are kept,
/// otherwise a score of at least 0.7 means delete.
pub open spec fn decided_action(a: Action, score: u32) -> Action {
    if a is Exec {
        a
    } else if score >= AUTO_SELECT_SCORE {
        Action::Delete
    } else {
        Action::Skip
    }
}

/// The tags added to a candidate: "old" past twice the minimum age, "reproducible"
/// from reproducibility 0.9, "large" above one billion bytes.
pub open spec fn added_tags(c: Candidate, min_age: int, now: Timestamp) -> Seq<Seq<char>> {
    let old: Seq<Seq<char>> = if c.age_at(now) matches Some(d) && d > min_age * 2 {
        seq!["old"@]
    } else {
        seq![]
    };
    let repro: Seq<Seq<char>> = if c.reproducibility >= 900 {
        seq!["reproducible"@]
    } else {
        seq![]
    };
    let large: Seq<Seq<char>> = if c.size_bytes > 1_000_000_000 {
        seq!["large"@]
    } else {
        seq![]
    };
    old + repro + large
}

/// The tags added when ages count up to `now`, if the clock gave an instant; without
/// one no age is known and "old" is not added.
pub open spec fn added_tags_opt(c: Candidate, min_age: int, now: Option<Timestamp>) -> Seq<Seq<char>> {
    match now {
        Some(t) => added_tags(c, min_age, t),
        None => {
            let repro: Seq<Seq<char>> = if c.reproducibility >= 900 {
                seq!["reproducible"@]
            } else {
                seq![]
            };
            let large: Seq<Seq<char>> = if c.size_bytes > 1_000_000_000 {
                seq!["large"@]
            } else {
                seq![]
            };
            repro + large
        },
    }
}

/// The characters of each string.
pub open spec fn tag_views(v: Seq<String>) -> Seq<Seq<char>> {
    v.map_values(|s: String| s@)
}

/// Candidates with score >= 0.7 are pre-selected for deletion; `Exec` candidates
/// keep the action their target module set.
pub fn default_action(c: &Candidate) -> (r: Action)
    ensures
        r.same_as(decided_action(c.action, c.score)),
{
    if matches!(c.action, Action::Exec { .. }) {
        return c.action.duplicate();
    }
    if c.score >= AUTO_SELECT_SCORE {
        Action::Delete
    } else {
        Action::Skip
    }
}

fn push_tag(tags: &mut Vec<String>, t: &str)
    ensures
        tag_views(final(tags)@) == tag_views(old(tags)@).push(t@),
{
    tags.push(owned(t));
    proof {
        assert(tag_views(tags@) =~= tag_views(old(tags)@).push(t@));
    }
}

/// Add the "old", "reproducible" and "large" tags that apply when ages count up to
/// `now` (no "old" tag without an instant).
pub fn populate_tags_when(c: &mut Candidate, profile: &Profile, now: Option<Timestamp>)
    requires
        old(c).wf(),
        now matches Some(t) ==> t.wf(),
    ensures
        tag_views(final(c).tags@) == tag_views(old(c).tags@) + added_tags_opt(
            *old(c),
            profile.min_age_view(old(c).kind.label_view()) as int,
            now,
        ),
        final(c).path == old(c).path,
        final(c).kind == old(c).kind,
        final(c).size_bytes == old(c).size_bytes,
        final(c).last_modified == old(c).last_modified,
        final(c).last_accessed == old(c).last_accessed,
        final(c).reproducibility == old(c).reproducibility,
        final(c).score == old(c).score,
        final(c).action == old(c).action,
        final(c).group == old(c).group,
{
    let min_age: i64 = profile.min_age_for(c.kind.label()) as i64;
    let ghost start = tag_views(c.tags@);
    let ghost cand = *c;
    if let Some(t) = now {
        if let Some(days) = c.age_days_at(&t) {
            if days > min_age * 2 {
                push_tag(&mut c.tags, "old");
            }
        }
    }
    if c.reproducibility >= 900 {
        push_tag(&mut c.tags, "reproducible");
    }
    if c.size_bytes > 1_000_000_000 {
        push_tag(&mut c.tags, "large");
    }
    proof {
        let a = added_tags_opt(cand, min_age as int, now);
        assert(tag_views(c.tags@) =~= start + a);
    }
}

/// Add the "old", "reproducible" and "large" tags that apply at instant `now`.
pub fn populate_tags_at(c: &mut Candidate, profile: &Profile, now: &Timestamp)
    requires
        old(c).wf(),
        now.wf(),
    ensures
        tag_views(final(c).tags@) == tag_views(old(c).tags@) + added_tags(
            *old(c),
            profile.min_age_view(old(c).kind.label_view()) as int,
            *now,
        ),
        final(c).path == old(c).path,
        final(c).kind == old(c).kind,
        final(c).size_bytes == old(c).size_bytes,
        final(c).last_modified == old(c).last_modified,
        final(c).last_accessed == old(c).last_accessed,
        final(c).reproducibility == old(c).reproducibility,
        final(c).score == old(c).score,
        final(c).action == old(c).action,
        final(c).group == old(c).group,
{
    populate_tags_when(c, profile, Some(*now));
}

/// Add the tags that apply now; without a reading of the clock no "old" tag.
pub fn populate_tags(c: &mut Candidate, profile: &Profile)
    requires
        old(c).wf(),
    ensures
        exists|t: Option<Timestamp>|
            #[trigger] crate::time::reading_ok(t) && tag_views(final(c).tags@) == tag_views(old(c).tags@) + added_tags_opt(
                *old(c),
                profile.min_age_view(old(c).kind.label_view()) as int,
                t,
            ),
        final(c).score == old(c).score,
        final(c).action == old(c).action,
        final(c).path == old(c).path,
        final(c).size_bytes == old(c).size_bytes,
{
    let t = now();
    populate_tags_when(c, profile, t);
    proof {
        assert(crate::time::reading_ok(t));
    }
}

/// Score all candidates (with the scores the caller computed, in thousandths of
/// one, so at most 1000) and assign default actions and tags, ages counting up to
/// `now` when there is one.
pub fn apply_when(candidates: &mut Vec<Candidate>, profile: &Profile, scores: &Vec<u32>, now: Option<Timestamp>)
    requires
        scores@.len() == old(candidates)@.len(),
        forall|i: int| 0 <= i < scores@.len() ==> #[trigger] scores@[i] <= 1000,
        forall|i: int| 0 <= i < old(candidates)@.len() ==> (#[trigger] old(candidates)@[i]).wf(),
        now matches Some(t) ==> t.wf(),
    ensures
        final(candidates)@.len() == old(candidates)@.len(),
        forall|i: int|
            0 <= i < final(candidates)@.len() ==> {
                let o = old(candidates)@[i];
                let n = #[trigger] final(candidates)@[i];
                &&& n.score == scores@[i]
                &&& n.score <= 1000
                &&& n.action.same_as(decided_action(o.action, scores@[i]))
                &&& (o.action is Exec ==> n.action.same_as(o.action))
                &&& (!(o.action is Exec) ==> n.action == (if scores@[i] >= 700 { Action::Delete } else { Action::Skip }))
                &&& tag_views(n.tags@) == tag_views(o.tags@) + added_tags_opt(
                    o,
                    profile.min_age_view(o.kind.label_view()) as int,
                    now,
                )
                &&& n.path == o.path
                &&& n.kind == o.kind
                &&& n.size_bytes == o.size_bytes
                &&& n.reproducibility == o.reproducibility
                &&& n.group == o.group
            },
{
    let mut out: Vec<Candidate> = Vec::new();
    let mut i: usize = 0;
    while i < candidates.len()
        invariant
            i <= candidates@.len(),
            candidates@ == old(candidates)@,
            scores@.len() == candidates@.len(),
            forall|j: int| 0 <= j < candidates@.len() ==> (#[trigger] candidates@[j]).wf(),
            now matches Some(t) ==> t.wf(),
            out@.len() == i,
            forall|j: int|
                0 <= j < i ==> {
                    let o = candidates@[j];
                    let n = #[trigger] out@[j];
                    &&& n.score == scores@[j]
                    &&& n.action.same_as(decided_action(o.action, scores@[j]))
                    &&& tag_views(n.tags@) == tag_views(o.tags@) + added_tags_opt(
                        o,
                        profile.min_age_view(o.kind.label_view()) as int,
                        now,
                    )
                    &&& n.path == o.path
                    &&& n.kind == o.kind
                    &&& n.size_bytes == o.size_bytes
                    &&& n.reproducibility == o.reproducibility
                    &&& n.group == o.group
                },
        decreases candidates.len() - i,
    {
        let mut c = candidates[i].duplicate();
        proof {
            assert(tag_views(c.tags@) =~= tag_views(candidates@[i as int].tags@));
        }
        c.score = scores[i];
        c.action = default_action(&c);
        proof {
            assert(c.action.same_as(decided_action(candidates@[i as int].action, scores@[i as int])));
        }
        let ghost before_tags = c;
        populate_tags_when(&mut c, profile, now);
        proof {
            assert(added_tags_opt(before_tags, profile.min_age_view(before_tags.kind.label_view()) as int, now)
                == added_tags_opt(candidates@[i as int], profile.min_age_view(candidates@[i as int].kind.label_view()) as int, now));
        }
        out.push(c);
        i += 1;
    }
    *candidates = out;
}

/// Score all candidates (with the scores the caller computed, in thousandths of
/// one, so at most 1000) and assign default actions and tags at instant `now`.
pub fn apply_at(candidates: &mut Vec<Candidate>, profile: &Profile, scores: &Vec<u32>, now: &Timestamp)
    requires
        scores@.len() == old(candidates)@.len(),
        forall|i: int| 0 <= i < scores@.len() ==> #[trigger] scores@[i] <= 1000,
        forall|i: int| 0 <= i < old(candidates)@.len() ==> (#[trigger] old(candidates)@[i]).wf(),
        now.wf(),
    ensures
        final(candidates)@.len() == old(candidates)@.len(),
        forall|i: int|
            0 <= i < final(candidates)@.len() ==> {
                let o = old(candidates)@[i];
                let n = #[trigger] final(candidates)@[i];
                &&& n.score == scores@[i]
                &&& n.score <= 1000
                &&& n.action.same_as(decided_action(o.action, scores@[i]))
                &&& (o.action is Exec ==> n.action.same_as(o.action))
                &&& (!(o.action is Exec) ==> n.action == (if scores@[i] >= 700 { Action::Delete } else { Action::Skip }))
                &&& tag_views(n.tags@) == tag_views(o.tags@) + added_tags(
                    o,
                    profile.min_age_view(o.kind.label_view()) as int,
                    *now,
                )
                &&& n.path == o.path
                &&& n.kind == o.kind
                &&& n.size_bytes == o.size_bytes
                &&& n.reproducibility == o.reproducibility
                &&& n.group == o.group
            },
{
    apply_when(candidates, profile, scores, Some(*now));
}

/// Score all candidates with the caller's scores (thousandths of one, at most
/// 1000) and assign default actions and tags, counting ages up to the current time
/// (no "old" tag without a clock reading).
pub fn apply(candidates: &mut Vec<Candidate>, profile: &Profile, scores: &Vec<u32>)
    requires
        scores@.len() == old(candidates)@.len(),
        forall|i: int| 0 <= i < scores@.len() ==> #[trigger] scores@[i] <= 1000,
        forall|i: int| 0 <= i < old(candidates)@.len() ==> (#[trigger] old(candidates)@[i]).wf(),
    ensures
        final(candidates)@.len() == old(candidates)@.len(),
        exists|t: Option<Timestamp>|
            #[trigger] crate::time::reading_ok(t) && forall|i: int|
                0 <= i < final(candidates)@.len() ==> {
                    let o = old(candidates)@[i];
                    let n = #[trigger] final(candidates)@[i];
                    &&& n.score == scores@[i]
                    &&& n.score <= 1000
                    &&& n.action.same_as(decided_action(o.action, scores@[i]))
                    &&& (o.action is Exec ==> n.action.same_as(o.action))
                    &&& (!(o.action is Exec) ==> n.action == (if scores@[i] >= 700 { Action::Delete } else { Action::Skip }))
                    &&& tag_views(n.tags@) == tag_views(o.tags@) + added_tags_opt(
                        o,
                        profile.min_age_view(o.kind.label_view()) as int,
                        t,
                    )
                    &&& n.path == o.path
                    &&& n.size_bytes == o.size_bytes
                },
{
    let t = now();
    apply_when(candidates, profile, scores, t);
    proof {
        assert(crate::time::reading_ok(t));
    }
}

/// Command-based actions that a target set survive scoring whatever the score;
/// any other action becomes delete from a score of 700 thousandths (0.7) and skip
/// below it.
pub proof fn law_commands_survive_scoring(a: Action, s1: u32, s2: u32)
    ensures
        a is Exec ==> decided_action(a, s1) == a && decided_action(a, s1) == decided_action(a, s2),
        !(a is Exec) ==> decided_action(a, s1) == (if s1 >= 700 { Action::Delete } else { Action::Skip }),
        !(a is Exec) && s1 <= s2 && decided_action(a, s1) is Delete ==> decided_action(a, s2) is Delete,
{
}

/// The tags scoring adds say what their names say: "old" exactly when the
/// candidate was last used more than twice its minimum age ago, "reproducible"
/// exactly from a reproducibility of 900 thousandths (0.9), "large" exactly above
/// one billion bytes; no other tag is added, and none twice.
pub proof fn law_tags_by_thresholds(c: Candidate, min_age: int, now: Timestamp)
    ensures
        added_tags(c, min_age, now).contains("old"@) <==> (c.age_at(now) matches Some(d) && d > 2 * min_age),
        added_tags(c, min_age, now).contains("reproducible"@) <==> c.reproducibility >= 900,
        added_tags(c, min_age, now).contains("large"@) <==> c.size_bytes > 1_000_000_000,
        forall|i: int|
            0 <= i < added_tags(c, min_age, now).len() ==> #[trigger] added_tags(c, min_age, now)[i] == "old"@
                || added_tags(c, min_age, now)[i] == "reproducible"@ || added_tags(c, min_age, now)[i] == "large"@,
        added_tags(c, min_age, now).no_duplicates(),
{
    reveal_strlit("old");
    reveal_strlit("reproducible");
    reveal_strlit("large");
    let t = added_tags(c, min_age, now);
    let o = "old"@;
    let rp = "reproducible"@;
    let lg = "large"@;
    assert(o.len() == 3 && rp.len() == 12 && lg.len() == 5);
    assert(o != rp && o != lg && rp != lg);
    let old_t: Seq<Seq<char>> = if c.age_at(now) matches Some(d) && d > min_age * 2 { seq![o] } else { seq![] };
    let rep_t: Seq<Seq<char>> = if c.reproducibility >= 900 { seq![rp] } else { seq![] };
    let lar_t: Seq<Seq<char>> = if c.size_bytes > 1_000_000_000 { seq![lg] } else { seq![] };
    assert(t == old_t + rep_t + lar_t);
    assert forall|x: Seq<char>| t.contains(x) <==> (old_t.contains(x) || rep_t.contains(x) || lar_t.contains(x)) by {
        if t.contains(x) {
            let i = choose|i: int| 0 <= i < t.len() && t[i] == x;
            if i < old_t.len() {
                assert(old_t[i] == x);
            } else if i < old_t.len() + rep_t.len() {
                assert(rep_t[i - old_t.len()] == x);
            } else {
                assert(lar_t[i - old_t.len() - rep_t.len()] == x);
            }
        }
        if old_t.contains(x) {
            assert(t[0] == x);
        }
        if rep_t.contains(x) {
            assert(t[old_t.len() as int] == x);
        }
        if lar_t.contains(x) {
            assert(t[(old_t.len() + rep_t.len()) as int] == x);
        }
    }
    if old_t.len() > 0 {
        assert(old_t[0] == o);
        assert(old_t.contains(o));
    }
    if rep_t.len() > 0 {
        assert(rep_t[0] == rp);
        assert(rep_t.contains(rp));
    }
    if lar_t.len() > 0 {
        assert(lar_t[0] == lg);
        assert(lar_t.contains(lg));
    }
    assert forall|i: int| 0 <= i < t.len() implies #[trigger] t[i] == o || t[i] == rp || t[i] == lg by {
        if i < old_t.len() {
            assert(t[i] == old_t[i]);
        } else if i < old_t.len() + rep_t.len() {
            assert(t[i] == rep_t[i - old_t.len()]);
        } else {
            assert(t[i] == lar_t[i - old_t.len() - rep_t.len()]);
        }
    }
    assert forall|i: int, j: int| 0 <= i < t.len() && 0 <= j < t.len() && i != j implies t[i] != t[j] by {
        if i < old_t.len() {
            assert(t[i] == o);
        } else if i < old_t.len() + rep_t.len() {
            assert(t[i] == rp);
        } else {
            assert(t[i] == lg);
        }
        if j < old_t.len() {
            assert(t[j] == o);
        } else if j < old_t.len() + rep_t.len() {
            assert(t[j] == rp);
        } else {
            assert(t[j] == lg);
        }
    }
}

} // verus!
