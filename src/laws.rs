//! Properties that relate several operations of the library.
use vstd::prelude::*;

use crate::ast::{
    blocks_in, container_blocks, first_set_child, interpolated, is_container, platform_blocks, platforms_from,
    quoted, set_or_keep, set_span, BlockV,
};
use crate::syntax::{tree_of, SyntaxNode};
use crate::oracle::{oracle_hash, skip_blanks, token_end};
use crate::package::{skip_spec, UpdateStatus};
use crate::strategy::{all_built, begin_status, built_status, cached_status, finish_status};
use crate::text::{find_from, is_space, occurs_at};

verus! {

/// A successful `set` of a string that holds no interpolation rewrites
/// exactly the span of that string: the text before it and after it is kept
/// character for character, and the span becomes the quoted new value.
pub proof fn lemma_set_keeps_outside(t: Seq<char>, name: Seq<char>, old_value: Seq<char>, new_value: Seq<char>)
    requires
        set_span(t, name, old_value) is Some,
        !interpolated(t.subrange(set_span(t, name, old_value).unwrap().0, set_span(t, name, old_value).unwrap().1)),
    ensures
        ({
            let (s, e) = set_span(t, name, old_value).unwrap();
            let (t2, ok) = set_or_keep(t, name, old_value, new_value);
            let q = quoted(new_value).len();
            &&& ok
            &&& t2.len() == t.len() - (e - s) + q
            &&& t2.take(s) == t.take(s)
            &&& t2.subrange(s, s + q) == quoted(new_value)
            &&& t2.skip(s + q) == t.skip(e)
        }),
{
    crate::ast::lemma_set_span_bounds(t, name, old_value);
    let (s, e) = set_span(t, name, old_value).unwrap();
    let t2 = t.take(s) + quoted(new_value) + t.skip(e);
    let q = quoted(new_value).len() as int;
    assert(t2.take(s) =~= t.take(s));
    assert(t2.subrange(s, s + q) =~= quoted(new_value));
    assert(t2.skip(s + q) =~= t.skip(e));
}

/// `set` never changes a text whose target string holds an interpolation,
/// and never changes a text in which it finds no target at all.
pub proof fn lemma_interpolation_guard(t: Seq<char>, name: Seq<char>, old_value: Seq<char>, new_value: Seq<char>)
    ensures
        set_span(t, name, old_value) matches Some((s, e)) && interpolated(t.subrange(s, e)) ==> set_or_keep(
            t,
            name,
            old_value,
            new_value,
        ) == (t, true),
        set_span(t, name, old_value) is None ==> set_or_keep(t, name, old_value, new_value) == (t, false),
{
}

/// Deciding twice, with no change upstream and without force, finds the
/// recipe up to date both times and changes nothing the second time.
pub proof fn lemma_skip_idempotent(s: Set<UpdateStatus>, current: Seq<char>, latest: Seq<char>)
    requires
        current == latest,
        !s.contains(UpdateStatus::Failed),
    ensures
        skip_spec(false, current, latest),
        begin_status(s, false, current, latest).contains(UpdateStatus::UpToDate),
        begin_status(begin_status(s, false, current, latest), false, current, latest) == begin_status(
            s,
            false,
            current,
            latest,
        ),
{
    assert(begin_status(s, false, current, latest) =~= s.insert(UpdateStatus::UpToDate));
    assert(s.insert(UpdateStatus::UpToDate).insert(UpdateStatus::UpToDate) =~= s.insert(UpdateStatus::UpToDate));
}

proof fn lemma_token_end_run(d: Seq<char>, a: int, h: Seq<char>)
    requires
        0 <= a,
        a + h.len() <= d.len(),
        d.subrange(a, a + h.len()) == h,
        forall|i: int| 0 <= i < h.len() ==> !is_space(#[trigger] h[i]),
        a + h.len() == d.len() || is_space(d[a + h.len()]),
    ensures
        token_end(d, a) == a + h.len(),
    decreases h.len(),
{
    if h.len() > 0 {
        assert(d[a] == h[0]);
        assert(d.subrange(a + 1, a + 1 + h.skip(1).len()) =~= h.skip(1));
        lemma_token_end_run(d, a + 1, h.skip(1));
    }
}

proof fn lemma_find_first(d: Seq<char>, m: Seq<char>, from: int, k: int)
    requires
        0 <= from <= k,
        occurs_at(d, m, k),
        forall|j: int| from <= j < k ==> !occurs_at(d, m, j),
    ensures
        find_from(d, m, from) == Some(k),
    decreases k - from,
{
    if from < k {
        lemma_find_first(d, m, from + 1, k);
    }
}

/// Diagnostics `pre + "got: " + h + rest`, with no `got:` before the one
/// shown, `h` free of whitespace and `rest` empty or starting with
/// whitespace, report exactly `h`.
pub proof fn lemma_oracle_extraction(pre: Seq<char>, h: Seq<char>, rest: Seq<char>)
    requires
        forall|i: int| 0 <= i < h.len() ==> !is_space(#[trigger] h[i]),
        h.len() > 0,
        rest.len() == 0 || is_space(rest[0]),
        forall|k: int| 0 <= k < pre.len() ==> !occurs_at(pre + "got: "@ + h + rest, "got:"@, k),
    ensures
        oracle_hash(pre + "got: "@ + h + rest) == Some(h),
{
    reveal_strlit("got: ");
    reveal_strlit("got:");
    let d = pre + "got: "@ + h + rest;
    let p = pre.len() as int;
    assert(d.subrange(p, p + 4) =~= "got:"@);
    lemma_find_first(d, "got:"@, 0, p);
    assert(d[p + 4] == ' ');
    assert(d[p + 5] == h[0]);
    assert(skip_blanks(d, p + 5) == p + 5);
    assert(skip_blanks(d, p + 4) == p + 5);
    assert(d.subrange(p + 5, p + 5 + h.len()) =~= h);
    if rest.len() > 0 {
        assert(d[p + 5 + h.len()] == rest[0]);
    }
    lemma_token_end_run(d, p + 5, h);
}

/// The statuses of a recipe are consistent: a failed recipe is neither up to
/// date nor updated.
pub open spec fn status_consistent(s: Set<UpdateStatus>) -> bool {
    s.contains(UpdateStatus::Failed) ==> !s.contains(UpdateStatus::UpToDate) && !s.contains(
        UpdateStatus::Updated,
    )
}

/// Every way a recipe's statuses change keeps them consistent, so a failed
/// recipe is never taken for an up-to-date one: it always has its row in the
/// report, whatever happens to the other recipes of the batch.
pub proof fn lemma_failure_isolated(s: Set<UpdateStatus>)
    requires
        status_consistent(s),
    ensures
        status_consistent(set![UpdateStatus::Failed]),
        status_consistent(
            if s.contains(UpdateStatus::Failed) {
                s
            } else {
                s.insert(UpdateStatus::UpToDate)
            },
        ),
        status_consistent(
            if s.contains(UpdateStatus::Failed) {
                s
            } else {
                s.insert(UpdateStatus::Updated)
            },
        ),
        status_consistent(s.insert(UpdateStatus::Built)),
        status_consistent(s.insert(UpdateStatus::Cached)),
        s.contains(UpdateStatus::Failed) ==> !s.contains(UpdateStatus::UpToDate),
{
}

/// The build logs go exactly when every recipe was built: a single recipe
/// that was not keeps them for all.
pub proof fn lemma_cleanup_gating(results: Seq<crate::package::UpdateResult>, k: int)
    requires
        0 <= k < results.len(),
        !results[k].status@.contains(UpdateStatus::Built),
    ensures
        !all_built(results),
{
}

/// In a batch where recipe `k` failed at its update and every other recipe
/// was updated, each recipe's outcome depends on its own steps alone: every
/// recipe keeps its row in the report (none is up to date), `k` shows as
/// failed, and every other recipe whose build succeeds is built, and cached
/// when caching is on and its push was made.
pub proof fn lemma_batch_isolation(
    updated: Seq<Set<UpdateStatus>>,
    k: int,
    force: bool,
    build_only: bool,
    build_ok: Seq<bool>,
    cache: bool,
    pushed: Seq<bool>,
)
    requires
        0 <= k < updated.len(),
        build_ok.len() == updated.len(),
        pushed.len() == updated.len(),
        updated[k] == set![UpdateStatus::Failed],
        forall|j: int|
            0 <= j < updated.len() && j != k ==> (#[trigger] updated[j]).contains(UpdateStatus::Updated)
                && !updated[j].contains(UpdateStatus::UpToDate) && !updated[j].contains(UpdateStatus::Failed),
    ensures
        ({
            let fin = Seq::new(
                updated.len(),
                |j: int| finish_status(updated[j], force, build_only, build_ok[j], cache, pushed[j]),
            );
            &&& forall|j: int| 0 <= j < fin.len() ==> !(#[trigger] fin[j]).contains(UpdateStatus::UpToDate)
            &&& fin[k] == set![UpdateStatus::Failed]
            &&& forall|j: int|
                0 <= j < fin.len() && j != k && build_ok[j] ==> (#[trigger] fin[j]).contains(UpdateStatus::Built)
            &&& forall|j: int|
                0 <= j < fin.len() && j != k && build_ok[j] && cache && pushed[j] ==> (#[trigger] fin[j]).contains(
                    UpdateStatus::Cached,
                )
        }),
{
    let fin = Seq::new(
        updated.len(),
        |j: int| finish_status(updated[j], force, build_only, build_ok[j], cache, pushed[j]),
    );
    assert(fin[k] == set![UpdateStatus::Failed]);
    assert forall|j: int| 0 <= j < fin.len() implies !(#[trigger] fin[j]).contains(UpdateStatus::UpToDate) by {
        if j == k {
            assert(!updated[k].contains(UpdateStatus::UpToDate));
        } else {
            assert(!updated[j].contains(UpdateStatus::UpToDate));
        }
    }
    assert forall|j: int| 0 <= j < fin.len() && j != k && build_ok[j] implies (#[trigger] fin[j]).contains(UpdateStatus::Built) by {
        assert(updated[j].contains(UpdateStatus::Updated));
    }
    assert forall|j: int| 0 <= j < fin.len() && j != k && build_ok[j] && cache && pushed[j] implies (#[trigger] fin[j]).contains(UpdateStatus::Cached) by {
        assert(updated[j].contains(UpdateStatus::Updated));
    }
}

/// Failed is terminal: none of the steps that follow an update (the skip
/// decision, the builder's verdict, a cache push, the whole finish) changes
/// the statuses of a failed recipe.
pub proof fn lemma_failed_terminal(force: bool, build_only: bool, build_ok: bool, cache: bool, pushed: bool, current: Seq<char>, latest: Seq<char>)
    ensures
        begin_status(set![UpdateStatus::Failed], force, current, latest) == set![UpdateStatus::Failed],
        built_status(set![UpdateStatus::Failed], build_ok) == set![UpdateStatus::Failed],
        cached_status(set![UpdateStatus::Failed]) == set![UpdateStatus::Failed],
        finish_status(set![UpdateStatus::Failed], force, build_only, build_ok, cache, pushed) == set![
            UpdateStatus::Failed,
        ],
{
    assert(set![UpdateStatus::Failed].contains(UpdateStatus::Failed));
}

/// Every block in `b` has at least one attribute.
pub open spec fn all_populated(b: Seq<BlockV>) -> bool {
    forall|i: int| 0 <= i < b.len() ==> (#[trigger] b[i]).1.len() > 0
}

proof fn lemma_blocks_in_populated(ns: Seq<SyntaxNode>, t: Seq<char>, v: int, j: int, acc: Seq<BlockV>)
    requires
        all_populated(acc),
    ensures
        all_populated(blocks_in(ns, t, v, j, acc)),
        acc.len() <= blocks_in(ns, t, v, j, acc).len(),
    decreases ns.len() - j,
{
    if crate::ast::in_subtree(ns, v, j) {
        if crate::ast::is_child(ns, v, j) && ns[j].kind == crate::syntax::NODE_ATTRPATH_VALUE && crate::ast::first_child(ns, j) is Some {
            let attrs = crate::ast::entry_attrs(ns, t, j, j + 1, Seq::empty());
            let name = crate::text::trim_quotes(crate::ast::node_text(ns, t, crate::ast::first_child(ns, j).unwrap()));
            let acc2 = if attrs.len() > 0 { acc.push((name, attrs)) } else { acc };
            assert(all_populated(acc2));
            lemma_blocks_in_populated(ns, t, v, j + 1, acc2);
        } else {
            lemma_blocks_in_populated(ns, t, v, j + 1, acc);
        }
    }
}

proof fn lemma_platforms_populated(ns: Seq<SyntaxNode>, t: Seq<char>, i: int, acc: Seq<BlockV>)
    requires
        all_populated(acc),
    ensures
        all_populated(platforms_from(ns, t, i, acc)),
    decreases ns.len() - i,
{
    if 0 <= i < ns.len() {
        if is_container(ns, t, i) {
            if let Some(c) = first_set_child(ns, i, i + 1) {
                lemma_blocks_in_populated(ns, t, c, c + 1, acc);
            }
            lemma_platforms_populated(ns, t, i + 1, container_blocks(ns, t, i, acc));
        } else {
            lemma_platforms_populated(ns, t, i + 1, acc);
        }
    }
}

proof fn lemma_platforms_without_container(ns: Seq<SyntaxNode>, t: Seq<char>, i: int, acc: Seq<BlockV>)
    requires
        forall|k: int| 0 <= k < ns.len() ==> !is_container(ns, t, k),
    ensures
        platforms_from(ns, t, i, acc) == acc,
    decreases ns.len() - i,
{
    if 0 <= i < ns.len() {
        lemma_platforms_without_container(ns, t, i + 1, acc);
    }
}

/// Platform extraction reports no empty block, and a recipe with no
/// `platformData` or `dists` container has no blocks at all.
pub proof fn lemma_platform_blocks(t: Seq<char>)
    ensures
        all_populated(platform_blocks(t)),
        (forall|k: int| 0 <= k < tree_of(t).len() ==> !is_container(tree_of(t), t, k)) ==> platform_blocks(t).len() == 0,
{
    lemma_platforms_populated(tree_of(t), t, 0, Seq::empty());
    if forall|k: int| 0 <= k < tree_of(t).len() ==> !is_container(tree_of(t), t, k) {
        lemma_platforms_without_container(tree_of(t), t, 0, Seq::empty());
    }
}

} // verus!
