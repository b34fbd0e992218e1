//! Optimization passes over IR statements.
//!
//! Control flow inside a list of statements is made of relative jumps: a jump
//! at index `n` with relative location `r` lands on statement `n + r + 1`.
use crate::ir::statement::{Location, Statement, NOP_UNREACHABLE};
use vstd::prelude::*;

verus! {

/// Relative offset of a jump statement.
pub open spec fn jump_offset(s: Statement) -> Option<int> {
    match s {
        Statement::Jmp { location: Location::Relative(r) } => Some(r as int),
        Statement::JmpCmp { location: Location::Relative(r), .. } => Some(r as int),
        Statement::JmpCmpNot { location: Location::Relative(r), .. } => Some(r as int),
        _ => None,
    }
}

/// Index of the statement that the jump at index `n` lands on.
pub open spec fn jump_target(s: Statement, n: int) -> int {
    n + jump_offset(s)->0 + 1
}

/// Control may flow from statement `n` to statement `m`.
pub open spec fn flows_to(p: Seq<Statement>, n: int, m: int) -> bool {
    &&& 0 <= n < p.len()
    &&& match p[n] {
        Statement::Stop => false,
        Statement::Jmp { location: Location::Relative(r) } => m == n + r + 1,
        Statement::JmpCmp { location: Location::Relative(r), .. } => m == n + 1 || m == n + r + 1,
        Statement::JmpCmpNot { location: Location::Relative(r), .. } => m == n + 1 || m == n + r
            + 1,
        _ => m == n + 1,
    }
}

/// The program is not empty, and control never leaves it from a statement
/// that is reachable from the first one (see [`reachable`]); unreachable
/// statements may lead anywhere.
pub open spec fn closed_flow(p: Seq<Statement>) -> bool {
    &&& p.len() > 0
    &&& forall|n: int, m: int| #[trigger] flows_to(p, n, m) && reachable(p, n) ==> 0 <= m < p.len()
}

/// Every jump of the program, reachable or not, lands on one of its
/// statements.
pub open spec fn jumps_in_bounds(p: Seq<Statement>) -> bool {
    forall|i: int|
        0 <= i < p.len() && #[trigger] jump_offset(p[i]) is Some ==> 0 <= jump_target(p[i], i) < p.len()
}

/// `path` is a path of control flow from the first statement.
pub open spec fn is_path(p: Seq<Statement>, path: Seq<int>) -> bool {
    &&& path.len() > 0
    &&& path[0] == 0
    &&& forall|i: int| 0 <= i < path.len() - 1 ==> #[trigger] flows_to(p, path[i], path[i + 1])
}

/// Statement `n` is reachable from the first statement.
pub open spec fn reachable(p: Seq<Statement>, n: int) -> bool {
    exists|path: Seq<int>| #[trigger] is_path(p, path) && path.last() == n
}

/// The placeholder left where an unreachable statement was.
pub open spec fn is_dead(s: Statement) -> bool {
    s matches Statement::Nop(n) && n == NOP_UNREACHABLE
}

/// `p` with every unreachable statement replaced by the unreachable placeholder.
pub open spec fn marked(p: Seq<Statement>) -> Seq<Statement> {
    Seq::new(
        p.len(),
        |i: int|
            if reachable(p, i) {
                p[i]
            } else {
                Statement::Nop(NOP_UNREACHABLE)
            },
    )
}

/// Marking unreachable statements changes `p`.
pub open spec fn mark_changes(p: Seq<Statement>) -> bool {
    exists|i: int| 0 <= i < p.len() && !reachable(p, i) && !is_dead(#[trigger] p[i])
}

/// Number of `false` in `v`.
pub open spec fn count_false(v: Seq<bool>) -> nat
    decreases v.len(),
{
    if v.len() == 0 {
        0
    } else {
        count_false(v.drop_last()) + if v.last() {
            0nat
        } else {
            1nat
        }
    }
}

proof fn lemma_count_false_update(v: Seq<bool>, i: int)
    requires
        0 <= i < v.len(),
        !v[i],
    ensures
        count_false(v.update(i, true)) + 1 == count_false(v),
    decreases v.len(),
{
    let w = v.update(i, true);
    if i == v.len() - 1 {
        assert(w.drop_last() =~= v.drop_last());
    } else {
        lemma_count_false_update(v.drop_last(), i);
        assert(w.drop_last() =~= v.drop_last().update(i, true));
    }
}

proof fn lemma_reach_step(p: Seq<Statement>, m: int, n: int)
    requires
        reachable(p, m),
        flows_to(p, m, n),
    ensures
        reachable(p, n),
{
    let path = choose|path: Seq<int>| #[trigger] is_path(p, path) && path.last() == m;
    let next = path.push(n);
    assert forall|i: int| 0 <= i < next.len() - 1 implies #[trigger] flows_to(p, next[i], next[i + 1]) by {
        if i < path.len() - 1 {
            assert(flows_to(p, path[i], path[i + 1]));
        }
    }
    assert(is_path(p, next));
}

proof fn lemma_path_closed(p: Seq<Statement>, vis: Seq<bool>, path: Seq<int>)
    requires
        closed_flow(p),
        vis.len() == p.len(),
        vis[0],
        forall|i: int| 0 <= i < p.len() && vis[i] ==> reachable(p, i),
        forall|i: int, m: int| 0 <= i < p.len() && vis[i] && #[trigger] flows_to(p, i, m) ==> vis[m],
        is_path(p, path),
    ensures
        0 <= path.last() < p.len() && vis[path.last()],
    decreases path.len(),
{
    if path.len() > 1 {
        let prev = path.drop_last();
        assert forall|i: int| 0 <= i < prev.len() - 1 implies #[trigger] flows_to(p, prev[i], prev[i + 1]) by {
            assert(flows_to(p, path[i], path[i + 1]));
        }
        lemma_path_closed(p, vis, prev);
        let i = path.len() - 2;
        assert(flows_to(p, path[i], path[i + 1]));
        assert(reachable(p, path[i]));
    }
}

/// Index reached by a relative jump of `r` from `n`.
fn jump_dest(n: usize, r: i8) -> (t: usize)
    requires
        0 <= n + r + 1 <= usize::MAX,
    ensures
        t == n + r + 1,
{
    if r >= 0 {
        n + 1 + (r as usize)
    } else {
        let back = (-(r as i16)) as usize;
        assert(back == -r);
        n - (back - 1)
    }
}

/// Find unreachable statements and replace them with the unreachable
/// placeholder, so that [`delete_nops`] can delete them later.
/// Returns `true` if the statements were mutated.
fn mark_unreachable(statements: &mut Vec<Statement>) -> (r: bool)
    requires
        closed_flow(old(statements)@),
    ensures
        final(statements)@ == marked(old(statements)@),
        r == mark_changes(old(statements)@),
{
    let ghost p = statements@;
    let len = statements.len();
    // DFS search on the program flow
    let mut visited: Vec<bool> = vec![false; len];
    let mut stack: Vec<usize> = vec![0];
    visited.set(0, true);
    proof {
        assert(is_path(p, seq![0int]));
    }
    while stack.len() > 0
        invariant
            statements@ == p,
            len == p.len(),
            closed_flow(p),
            visited@.len() == len,
            visited@[0],
            forall|i: int| 0 <= i < stack@.len() ==> #[trigger] stack@[i] < len && visited@[stack@[i] as int],
            forall|i: int| 0 <= i < len && visited@[i] ==> reachable(p, i),
            forall|i: int, m: int|
                0 <= i < len && visited@[i] && !stack@.contains(i as usize) && #[trigger] flows_to(p, i, m)
                    ==> visited@[m],
        decreases 2 * count_false(visited@) + stack@.len(),
    {
        let ghost old_stack = stack@;
        let ghost old_visited = visited@;
        let n = stack.pop().unwrap();
        let ghost popped = stack@;
        assert(old_stack == popped.push(n));
        assert(visited@[n as int]);
        assert(reachable(p, n as int));
        let (next, next_branch, stop) = match &statements[n] {
            Statement::Stop => (n, n, true),
            Statement::Jmp { location: Location::Relative(r) } => {
                assert(flows_to(p, n as int, n + *r + 1));
                let t = jump_dest(n, *r);
                (t, t, false)
            },
            Statement::JmpCmp { location: Location::Relative(r), .. } => {
                assert(flows_to(p, n as int, n + *r + 1));
                assert(flows_to(p, n as int, n + 1));
                (n + 1, jump_dest(n, *r), false)
            },
            Statement::JmpCmpNot { location: Location::Relative(r), .. } => {
                assert(flows_to(p, n as int, n + *r + 1));
                assert(flows_to(p, n as int, n + 1));
                (n + 1, jump_dest(n, *r), false)
            },
            _ => {
                assert(flows_to(p, n as int, n + 1));
                (n + 1, n + 1, false)
            },
        };
        assert(forall|m: int| #[trigger] flows_to(p, n as int, m) ==> !stop && (m == next || m
            == next_branch));
        proof {
            if !stop {
                lemma_reach_step(p, n as int, next as int);
                lemma_reach_step(p, n as int, next_branch as int);
            }
        }
        if !stop {
            if !visited[next] {
                proof {
                    lemma_count_false_update(visited@, next as int);
                }
                stack.push(next);
                visited.set(next, true);
            }
            assert(!old_visited[next as int] ==> stack@[popped.len() as int] == next);
            if !visited[next_branch] {
                proof {
                    lemma_count_false_update(visited@, next_branch as int);
                }
                stack.push(next_branch);
                visited.set(next_branch, true);
            }
            assert(!old_visited[next as int] ==> stack@[popped.len() as int] == next);
            assert(!old_visited[next_branch as int] ==> stack@[stack@.len() - 1] == next_branch);
        }
        assert(forall|j: int| 0 <= j < len && old_visited[j] ==> visited@[j]);
        assert(forall|j: int| 0 <= j < popped.len() ==> stack@[j] == popped[j]);
        assert forall|i: int, m: int|
            0 <= i < len && visited@[i] && !stack@.contains(i as usize) && #[trigger] flows_to(
                p,
                i,
                m,
            ) implies visited@[m] by {
            if i != n {
                if old_visited[i] {
                    if old_stack.contains(i as usize) {
                        let j = choose|j: int| 0 <= j < old_stack.len() && old_stack[j] == i as usize;
                        assert(j < popped.len());
                        assert(stack@[j] == i as usize);
                    }
                } else {
                    assert(i == next || i == next_branch);
                    if i == next {
                        assert(stack@[popped.len() as int] == i as usize);
                    } else {
                        assert(stack@[stack@.len() - 1] == i as usize);
                    }
                    assert(stack@.contains(i as usize));
                }
            }
        }
    }
    proof {
        assert forall|i: int| 0 <= i < len && reachable(p, i) implies visited@[i] by {
            let path = choose|path: Seq<int>| #[trigger] is_path(p, path) && path.last() == i;
            lemma_path_closed(p, visited@, path);
        }
    }
    // replace all non-visited statements with the unreachable placeholder
    let mut opt = false;
    let mut i: usize = 0;
    while i < len
        invariant
            len == p.len(),
            statements@.len() == len,
            visited@.len() == len,
            i <= len,
            forall|j: int| 0 <= j < len ==> (visited@[j] <==> reachable(p, j)),
            forall|j: int| 0 <= j < i ==> statements@[j] == marked(p)[j],
            forall|j: int| i <= j < len ==> statements@[j] == p[j],
            opt == exists|j: int| 0 <= j < i && !reachable(p, j) && !is_dead(#[trigger] p[j]),
        decreases len - i,
    {
        if !visited[i] {
            let dead = match &statements[i] {
                Statement::Nop(n) => *n == NOP_UNREACHABLE,
                _ => false,
            };
            if !dead {
                assert(!reachable(p, i as int) && !is_dead(p[i as int]));
                opt = true;
            }
            statements.set(i, Statement::Nop(NOP_UNREACHABLE));
        }
        i = i + 1;
    }
    assert(statements@ =~= marked(p));
    opt
}


/// Jump statement `s` with its relative location replaced by `r`.
pub open spec fn relocated(s: Statement, r: i8) -> Statement {
    match s {
        Statement::Jmp { .. } => Statement::Jmp { location: Location::Relative(r) },
        Statement::JmpCmp { source, .. } => Statement::JmpCmp {
            location: Location::Relative(r),
            source,
        },
        Statement::JmpCmpNot { source, .. } => Statement::JmpCmpNot {
            location: Location::Relative(r),
            source,
        },
        _ => s,
    }
}

/// The jump at `i` lands on an unconditional jump that is not a jump to
/// itself, and the merged jump still fits a relative location.
pub open spec fn merges(p: Seq<Statement>, i: int) -> bool {
    &&& 0 <= i < p.len()
    &&& jump_offset(p[i]) is Some
    &&& 0 <= jump_target(p[i], i) < p.len()
    &&& p[jump_target(p[i], i)] is Jmp
    &&& jump_offset(p[jump_target(p[i], i)])->0 != -1
    &&& -128 <= jump_offset(p[i])->0 + jump_offset(p[jump_target(p[i], i)])->0 + 1 <= 127
}

/// One step of jump threading at index `i`: a jump that lands on an
/// unconditional jump is redirected to where that jump leads.
pub open spec fn thread_step(p: Seq<Statement>, i: int) -> Seq<Statement> {
    if merges(p, i) {
        p.update(
            i,
            relocated(
                p[i],
                (jump_offset(p[i])->0 + jump_offset(p[jump_target(p[i], i)])->0 + 1) as i8,
            ),
        )
    } else {
        p
    }
}

/// Jump threading of the statements from index `i` on, in order.
pub open spec fn thread_from(p: Seq<Statement>, i: int) -> Seq<Statement>
    decreases p.len() - i,
{
    if 0 <= i < p.len() {
        thread_from(thread_step(p, i), i + 1)
    } else {
        p
    }
}

/// Some jump is merged by threading from index `i` on.
pub open spec fn threads_any(p: Seq<Statement>, i: int) -> bool
    decreases p.len() - i,
{
    if 0 <= i < p.len() {
        merges(p, i) || threads_any(thread_step(p, i), i + 1)
    } else {
        false
    }
}

/// Threading one jump keeps every jump on a statement of the program: the
/// threaded jump lands where the jump it landed on leads.
pub proof fn lemma_thread_step_in_bounds(p: Seq<Statement>, i: int)
    requires
        jumps_in_bounds(p),
    ensures
        jumps_in_bounds(thread_step(p, i)),
        thread_step(p, i).len() == p.len(),
        merges(p, i) ==> jump_target(thread_step(p, i)[i], i) == jump_target(
            p[jump_target(p[i], i)],
            jump_target(p[i], i),
        ),
{
    if merges(p, i) {
        let q = thread_step(p, i);
        let t = jump_target(p[i], i);
        assert(jump_offset(p[t]) is Some);
        assert(jump_offset(p[i]) is Some);
        assert forall|n: int| 0 <= n < q.len() && #[trigger] jump_offset(q[n]) is Some implies 0 <= jump_target(
            q[n],
            n,
        ) < q.len() by {
            if n != i {
                assert(jump_offset(p[n]) is Some);
            }
        }
    }
}

/// Threading from `i` on leaves the statements before `i` as they were, and
/// a merge at `i` changes statement `i` for good.
proof fn lemma_thread_keeps(p: Seq<Statement>, i: int, j: int)
    requires
        0 <= j < i,
    ensures
        thread_from(p, i).len() == p.len(),
        j < p.len() ==> thread_from(p, i)[j] == p[j],
    decreases p.len() - i,
{
    if 0 <= i < p.len() {
        lemma_thread_keeps(thread_step(p, i), i + 1, j);
    }
}

proof fn lemma_thread_changes(p: Seq<Statement>, i: int)
    requires
        0 <= i,
        threads_any(p, i),
    ensures
        thread_from(p, i) != p,
    decreases p.len() - i,
{
    if 0 <= i < p.len() {
        if merges(p, i) {
            let q = thread_step(p, i);
            lemma_thread_keeps(q, i + 1, i);
            assert(jump_offset(q[i]) != jump_offset(p[i]));
            assert(thread_from(p, i)[i] != p[i]);
        } else {
            lemma_thread_changes(thread_step(p, i), i + 1);
        }
    }
}

proof fn lemma_thread_none(p: Seq<Statement>, i: int)
    requires
        !threads_any(p, i),
    ensures
        thread_from(p, i) == p,
    decreases p.len() - i,
{
    if 0 <= i < p.len() {
        lemma_thread_none(p, i + 1);
    }
}

/// Jump statement `s` with its relative location replaced by `r`.
fn retarget(s: &Statement, r: i8) -> (n: Statement)
    ensures
        n == relocated(*s, r),
{
    match s {
        Statement::Jmp { .. } => Statement::Jmp { location: Location::Relative(r) },
        Statement::JmpCmp { source, .. } => Statement::JmpCmp {
            location: Location::Relative(r),
            source: source.clone(),
        },
        Statement::JmpCmpNot { source, .. } => Statement::JmpCmpNot {
            location: Location::Relative(r),
            source: source.clone(),
        },
        _ => s.clone(),
    }
}

/// Relative location of a jump statement.
fn jump_location(s: &Statement) -> (r: Option<i8>)
    ensures
        r matches Some(x) ==> jump_offset(*s) == Some(x as int),
        r is None ==> jump_offset(*s) is None,
{
    match s {
        Statement::Jmp { location: Location::Relative(r) } => Some(*r),
        Statement::JmpCmp { location: Location::Relative(r), .. } => Some(*r),
        Statement::JmpCmpNot { location: Location::Relative(r), .. } => Some(*r),
        _ => None,
    }
}

/// Merge jumps when possible (a jump that lands on another jump).
/// Returns `true` if some jump was merged.
fn jump_threading(statements: &mut Vec<Statement>) -> (r: bool)
    requires
        jumps_in_bounds(old(statements)@),
    ensures
        final(statements)@ == thread_from(old(statements)@, 0),
        r == threads_any(old(statements)@, 0),
        jumps_in_bounds(final(statements)@),
{
    let ghost p = statements@;
    let len = statements.len();
    let mut opt = false;
    let mut i: usize = 0;
    while i < len
        invariant
            len == statements@.len(),
            i <= len,
            jumps_in_bounds(statements@),
            thread_from(p, 0) == thread_from(statements@, i as int),
            threads_any(p, 0) == (opt || threads_any(statements@, i as int)),
        decreases len - i,
    {
        let ghost q = statements@;
        proof {
            lemma_thread_step_in_bounds(q, i as int);
        }
        if let Some(r0) = jump_location(&statements[i]) {
            assert(jump_offset(q[i as int]) is Some);
            let t = jump_dest(i, r0);
            if let Statement::Jmp { location: Location::Relative(r1) } = statements[t] {
                let sum: i16 = r0 as i16 + r1 as i16 + 1;
                if r1 != -1 && -128 <= sum && sum <= 127 {
                    let s = retarget(&statements[i], sum as i8);
                    statements.set(i, s);
                    opt = true;
                }
            }
        }
        assert(statements@ =~= thread_step(q, i as int));
        i = i + 1;
    }
    proof {
        if !opt {
            lemma_thread_none(statements@, i as int);
        }
    }
    opt
}

/// Number of unreachable placeholders before index `k`.
pub open spec fn dead_before(p: Seq<Statement>, k: int) -> int
    decreases k,
{
    if k <= 0 {
        0
    } else {
        dead_before(p, k - 1) + if is_dead(p[k - 1]) {
            1int
        } else {
            0int
        }
    }
}

/// Statement `i` of `p`, with its jump adjusted to the deletion of the
/// unreachable placeholders.
pub open spec fn relocate_after_delete(p: Seq<Statement>, i: int) -> Statement {
    match jump_offset(p[i]) {
        Some(r0) => relocated(
            p[i],
            (r0 + dead_before(p, i) - dead_before(p, i + r0 + 1)) as i8,
        ),
        None => p[i],
    }
}

/// The statements before index `k` that are kept by the deletion, adjusted.
pub open spec fn kept_prefix(p: Seq<Statement>, k: int) -> Seq<Statement>
    decreases k,
{
    if k <= 0 {
        seq![]
    } else if is_dead(p[k - 1]) {
        kept_prefix(p, k - 1)
    } else {
        kept_prefix(p, k - 1).push(relocate_after_delete(p, k - 1))
    }
}

/// `p` without its unreachable placeholders, jumps adjusted.
pub open spec fn deleted(p: Seq<Statement>) -> Seq<Statement> {
    kept_prefix(p, p.len() as int)
}

pub proof fn lemma_dead_before_bounds(p: Seq<Statement>, a: int, b: int)
    requires
        0 <= a <= b <= p.len(),
    ensures
        0 <= dead_before(p, a) <= dead_before(p, b),
        dead_before(p, b) - dead_before(p, a) <= b - a,
    decreases b - a,
{
    if a < b {
        lemma_dead_before_bounds(p, a, b - 1);
    } else {
        lemma_dead_before_nonneg(p, a);
    }
}

proof fn lemma_dead_before_nonneg(p: Seq<Statement>, a: int)
    ensures
        0 <= dead_before(p, a) <= if a < 0 {
            0
        } else {
            a
        },
    decreases a,
{
    if a > 0 {
        lemma_dead_before_nonneg(p, a - 1);
    }
}

/// The kept statements before `k` are `k` minus the deleted ones, and each
/// kept statement moves back by the number of placeholders before it.
pub proof fn lemma_kept_prefix(p: Seq<Statement>, k: int)
    requires
        0 <= k <= p.len(),
    ensures
        kept_prefix(p, k).len() == k - dead_before(p, k),
        forall|i: int|
            0 <= i < k && !is_dead(p[i]) ==> #[trigger] kept_prefix(p, k)[i - dead_before(p, i)]
                == relocate_after_delete(p, i),
    decreases k,
{
    if k > 0 {
        lemma_kept_prefix(p, k - 1);
        lemma_dead_before_bounds(p, 0, k - 1);
        assert forall|i: int|
            0 <= i < k && !is_dead(p[i]) implies #[trigger] kept_prefix(p, k)[i - dead_before(p, i)]
            == relocate_after_delete(p, i) by {
            assert(dead_before(p, i + 1) == dead_before(p, i));
            lemma_dead_before_bounds(p, 0, i);
            if i < k - 1 {
                lemma_dead_before_bounds(p, i + 1, k - 1);
                assert(i - dead_before(p, i) < kept_prefix(p, k - 1).len());
                assert(kept_prefix(p, k - 1)[i - dead_before(p, i)] == relocate_after_delete(p, i));
            }
        }
    }
}

/// Deleting the unreachable placeholders keeps every jump on the statement
/// it landed on: the adjusted jump of a kept statement lands on the new index
/// of its old target.
pub proof fn lemma_delete_keeps_targets(p: Seq<Statement>, i: int)
    requires
        jumps_in_bounds(p),
        0 <= i < p.len(),
        !is_dead(p[i]),
        jump_offset(p[i]) is Some,
    ensures
        ({
            let t = jump_target(p[i], i);
            let j = i - dead_before(p, i);
            &&& deleted(p)[j] == relocate_after_delete(p, i)
            &&& jump_target(deleted(p)[j], j) == t - dead_before(p, t)
        }),
{
    let t = jump_target(p[i], i);
    lemma_kept_prefix(p, p.len() as int);
    let r0 = jump_offset(p[i])->0;
    let r1 = r0 + dead_before(p, i) - dead_before(p, t);
    assert(dead_before(p, i + 1) == dead_before(p, i));
    if t > i {
        lemma_dead_before_bounds(p, i + 1, t);
    } else {
        lemma_dead_before_bounds(p, t, i);
    }
    assert(-128 <= r1 <= 127);
}

/// Delete the unreachable placeholders, adjusting the jumps over them.
/// Returns `true` if some statement was deleted.
fn delete_nops(statements: &mut Vec<Statement>) -> (r: bool)
    requires
        jumps_in_bounds(old(statements)@),
    ensures
        r == (dead_before(old(statements)@, old(statements)@.len() as int) > 0),
        final(statements)@ == if r {
            deleted(old(statements)@)
        } else {
            old(statements)@
        },
{
    let ghost p = statements@;
    let len = statements.len();
    // number of placeholders before each index
    let mut dead: Vec<usize> = Vec::new();
    dead.push(0);
    let mut k: usize = 0;
    while k < len
        invariant
            statements@ == p,
            len == p.len(),
            k <= len,
            dead@.len() == k + 1,
            forall|j: int| 0 <= j <= k ==> dead@[j] == dead_before(p, j),
        decreases len - k,
    {
        proof {
            lemma_dead_before_nonneg(p, k as int);
        }
        let is_nop = match &statements[k] {
            Statement::Nop(n) => *n == NOP_UNREACHABLE,
            _ => false,
        };
        let c = dead[k];
        if is_nop {
            dead.push(c + 1);
        } else {
            dead.push(c);
        }
        k = k + 1;
    }
    if dead[len] == 0 {
        return false;
    }
    let mut result: Vec<Statement> = Vec::new();
    let mut i: usize = 0;
    while i < len
        invariant
            statements@ == p,
            jumps_in_bounds(p),
            len == p.len(),
            i <= len,
            dead@.len() == len + 1,
            forall|j: int| 0 <= j <= len ==> dead@[j] == dead_before(p, j),
            result@ == kept_prefix(p, i as int),
        decreases len - i,
    {
        let is_nop = match &statements[i] {
            Statement::Nop(n) => *n == NOP_UNREACHABLE,
            _ => false,
        };
        if !is_nop {
            let s = match jump_location(&statements[i]) {
                Some(r0) => {
                    assert(jump_offset(p[i as int]) is Some);
                    let t = jump_dest(i, r0);
                    assert(dead_before(p, i + 1) == dead_before(p, i as int));
                    let r1: i8 = if t > i {
                        proof {
                            lemma_dead_before_bounds(p, i + 1, t as int);
                        }
                        r0 - ((dead[t] - dead[i]) as i8)
                    } else {
                        proof {
                            lemma_dead_before_bounds(p, t as int, i as int);
                        }
                        r0 + ((dead[i] - dead[t]) as i8)
                    };
                    retarget(&statements[i], r1)
                },
                None => statements[i].clone(),
            };
            result.push(s);
        }
        i = i + 1;
    }
    *statements = result;
    true
}

/// Optimize statements: mark unreachable statements, or else thread jumps,
/// or else delete the unreachable placeholders; one pass per call.
/// Returns `true` if the statements were mutated.
pub fn optimize(statements: &mut Vec<Statement>) -> (r: bool)
    requires
        closed_flow(old(statements)@),
    ensures
        ({
            let p = old(statements)@;
            &&& r == (final(statements)@ != p)
            &&& final(statements)@ == if mark_changes(p) {
                marked(p)
            } else if threads_any(p, 0) {
                thread_from(p, 0)
            } else if dead_before(p, p.len() as int) > 0 {
                deleted(p)
            } else {
                p
            }
        }),
{
    let ghost p = statements@;
    if mark_unreachable(statements) {
        proof {
            let i = choose|i: int| 0 <= i < p.len() && !reachable(p, i) && !is_dead(#[trigger] p[i]);
            assert(statements@[i] != p[i]);
        }
        return true;
    }
    assert(statements@ =~= p) by {
        assert forall|i: int| 0 <= i < p.len() implies marked(p)[i] == p[i] by {
            if !reachable(p, i) {
                assert(is_dead(p[i]));
            }
        }
    }
    assert(jumps_in_bounds(p)) by {
        assert forall|i: int| 0 <= i < p.len() && #[trigger] jump_offset(p[i]) is Some implies 0 <= jump_target(
            p[i],
            i,
        ) < p.len() by {
            if reachable(p, i) {
                assert(flows_to(p, i, jump_target(p[i], i)));
            } else {
                assert(!mark_changes(p));
                assert(is_dead(p[i]));
            }
        }
    }
    if jump_threading(statements) {
        proof {
            lemma_thread_changes(p, 0);
        }
        return true;
    }
    proof {
        lemma_thread_none(p, 0);
    }
    let r = delete_nops(statements);
    proof {
        if r {
            lemma_kept_prefix(p, p.len() as int);
            assert(statements@.len() != p.len());
        }
    }
    r
}

} // verus!
