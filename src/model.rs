//! A model of the directory tree as the set of paths that are directories,
//! a host that answers each step from it, and what then holds of commands.
use vstd::prelude::*;

use crate::paths::{is_name, is_rel_path, joined, resolved, valid_seg, WORKSPACE_DIR};
use crate::session::{
    admissible, closing, dir_names, init_dirs, opt_view, plan, settle, EventView, Fault, Finished, Op,
    OutcomeView, ReportView, Request, SessionView, CLIENT_DIR, PRACTICE_DIR, TEST_DIR,
};

verus! {

/// `q` is the directory `d` itself or lies below it.
pub open spec fn within(d: Seq<char>, q: Seq<char>) -> bool {
    q == d || (q.len() > d.len() && q.subrange(0, d.len() as int) == d && q[d.len() as int] == '/')
}

/// `p` does not exist yet and is one level below a directory that does.
pub open spec fn creatable(fs: Set<Seq<char>>, p: Seq<char>) -> bool {
    &&& !fs.contains(p)
    &&& exists|d: Seq<char>, n: Seq<char>|
        fs.contains(d) && is_name(n) && p == #[trigger] joined(d, n)
}

/// What a host whose directories are `fs` observes for a step; `listing` is
/// how it enumerates the directory that is read.
pub open spec fn answer(
    fs: Set<Seq<char>>,
    step: (Op, Seq<char>),
    listing: Seq<(Seq<char>, bool)>,
) -> EventView {
    match step.0 {
        Op::Require(_) => EventView::Exists(fs.contains(step.1)),
        Op::Unless => EventView::Exists(fs.contains(step.1)),
        Op::Create => if creatable(fs, step.1) {
            EventView::Done
        } else {
            EventView::Failed(Seq::empty())
        },
        Op::Read => EventView::Entries(listing),
        Op::Wipe => EventView::Done,
        Op::Shell => EventView::Exited(true),
    }
}

/// The directories after a step was carried out with the given result.
pub open spec fn apply(fs: Set<Seq<char>>, step: (Op, Seq<char>), ev: EventView) -> Set<
    Seq<char>,
> {
    match step.0 {
        Op::Create => if ev == EventView::Done {
            fs.insert(step.1)
        } else {
            fs
        },
        Op::Wipe => if ev == EventView::Done {
            fs.filter(|q: Seq<char>| !within(step.1, q))
        } else {
            fs
        },
        _ => fs,
    }
}

/// Carries out `steps` against `fs`, as a session does: the directories at
/// the end, and how the command ended.
pub open spec fn replay(
    fs: Set<Seq<char>>,
    steps: Seq<(Op, Seq<char>)>,
    listing: Seq<(Seq<char>, bool)>,
    last: OutcomeView,
) -> (Set<Seq<char>>, OutcomeView)
    decreases steps.len(),
{
    if steps.len() == 0 {
        (fs, last)
    } else {
        let ev = answer(fs, steps[0], listing);
        let next = apply(fs, steps[0], ev);
        match settle(steps[0], ev) {
            Some(o) => (next, o),
            None => replay(next, steps.drop_first(), listing, last),
        }
    }
}

/// A request run to its end against `fs` in the workspace at `root`.
pub open spec fn run(
    fs: Set<Seq<char>>,
    req: Request,
    root: Seq<char>,
    listing: Seq<(Seq<char>, bool)>,
) -> (Set<Seq<char>>, OutcomeView) {
    replay(fs, plan(req, root), listing, closing(req, root))
}

/// `listing` enumerates directory `p` of `fs` as a host does: each name
/// once, directory flags that agree with `fs`, every child directory there.
pub open spec fn faithful(fs: Set<Seq<char>>, p: Seq<char>, listing: Seq<(Seq<char>, bool)>) -> bool {
    &&& forall|i: int, j: int|
        0 <= i < j < listing.len() ==> listing[i].0 != listing[j].0
    &&& forall|i: int|
        0 <= i < listing.len() ==> (listing[i].1 <==> fs.contains(joined(p, listing[i].0)))
    &&& forall|n: Seq<char>|
        is_name(n) && fs.contains(joined(p, n)) ==> exists|i: int|
            0 <= i < listing.len() && listing[i].0 == n
}

/// How many times `x` stands in `s`.
pub open spec fn occurrences(s: Seq<Seq<char>>, x: Seq<char>) -> nat
    decreases s.len(),
{
    if s.len() == 0 {
        0
    } else {
        occurrences(s.drop_last(), x) + if s.last() == x {
            1nat
        } else {
            0nat
        }
    }
}

/// Nothing at or below `root` exists yet.
pub open spec fn fresh(fs: Set<Seq<char>>, root: Seq<char>) -> bool {
    forall|q: Seq<char>| fs.contains(q) ==> !within(root, q)
}

/// Entries that list no directory named `n` give a listing without `n`.
pub proof fn lemma_dir_names_absent(es: Seq<(Seq<char>, bool)>, n: Seq<char>)
    requires
        forall|i: int| 0 <= i < es.len() ==> !(es[i].0 == n && es[i].1),
    ensures
        occurrences(dir_names(es), n) == 0,
    decreases es.len(),
{
    if es.len() > 0 {
        lemma_dir_names_absent(es.drop_last(), n);
        let rest = dir_names(es.drop_last());
        if es.last().1 {
            assert(rest.push(es.last().0).drop_last() =~= rest);
        }
    }
}

/// Entries with distinct names, one of them a directory named `n`, give a
/// listing that holds `n` exactly once.
pub proof fn lemma_dir_names_once(es: Seq<(Seq<char>, bool)>, n: Seq<char>)
    requires
        forall|i: int, j: int| 0 <= i < j < es.len() ==> es[i].0 != es[j].0,
        exists|i: int| 0 <= i < es.len() && es[i].0 == n && es[i].1,
    ensures
        occurrences(dir_names(es), n) == 1,
    decreases es.len(),
{
    let k = choose|i: int| 0 <= i < es.len() && es[i].0 == n && es[i].1;
    let init = es.drop_last();
    let rest = dir_names(init);
    if k == es.len() - 1 {
        lemma_dir_names_absent(init, n);
    } else {
        assert(init[k].0 == n && init[k].1);
        lemma_dir_names_once(init, n);
        assert(es.last().0 != n);
    }
    if es.last().1 {
        assert(rest.push(es.last().0).drop_last() =~= rest);
    }
}

/// Before the workspace exists, every command but initialisation (and the
/// usage hint) fails with "workspace not initialized" and changes nothing.
pub proof fn lemma_uninitialized(
    fs: Set<Seq<char>>,
    req: Request,
    root: Seq<char>,
    listing: Seq<(Seq<char>, bool)>,
)
    requires
        !fs.contains(root),
        !(req is Init),
        !(req is Usage),
    ensures
        run(fs, req, root, listing) == (fs, Err::<ReportView, _>(
            (Fault::WorkspaceNotInitialized, root, Seq::<char>::empty()),
        )),
{
}

/// Listing a directory that does not exist fails with "not found" and
/// changes nothing.
pub proof fn lemma_list_missing(
    fs: Set<Seq<char>>,
    subdir: Option<String>,
    root: Seq<char>,
    listing: Seq<(Seq<char>, bool)>,
)
    requires
        !fs.contains(resolved(root, opt_view(subdir))),
    ensures
        run(fs, Request::List { subdir }, root, listing).0 == fs,
        fs.contains(root) ==> run(fs, Request::List { subdir }, root, listing).1 == Err::<
            ReportView,
            _,
        >((Fault::TargetNotFound, resolved(root, opt_view(subdir)), Seq::<char>::empty())),
{
    reveal_with_fuel(replay, 3);
}

/// Adding below a parent that does not exist fails with "not found" and
/// creates nothing.
pub proof fn lemma_add_missing_parent(
    fs: Set<Seq<char>>,
    name: String,
    parent: Option<String>,
    root: Seq<char>,
    listing: Seq<(Seq<char>, bool)>,
)
    requires
        !fs.contains(resolved(root, opt_view(parent))),
    ensures
        run(fs, Request::Add { name, parent }, root, listing).0 == fs,
        fs.contains(root) ==> run(fs, Request::Add { name, parent }, root, listing).1 == Err::<
            ReportView,
            _,
        >((Fault::ParentNotFound, resolved(root, opt_view(parent)), Seq::<char>::empty())),
{
    reveal_with_fuel(replay, 3);
}

/// A path joined below `d` lies within `d`, and is longer.
pub proof fn lemma_joined_within(d: Seq<char>, seg: Seq<char>)
    ensures
        within(d, joined(d, seg)),
        joined(d, seg).len() > d.len(),
{
    assert(joined(d, seg).subrange(0, d.len() as int) =~= d);
}

/// A name with no separator in it is a single part below `d`.
pub proof fn lemma_creatable(fs: Set<Seq<char>>, d: Seq<char>, n: Seq<char>)
    requires
        fs.contains(d),
        is_name(n),
        !fs.contains(joined(d, n)),
    ensures
        creatable(fs, joined(d, n)),
{
}

/// Initialising twice, with the home directory there: the first run
/// creates the root and the default children when nothing was at or below
/// the root (and changes nothing when the root was there), the second
/// changes nothing, and both succeed.
pub proof fn lemma_init_twice(
    fs: Set<Seq<char>>,
    home: Seq<char>,
    listing: Seq<(Seq<char>, bool)>,
)
    requires
        fs.contains(joined(home, WORKSPACE_DIR@)) || (fs.contains(home) && fresh(
            fs,
            joined(home, WORKSPACE_DIR@),
        )),
    ensures
        ({
            let root = joined(home, WORKSPACE_DIR@);
            let first = run(fs, Request::Init, root, listing);
            &&& first.1 is Ok
            &&& fresh(fs, root) ==> first.0 == fs.union(init_dirs(root).to_set())
            &&& fs.contains(root) ==> first.0 == fs
            &&& run(first.0, Request::Init, root, listing) == (
                first.0,
                Ok::<_, (Fault, Seq<char>, Seq<char>)>(
                    (Finished::AlreadyInitialized, root, Seq::<Seq<char>>::empty()),
                ),
            )
        }),
{
    reveal_with_fuel(replay, 6);
    let root = joined(home, WORKSPACE_DIR@);
    let c = joined(root, CLIENT_DIR@);
    let t = joined(root, TEST_DIR@);
    let p = joined(root, PRACTICE_DIR@);
    lemma_joined_within(root, CLIENT_DIR@);
    lemma_joined_within(root, TEST_DIR@);
    lemma_joined_within(root, PRACTICE_DIR@);
    reveal_strlit("repo");
    reveal_strlit("client");
    reveal_strlit("test");
    reveal_strlit("practice");
    if fresh(fs, root) && !fs.contains(root) {
        assert(is_name(WORKSPACE_DIR@));
        assert(is_name(CLIENT_DIR@));
        assert(is_name(TEST_DIR@));
        assert(is_name(PRACTICE_DIR@));
        assert(c.len() != t.len() && t.len() != p.len() && c.len() != p.len());
        let fs0 = fs.insert(root);
        lemma_creatable(fs, home, WORKSPACE_DIR@);
        lemma_creatable(fs0, root, CLIENT_DIR@);
        lemma_creatable(fs0.insert(c), root, TEST_DIR@);
        lemma_creatable(fs0.insert(c).insert(t), root, PRACTICE_DIR@);
        let fs1 = run(fs, Request::Init, root, listing).0;
        assert(fs1 =~= fs.insert(root).insert(c).insert(t).insert(p));
        assert(fs1 =~= fs.union(init_dirs(root).to_set())) by {
            assert(init_dirs(root).to_set() =~= set![root, c, t, p]) by {
                assert(init_dirs(root)[0] == root);
                assert(init_dirs(root)[1] == c);
                assert(init_dirs(root)[2] == t);
                assert(init_dirs(root)[3] == p);
            };
        };
    }
    if fresh(fs, root) {
        assert(!fs.contains(root)) by {
            assert(within(root, root));
        };
    }
}

/// Adding a new name below an existing parent creates exactly that
/// directory, and listing the parent afterwards shows the name once.
pub proof fn lemma_add_then_list(
    fs: Set<Seq<char>>,
    name: String,
    parent: Option<String>,
    root: Seq<char>,
    listing: Seq<(Seq<char>, bool)>,
)
    requires
        fs.contains(root),
        fs.contains(resolved(root, opt_view(parent))),
        valid_seg(opt_view(parent)),
        is_name(name@),
        is_rel_path(name@),
        !fs.contains(joined(resolved(root, opt_view(parent)), name@)),
        faithful(
            fs.insert(joined(resolved(root, opt_view(parent)), name@)),
            resolved(root, opt_view(parent)),
            listing,
        ),
    ensures
        ({
            let base = resolved(root, opt_view(parent));
            let target = joined(base, name@);
            let added = run(fs, Request::Add { name, parent }, root, listing);
            let listed = run(added.0, Request::List { subdir: parent }, root, listing);
            &&& added == (fs.insert(target), Ok::<_, (Fault, Seq<char>, Seq<char>)>(
                (Finished::Created, target, Seq::<Seq<char>>::empty()),
            ))
            &&& listed.0 == added.0
            &&& listed.1 matches Ok(r) && r.0 == Finished::Listed && r.1 == base
                && occurrences(r.2, name@) == 1
        }),
{
    reveal_with_fuel(replay, 4);
    let base = resolved(root, opt_view(parent));
    let target = joined(base, name@);
    let fs1 = fs.insert(target);
    lemma_creatable(fs, base, name@);
    assert(fs1.contains(joined(base, name@)));
    assert(exists|i: int| 0 <= i < listing.len() && listing[i].0 == name@);
    let k = choose|i: int| 0 <= i < listing.len() && listing[i].0 == name@;
    assert(listing[k].1);
    lemma_dir_names_once(listing, name@);
}

/// Removing an existing subdirectory takes away it and all below it: the
/// listing of its parent no longer shows it, and removing it again fails
/// with "not found".
pub proof fn lemma_remove_then_list(
    fs: Set<Seq<char>>,
    path: String,
    parent: Option<String>,
    name: Seq<char>,
    root: Seq<char>,
    listing: Seq<(Seq<char>, bool)>,
)
    requires
        fs.contains(root),
        fs.contains(resolved(root, opt_view(parent))),
        is_name(name),
        valid_seg(opt_view(parent)),
        is_rel_path(path@),
        path@ == match parent {
            Some(p) => joined(p@, name),
            None => name,
        },
        fs.contains(joined(root, path@)),
        faithful(
            fs.filter(|q: Seq<char>| !within(joined(root, path@), q)),
            resolved(root, opt_view(parent)),
            listing,
        ),
    ensures
        ({
            let target = joined(root, path@);
            let left = fs.filter(|q: Seq<char>| !within(target, q));
            let removed = run(fs, Request::Remove { path }, root, listing);
            let listed = run(removed.0, Request::List { subdir: parent }, root, listing);
            let again = run(removed.0, Request::Remove { path }, root, listing);
            &&& removed == (left, Ok::<_, (Fault, Seq<char>, Seq<char>)>(
                (Finished::Removed, target, Seq::<Seq<char>>::empty()),
            ))
            &&& !left.contains(target)
            &&& listed.0 == left
            &&& listed.1 matches Ok(r) && r.0 == Finished::Listed && occurrences(r.2, name) == 0
            &&& again == (left, Err::<ReportView, _>(
                (Fault::TargetNotFound, target, Seq::<char>::empty()),
            ))
        }),
{
    reveal_with_fuel(replay, 4);
    let base = resolved(root, opt_view(parent));
    let target = joined(root, path@);
    let left = fs.filter(|q: Seq<char>| !within(target, q));
    assert(target =~= joined(base, name));
    lemma_joined_within(root, path@);
    lemma_joined_within(base, name);
    assert(within(target, target));
    assert(!within(target, root));
    assert(!within(target, base));
    assert(left.contains(root));
    assert(left.contains(base));
    assert forall|i: int| 0 <= i < listing.len() implies !(listing[i].0 == name && listing[i].1) by {
        if listing[i].0 == name && listing[i].1 {
            assert(left.contains(joined(base, name)));
        }
    };
    lemma_dir_names_absent(listing, name);
}

/// What is left of a session, carried out against `fs`.
pub open spec fn remaining(
    s: SessionView,
    fs: Set<Seq<char>>,
    listing: Seq<(Seq<char>, bool)>,
) -> (Set<Seq<char>>, OutcomeView) {
    match s.verdict {
        Some(o) => (fs, o),
        None => replay(fs, s.steps.skip(s.pos as int), listing, s.closing),
    }
}

/// A new session has the whole run ahead of it, and a session that is over
/// has only its outcome left.
pub proof fn lemma_session_ends(
    s: SessionView,
    req: Request,
    root: Seq<char>,
    fs: Set<Seq<char>>,
    listing: Seq<(Seq<char>, bool)>,
)
    ensures
        s.steps == plan(req, root) && s.closing == closing(req, root) && s.pos == 0
            && s.verdict is None ==> remaining(s, fs, listing) == run(fs, req, root, listing),
        s.is_over() && s.pos <= s.steps.len() ==> remaining(s, fs, listing) == (fs, s.outcome()),
{
    assert(s.steps.skip(0) =~= s.steps);
    if s.is_over() && s.pos <= s.steps.len() && s.verdict is None {
        assert(s.steps.skip(s.pos as int).len() == 0);
    }
}

/// Advancing a session with what the host `fs` observes for the pending
/// step leaves the same end ahead, from the directories after that step.
pub proof fn lemma_session_step(
    before: SessionView,
    after: SessionView,
    fs: Set<Seq<char>>,
    listing: Seq<(Seq<char>, bool)>,
)
    requires
        !before.is_over(),
        after.steps == before.steps,
        after.closing == before.closing,
        ({
            let ev = answer(fs, before.steps[before.pos as int], listing);
            match settle(before.steps[before.pos as int], ev) {
                Some(o) => after.verdict == Some(o) && after.pos == before.pos,
                None => after.verdict is None && after.pos == before.pos + 1,
            }
        }),
    ensures
        remaining(
            after,
            apply(
                fs,
                before.steps[before.pos as int],
                answer(fs, before.steps[before.pos as int], listing),
            ),
            listing,
        ) == remaining(before, fs, listing),
{
    let rest = before.steps.skip(before.pos as int);
    assert(rest[0] == before.steps[before.pos as int]);
    assert(rest.drop_first() =~= before.steps.skip(before.pos + 1 as int));
}

/// `p` names a place strictly below `d`: `d`, a separator, then a relative
/// path.
pub open spec fn below(d: Seq<char>, p: Seq<char>) -> bool {
    &&& p.len() > d.len() + 1
    &&& p.subrange(0, d.len() as int) == d
    &&& p[d.len() as int] == '/'
    &&& is_rel_path(p.subrange(d.len() + 1 as int, p.len() as int))
}

/// Two relative paths joined make a relative path.
pub proof fn lemma_rel_join(a: Seq<char>, b: Seq<char>)
    requires
        is_rel_path(a),
        is_rel_path(b),
    ensures
        is_rel_path(joined(a, b)),
{
    let s = joined(a, b);
    let n = a.len() as int;
    assert forall|i: int| 0 <= i < s.len() implies !#[trigger] crate::paths::breaks_at(s, i) by {
        if i < n {
            assert(!crate::paths::breaks_at(a, i));
            assert(s[i] == a[i]);
            if i > 0 {
                assert(s[i - 1] == a[i - 1]);
            }
            if i + 1 < n {
                assert(s[i + 1] == a[i + 1]);
            }
            if i + 2 < n {
                assert(s[i + 2] == a[i + 2]);
            }
            assert(s[n] == '/');
        } else if i == n {
            assert(s[i] == '/');
            assert(!crate::paths::breaks_at(b, 0));
            assert(s[i + 1] == b[0]);
            assert(!crate::paths::breaks_at(a, n - 1));
        } else {
            let k = i - n - 1;
            assert(!crate::paths::breaks_at(b, k));
            assert(s[i] == b[k]);
            assert(s[i - 1] == if k == 0 { '/' } else { b[k - 1] });
            if k + 1 < b.len() {
                assert(s[i + 1] == b[k + 1]);
            }
            if k + 2 < b.len() {
                assert(s[i + 2] == b[k + 2]);
            }
        }
    };
}

/// A relative path joined below `d` is strictly below `d`.
pub proof fn lemma_joined_below(d: Seq<char>, seg: Seq<char>)
    requires
        is_rel_path(seg),
    ensures
        below(d, joined(d, seg)),
{
    let p = joined(d, seg);
    assert(p.subrange(0, d.len() as int) =~= d);
    assert(p.subrange(d.len() + 1 as int, p.len() as int) =~= seg);
}

/// Every step of an admissible request other than initialisation is on the
/// workspace root or strictly below it, and what is created or removed is
/// strictly below it: nothing outside the workspace is touched, and the
/// root itself is never removed.
pub proof fn lemma_stays_inside(req: Request, root: Seq<char>)
    requires
        admissible(req),
        !(req is Init),
    ensures
        forall|i: int|
            0 <= i < plan(req, root).len() ==> {
                let st = #[trigger] plan(req, root)[i];
                &&& st.1 == root || below(root, st.1)
                &&& (st.0 is Create || st.0 is Wipe) ==> below(root, st.1)
            },
{
    match req {
        Request::Add { name, parent } => {
            match parent {
                Some(pa) => {
                    lemma_joined_below(root, pa@);
                    lemma_rel_join(pa@, name@);
                    assert(joined(joined(root, pa@), name@) =~= joined(root, joined(pa@, name@)));
                    lemma_joined_below(root, joined(pa@, name@));
                },
                None => {
                    lemma_joined_below(root, name@);
                },
            }
        },
        Request::List { subdir } => {
            if let Some(d) = subdir {
                lemma_joined_below(root, d@);
            }
        },
        Request::Remove { path } => {
            lemma_joined_below(root, path@);
        },
        Request::Enter { dir } => {
            lemma_joined_below(root, dir@);
        },
        _ => {},
    }
}

} // verus!
