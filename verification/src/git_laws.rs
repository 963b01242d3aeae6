//! Laws of what is asked of a git repository.

use crate::changes::{self, IndexItem, OutcomeView, StatusItem, WorkDirView};
use crate::git::{self, Git, ObjectId, Repository};
use crate::path::{FilePath, PartView};
use crate::reports;
use crate::vcs::{ErrorView, Report, ReportView, StatusScope};
use vstd::prelude::*;

verus! {

/// A commit is the merge base of `HEAD` and the commit that a revision leads to.
pub open spec fn is_merge_base<R: Repository>(repo: &R, rev: Seq<char>, base: Seq<u8>) -> bool {
    exists|head: ObjectId, object: ObjectId, commit: ObjectId, found: ObjectId|
        {
            &&& found@ == base
            &&& #[trigger] call_ensures(R::head_commit, (repo,), Ok(head))
            &&& #[trigger] git::rev_parse_gives(repo, rev, Ok(object))
            &&& #[trigger] git::peel_gives(repo, object@, Ok(commit))
            &&& #[trigger] git::merge_base_gives(repo, commit@, head@, Ok(found))
        }
}

/// Without a revision a diff is computed against `HEAD`. With one, it is
/// against the merge base of `HEAD` and the commit that the revision leads to;
/// there is no base where the revision leads to no commit or has no merge base.
pub proof fn law_base_is_head_or_merge_base<R: Repository>(
    repo: &R,
    rev: Option<Seq<char>>,
    base: Seq<u8>,
)
    requires
        git::base_commit_gives(repo, rev, Ok(base)),
    ensures
        match rev {
            None => exists|head: ObjectId|
                head@ == base && #[trigger] call_ensures(R::head_commit, (repo,), Ok(head)),
            Some(rev) => is_merge_base(repo, rev, base),
        },
{
    let answer = choose|head: Result<ObjectId, String>| #[trigger]
        call_ensures(R::head_commit, (repo,), head) && match (head, rev) {
            (Err(e), _) => false,
            (Ok(head), None) => base == head@,
            (Ok(head), Some(rev)) => git::rev_base_gives(repo, rev, head@, Ok(base)),
        };
    let head = answer->Ok_0;
    assert(call_ensures(R::head_commit, (repo,), Ok(head)));
    if let Some(rev) = rev {
        let answer = choose|object: Result<ObjectId, String>| #[trigger]
            git::rev_parse_gives(repo, rev, object) && object is Ok && git::named_base_gives(
                repo,
                rev,
                object->Ok_0@,
                head@,
                Ok(base),
            );
        let object = answer->Ok_0;
        assert(git::rev_parse_gives(repo, rev, Ok(object)));
        assert(git::object_base_gives(repo, rev, object@, head@, Ok(base)));
        let answer = choose|commit: Result<ObjectId, String>| #[trigger]
            git::peel_gives(repo, object@, commit) && commit is Ok && git::commits_base_gives(
                repo,
                rev,
                commit->Ok_0@,
                head@,
                Ok(base),
            );
        let commit = answer->Ok_0;
        assert(git::peel_gives(repo, object@, Ok(commit)));
        let answer = choose|found: Result<ObjectId, String>| #[trigger]
            git::merge_base_gives(repo, commit@, head@, found) && found is Ok
                && git::checked_base_gives(repo, found->Ok_0@, Ok(base));
        let found = answer->Ok_0;
        assert(found@ == base);
        assert(git::merge_base_gives(repo, commit@, head@, Ok(found)));
        assert(is_merge_base(repo, rev, base));
    }
}

/// With a revision, the base of a diff is the file as of the merge base of
/// `HEAD` and the commit that the revision leads to.
pub proof fn law_diff_base_is_that_of_the_merge_base<G: Git>(
    git: &G,
    file: Seq<PartView>,
    rev: Seq<char>,
    trust_full: bool,
    bytes: Seq<u8>,
) -> (r: (Seq<PartView>, G::Repo, Seq<u8>))
    requires
        git::diff_base_gives(git, file, Some(rev), trust_full, Ok(bytes)),
    ensures
        git::file_repo_gives(git, file, trust_full, Ok((r.0, r.1))),
        is_merge_base(&r.1, rev, r.2),
        git::contents_at_gives(&r.1, r.2, r.0, Ok(bytes)),
{
    let found = choose|found: Result<(Seq<PartView>, G::Repo), ErrorView>| #[trigger]
        git::file_repo_gives(git, file, trust_full, found) && match found {
            Err(_) => false,
            Ok((resolved, repo)) => git::base_in_repo_gives(&repo, resolved, Some(rev), Ok(bytes)),
        };
    let (resolved, repo) = found->Ok_0;
    let commit = choose|commit: Result<Seq<u8>, ErrorView>| #[trigger]
        git::base_commit_gives(&repo, Some(rev), commit) && commit is Ok && git::contents_at_gives(
            &repo,
            commit->Ok_0,
            resolved,
            Ok(bytes),
        );
    law_base_is_head_or_merge_base(&repo, Some(rev), commit->Ok_0);
    (resolved, repo, commit->Ok_0)
}

/// The state of a repository is fixed, a revision leads to a commit there, and
/// the merge base of that commit and `HEAD` is `HEAD` itself.
pub open spec fn base_is_head<R: Repository>(
    repo: &R,
    rev: Seq<char>,
    object: Seq<u8>,
    commit: Seq<u8>,
    head: Seq<u8>,
) -> bool {
    &&& forall|r: Result<ObjectId, String>| #[trigger]
        call_ensures(R::head_commit, (repo,), r) ==> r is Ok && r->Ok_0@ == head
    &&& forall|r: Result<ObjectId, String>| #[trigger]
        git::rev_parse_gives(repo, rev, r) ==> r is Ok && r->Ok_0@ == object
    &&& forall|r: Result<(), String>| #[trigger]
        git::find_object_gives(repo, object, r) ==> r is Ok
    &&& forall|r: Result<ObjectId, String>| #[trigger]
        git::peel_gives(repo, object, r) ==> r is Ok && r->Ok_0@ == commit
    &&& forall|r: Result<ObjectId, String>| #[trigger]
        git::merge_base_gives(repo, commit, head, r) ==> r is Ok && r->Ok_0@ == head
    &&& forall|r: Result<(), String>| #[trigger]
        git::check_commit_gives(repo, head, r) ==> r is Ok
    &&& git::base_commit_gives(repo, Some(rev), Ok(head))
}

/// Where the merge base of a revision and `HEAD` is `HEAD` itself, the base
/// commit for the revision is the one without it.
pub proof fn law_base_commit_at_head<R: Repository>(
    repo: &R,
    rev: Seq<char>,
    object: Seq<u8>,
    commit: Seq<u8>,
    head: Seq<u8>,
    out: Result<Seq<u8>, ErrorView>,
)
    requires
        base_is_head(repo, rev, object, commit, head),
        git::base_commit_gives(repo, Some(rev), out),
    ensures
        out == Ok::<Seq<u8>, ErrorView>(head),
        git::base_commit_gives(repo, None, out),
        forall|other: Result<Seq<u8>, ErrorView>| #[trigger]
            git::base_commit_gives(repo, None, other) ==> other == out,
{
    let answer = choose|h: Result<ObjectId, String>| #[trigger]
        call_ensures(R::head_commit, (repo,), h) && match h {
            Err(e) => out == Err::<Seq<u8>, ErrorView>(git::other(e@)),
            Ok(h) => git::rev_base_gives(repo, rev, h@, out),
        };
    assert(git::rev_base_gives(repo, rev, head, out));
    let o = choose|o: Result<ObjectId, String>| #[trigger]
        git::rev_parse_gives(repo, rev, o) && match o {
            Err(_) => out == Err::<Seq<u8>, ErrorView>(ErrorView::Unresolved { rev }),
            Ok(o) => git::named_base_gives(repo, rev, o@, head, out),
        };
    assert(git::named_base_gives(repo, rev, object, head, out));
    assert(git::object_base_gives(repo, rev, object, head, out));
    assert(git::commits_base_gives(repo, rev, commit, head, out));
    assert(git::checked_base_gives(repo, head, out));
    assert(out == Ok::<Seq<u8>, ErrorView>(head));
    assert(call_ensures(R::head_commit, (repo,), answer) && answer->Ok_0@ == head);
}

/// Where the merge base of a revision and `HEAD` is `HEAD` itself, such as for
/// `HEAD`, the base of a diff for the revision is the one without it.
pub proof fn law_diff_base_at_head<G: Git>(
    git: &G,
    file: Seq<PartView>,
    rev: Seq<char>,
    trust_full: bool,
    object: Seq<u8>,
    commit: Seq<u8>,
    head: Seq<u8>,
    out: Result<Seq<u8>, ErrorView>,
)
    requires
        forall|resolved: Seq<PartView>, repo: G::Repo| #[trigger]
            git::file_repo_gives(git, file, trust_full, Ok((resolved, repo))) ==> base_is_head(
                &repo,
                rev,
                object,
                commit,
                head,
            ),
    ensures
        git::diff_base_gives(git, file, Some(rev), trust_full, out) <==> git::diff_base_gives(
            git,
            file,
            None,
            trust_full,
            out,
        ),
{
    assert forall|resolved: Seq<PartView>, repo: G::Repo| #[trigger]
        git::file_repo_gives(git, file, trust_full, Ok((resolved, repo))) implies (
    git::base_in_repo_gives(&repo, resolved, Some(rev), out) <==> git::base_in_repo_gives(
        &repo,
        resolved,
        None,
        out,
    )) by {
        lemma_base_at_head(&repo, resolved, rev, object, commit, head, out);
    }
    lemma_same_diff_base(git, file, Some(rev), None, trust_full, out);
    lemma_same_diff_base(git, file, None, Some(rev), trust_full, out);
}

/// The contents of a file as of the base commit, where that is `HEAD`.
proof fn lemma_base_at_head<R: Repository>(
    repo: &R,
    file: Seq<PartView>,
    rev: Seq<char>,
    object: Seq<u8>,
    commit: Seq<u8>,
    head: Seq<u8>,
    out: Result<Seq<u8>, ErrorView>,
)
    requires
        base_is_head(repo, rev, object, commit, head),
    ensures
        git::base_in_repo_gives(repo, file, Some(rev), out) <==> git::base_in_repo_gives(
            repo,
            file,
            None,
            out,
        ),
{
    assert forall|base: Result<Seq<u8>, ErrorView>| #[trigger]
        git::base_commit_gives(repo, Some(rev), base) implies base == Ok::<Seq<u8>, ErrorView>(
        head,
    ) by {
        law_base_commit_at_head(repo, rev, object, commit, head, base);
    }
    law_base_commit_at_head(repo, rev, object, commit, head, Ok(head));
}

/// Repositories that give the same contents give the same diff base.
proof fn lemma_same_diff_base<G: Git>(
    git: &G,
    file: Seq<PartView>,
    one: Option<Seq<char>>,
    two: Option<Seq<char>>,
    trust_full: bool,
    out: Result<Seq<u8>, ErrorView>,
)
    requires
        forall|resolved: Seq<PartView>, repo: G::Repo| #[trigger]
            git::file_repo_gives(git, file, trust_full, Ok((resolved, repo))) ==> (
            git::base_in_repo_gives(&repo, resolved, one, out) <==> git::base_in_repo_gives(
                &repo,
                resolved,
                two,
                out,
            )),
    ensures
        git::diff_base_gives(git, file, one, trust_full, out) ==> git::diff_base_gives(
            git,
            file,
            two,
            trust_full,
            out,
        ),
{
    if git::diff_base_gives(git, file, one, trust_full, out) {
        let found = choose|found: Result<(Seq<PartView>, G::Repo), ErrorView>| #[trigger]
            git::file_repo_gives(git, file, trust_full, found) && match found {
                Err(e) => out == Err::<Seq<u8>, ErrorView>(e),
                Ok((resolved, repo)) => git::base_in_repo_gives(&repo, resolved, one, out),
            };
        if let Ok((resolved, repo)) = found {
            assert(git::file_repo_gives(git, file, trust_full, Ok((resolved, repo))));
        }
    }
}

/// Where there is no repository, or only one without a worktree, listing its
/// changed files fails without a report.
pub proof fn law_nothing_is_reported_without_a_worktree<
    G: Git,
    S,
    F: Fn(S, Report) -> (S, bool),
>(
    git: &G,
    cwd: Seq<PartView>,
    trust_full: bool,
    scope: StatusScope,
    f: F,
    s: S,
    end: S,
    out: Result<(), ErrorView>,
)
    requires
        forall|repo: G::Repo, dir: Option<FilePath>|
            #![trigger call_ensures(G::Repo::work_dir, (&repo,), dir)]
            git::repo_gives(git, cwd, trust_full, Ok(repo)) && call_ensures(
                G::Repo::work_dir,
                (&repo,),
                dir,
            ) ==> dir is None,
        git::changed_files_given(git, cwd, trust_full, scope, f, s, end, out),
    ensures
        end == s,
        out is Err,
{
    let listing = choose|listing: Result<Seq<OutcomeView>, ErrorView>| #[trigger]
        git::listing_gives(git, cwd, trust_full, scope, listing) && match listing {
            Err(e) => end == s && out == Err::<(), ErrorView>(e),
            Ok(listing) => reports::follows(f, listing, 0, true, s, end, out),
        };
    let repo = choose|repo: Result<G::Repo, ErrorView>| #[trigger]
        git::repo_gives(git, cwd, trust_full, repo) && match repo {
            Err(e) => listing == Err::<Seq<OutcomeView>, ErrorView>(e),
            Ok(repo) => git::repo_listing_gives(git, &repo, scope, listing),
        };
    if let Ok(repo) = repo {
        let windows = choose|windows: bool| #[trigger]
            call_ensures(G::on_windows, (git,), windows) && git::status_gives(
                &repo,
                scope,
                windows,
                listing,
            );
        let dir = choose|dir: Option<FilePath>| #[trigger]
            call_ensures(G::Repo::work_dir, (&repo,), dir) && match dir {
                None => listing == Err::<Seq<OutcomeView>, ErrorView>(ErrorView::NoWorkingTree),
                Some(dir) => git::worktree_listed(
                    &repo,
                    (WorkDirView { path: dir@, windows }),
                    scope,
                    listing,
                ),
            };
        assert(dir is None);
    }
}

/// Where a revision has no merge base with `HEAD`, the status of a repository
/// with a worktree lists the reason, and nothing else.
pub proof fn law_unresolved_revision_is_all_that_is_listed<R: Repository>(
    repo: &R,
    scope: StatusScope,
    windows: bool,
    error: ErrorView,
    listing: Result<Seq<OutcomeView>, ErrorView>,
)
    requires
        scope is MergeBaseToWorktree,
        forall|dir: Option<FilePath>| #[trigger]
            call_ensures(R::work_dir, (repo,), dir) ==> dir is Some,
        forall|started: Result<(), String>| #[trigger]
            call_ensures(R::start_status, (repo,), started) ==> started is Ok,
        forall|base: Result<Seq<u8>, ErrorView>| #[trigger]
            git::base_commit_gives(repo, Some(scope->MergeBaseToWorktree_0@), base) ==> base
                == Err::<Seq<u8>, ErrorView>(error),
        git::status_gives(repo, scope, windows, listing),
    ensures
        listing == Ok::<Seq<OutcomeView>, ErrorView>(seq![OutcomeView::Report(Err(error))]),
{
    let dir = choose|dir: Option<FilePath>| #[trigger]
        call_ensures(R::work_dir, (repo,), dir) && match dir {
            None => listing == Err::<Seq<OutcomeView>, ErrorView>(ErrorView::NoWorkingTree),
            Some(dir) => git::worktree_listed(
                repo,
                (WorkDirView { path: dir@, windows }),
                scope,
                listing,
            ),
        };
    let work_dir = WorkDirView { path: dir->Some_0@, windows };
    assert(git::worktree_listed(repo, work_dir, scope, listing));
    assert(git::scope_listed(repo, work_dir, scope, listing));
}

/// Where a revision has no merge base with `HEAD`, that is what the callback is
/// told by its only call, and the listing counts as done.
pub proof fn law_unresolved_revision_is_the_only_report<
    R: Repository,
    S,
    F: Fn(S, Report) -> (S, bool),
>(
    repo: &R,
    scope: StatusScope,
    windows: bool,
    error: ErrorView,
    listing: Seq<OutcomeView>,
    f: F,
    s: S,
    end: S,
    out: Result<(), ErrorView>,
)
    requires
        scope is MergeBaseToWorktree,
        forall|dir: Option<FilePath>| #[trigger]
            call_ensures(R::work_dir, (repo,), dir) ==> dir is Some,
        forall|started: Result<(), String>| #[trigger]
            call_ensures(R::start_status, (repo,), started) ==> started is Ok,
        forall|base: Result<Seq<u8>, ErrorView>| #[trigger]
            git::base_commit_gives(repo, Some(scope->MergeBaseToWorktree_0@), base) ==> base
                == Err::<Seq<u8>, ErrorView>(error),
        git::status_gives(repo, scope, windows, Ok(listing)),
        reports::follows(f, listing, 0, true, s, end, out),
    ensures
        out == Ok::<(), ErrorView>(()),
        exists|more: bool| #[trigger] reports::answered(f, s, Err(error), end, more),
{
    law_unresolved_revision_is_all_that_is_listed(repo, scope, windows, error, Ok(listing));
    reports::law_one_report_is_one_call(f, Err(error), s, end, out);
}

/// The differences between the index and the worktree among those of either
/// sort are the ones that are listed alone.
pub open spec fn same_index_items(
    index: Seq<Result<IndexItem, String>>,
    all: Seq<Result<StatusItem, String>>,
) -> bool {
    &&& forall|i: int|
        0 <= i < index.len() ==> all.contains(as_status(#[trigger] index[i]))
    &&& forall|j: int|
        0 <= j < all.len() && !is_tree_item(#[trigger] all[j]) ==> exists|i: int|
            0 <= i < index.len() && all[j] == as_status(#[trigger] index[i])
}

/// A difference between the index and the worktree as one of either sort.
pub open spec fn as_status(item: Result<IndexItem, String>) -> Result<StatusItem, String> {
    match item {
        Ok(item) => Ok(StatusItem::IndexWorktree(item)),
        Err(e) => Err(e),
    }
}

/// Whether a difference is one between a tree and the index.
pub open spec fn is_tree_item(item: Result<StatusItem, String>) -> bool {
    item is Ok && item->Ok_0 is TreeIndex
}

/// What there is to report of a fixed repository under two scopes, where no
/// path makes a listing fail: what is reported of the index and the worktree
/// alone is reported of `HEAD` and the worktree too. The latter also has each
/// change between `HEAD` and the index, and nothing else beyond the former.
pub proof fn law_scopes_compared(
    work_dir: WorkDirView,
    index: Seq<Result<IndexItem, String>>,
    all: Seq<Result<StatusItem, String>>,
)
    requires
        same_index_items(index, all),
        reports::ending_from(changes::index_outcomes(work_dir, index), 0) is Ok,
        reports::ending_from(changes::status_outcomes(work_dir, all), 0) is Ok,
    ensures
        forall|report: ReportView|
            reports::reports_from(changes::index_outcomes(work_dir, index), 0).contains(report)
                ==> #[trigger] reports::reports_from(
                changes::status_outcomes(work_dir, all),
                0,
            ).contains(report),
        forall|j: int, report: ReportView|
            0 <= j < all.len() && is_tree_item(#[trigger] all[j]) && changes::status_outcome(
                work_dir,
                all[j],
            ) == OutcomeView::Report(report) ==> #[trigger] reports::reports_from(
                changes::status_outcomes(work_dir, all),
                0,
            ).contains(report),
        forall|report: ReportView|
            #[trigger] reports::reports_from(changes::status_outcomes(work_dir, all), 0).contains(
                report,
            ) && !reports::reports_from(changes::index_outcomes(work_dir, index), 0).contains(
                report,
            ) ==> exists|j: int|
                0 <= j < all.len() && is_tree_item(#[trigger] all[j]) && changes::status_outcome(
                    work_dir,
                    all[j],
                ) == OutcomeView::Report(report),
{
    let few = changes::index_outcomes(work_dir, index);
    let many = changes::status_outcomes(work_dir, all);
    lemma_reported(few, 0);
    lemma_reported(many, 0);
    assert forall|report: ReportView|
        reports::reports_from(few, 0).contains(report) implies #[trigger] reports::reports_from(
        many,
        0,
    ).contains(report) by {
        let i = choose|i: int|
            0 <= i < few.len() && #[trigger] few[i] == OutcomeView::Report(report);
        let j = all.index_of(as_status(index[i]));
        assert(all.contains(as_status(index[i])));
        assert(all[j] == as_status(index[i]));
        assert(many[j] == OutcomeView::Report(report));
    }
    assert forall|j: int, report: ReportView|
        0 <= j < all.len() && is_tree_item(#[trigger] all[j]) && changes::status_outcome(
            work_dir,
            all[j],
        ) == OutcomeView::Report(report) implies #[trigger] reports::reports_from(
        many,
        0,
    ).contains(report) by {
        assert(many[j] == OutcomeView::Report(report));
    }
    assert forall|report: ReportView|
        #[trigger] reports::reports_from(many, 0).contains(report) && !reports::reports_from(
            few,
            0,
        ).contains(report) implies exists|j: int|
        0 <= j < all.len() && is_tree_item(#[trigger] all[j]) && changes::status_outcome(
            work_dir,
            all[j],
        ) == OutcomeView::Report(report) by {
        let j = choose|j: int|
            0 <= j < many.len() && #[trigger] many[j] == OutcomeView::Report(report);
        if !is_tree_item(all[j]) {
            let i = choose|i: int| 0 <= i < index.len() && all[j] == as_status(#[trigger] index[i]);
            assert(few[i] == OutcomeView::Report(report));
        }
        assert(is_tree_item(all[j]));
    }
}

/// In a fixed repository, the scope of the index and the worktree lists the
/// differences between these alone, and the scope of `HEAD` those of either
/// sort.
pub proof fn law_scopes_list<R: Repository>(
    repo: &R,
    work_dir: WorkDirView,
    index: Seq<Result<IndexItem, String>>,
    all: Seq<Result<StatusItem, String>>,
    few: Result<Seq<OutcomeView>, ErrorView>,
    many: Result<Seq<OutcomeView>, ErrorView>,
)
    requires
        forall|dir: Option<FilePath>| #[trigger]
            call_ensures(R::work_dir, (repo,), dir) ==> dir is Some && dir->Some_0@ == work_dir.path,
        forall|started: Result<(), String>| #[trigger]
            call_ensures(R::start_status, (repo,), started) ==> started is Ok,
        forall|r: Result<Vec<Result<IndexItem, String>>, String>| #[trigger]
            call_ensures(R::index_items, (repo, git::listing_settings()), r) ==> r is Ok
                && r->Ok_0@ == index,
        forall|r: Result<Vec<Result<StatusItem, String>>, String>| #[trigger]
            git::items_give(repo, None, r) ==> r is Ok && r->Ok_0@ == all,
        git::status_gives(repo, StatusScope::IndexToWorktree, work_dir.windows, few),
        git::status_gives(repo, StatusScope::HeadToWorktree, work_dir.windows, many),
    ensures
        few == Ok::<Seq<OutcomeView>, ErrorView>(changes::index_outcomes(work_dir, index)),
        many == Ok::<Seq<OutcomeView>, ErrorView>(changes::status_outcomes(work_dir, all)),
{
    assert(git::worktree_listed(repo, work_dir, StatusScope::IndexToWorktree, few));
    assert(git::worktree_listed(repo, work_dir, StatusScope::HeadToWorktree, many));
    assert(git::index_listed(repo, work_dir, few));
    assert(git::tree_listed(repo, work_dir, None, many));
}

/// A listing that does not fail reports what its places have to report.
proof fn lemma_reported(listing: Seq<OutcomeView>, at: int)
    requires
        0 <= at,
        reports::ending_from(listing, at) is Ok,
    ensures
        forall|report: ReportView| #[trigger]
            reports::reports_from(listing, at).contains(report) <==> exists|i: int|
                at <= i < listing.len() && #[trigger] listing[i] == OutcomeView::Report(report),
    decreases listing.len() - at,
{
    if at < listing.len() {
        lemma_reported(listing, at + 1);
        let rest = reports::reports_from(listing, at + 1);
        let here = reports::reports_from(listing, at);
        assert forall|report: ReportView| #[trigger] here.contains(report) <==> exists|i: int|
            at <= i < listing.len() && #[trigger] listing[i] == OutcomeView::Report(report) by {
            if let OutcomeView::Report(first) = listing[at] {
                assert(here == seq![first] + rest);
                assert(here[0] == first);
                if rest.contains(report) {
                    let k = rest.index_of(report);
                    assert(here[k + 1] == report);
                }
                if here.contains(report) {
                    let k = here.index_of(report);
                    if k > 0 {
                        assert(rest[k - 1] == report);
                    } else {
                        assert(listing[at] == OutcomeView::Report(report));
                    }
                }
            } else {
                assert(here == rest);
            }
            if rest.contains(report) {
                let i = choose|i: int|
                    at + 1 <= i < listing.len() && #[trigger] listing[i] == OutcomeView::Report(
                        report,
                    );
                assert(at <= i);
            }
        }
    } else {
        assert forall|report: ReportView| !#[trigger]
            reports::reports_from(listing, at).contains(report) by {}
    }
}

} // verus!
