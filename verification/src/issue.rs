//! The Issue entity, its status, its persistence interface, a verified
//! in-memory store, and the issue usecases.

use vstd::prelude::*;
use crate::domain_error::DomainError;
use crate::ids::fresh_id;
use crate::strutil::{clone_opt_string, merged_field, str_eq};

verus! {

/// The workflow state of an issue. Transitions are unconstrained: any status
/// is reachable from any other.
#[derive(Debug, Clone, Copy, PartialEq, Eq, Structural)]
pub enum IssueStatus {
    Open,
    InReview,
    Approved,
    Disputed,
}

/// The stored string form of each status.
pub open spec fn status_str_view(status: IssueStatus) -> Seq<char> {
    match status {
        IssueStatus::Open => "open"@,
        IssueStatus::InReview => "in_review"@,
        IssueStatus::Approved => "approved"@,
        IssueStatus::Disputed => "disputed"@,
    }
}

/// The explicit mapping from a status to its stored string form.
pub fn status_to_str(status: IssueStatus) -> (r: &'static str)
    ensures
        r@ == status_str_view(status),
{
    match status {
        IssueStatus::Open => "open",
        IssueStatus::InReview => "in_review",
        IssueStatus::Approved => "approved",
        IssueStatus::Disputed => "disputed",
    }
}

/// The explicit mapping from a stored string back to the status it stands
/// for; nothing for any other string.
pub fn status_from_str(s: &str) -> (r: Option<IssueStatus>)
    ensures
        r matches Some(st) ==> s@ == status_str_view(st),
        r is None ==> forall|st: IssueStatus| s@ != status_str_view(st),
{
    if str_eq(s, "open") {
        Some(IssueStatus::Open)
    } else if str_eq(s, "in_review") {
        Some(IssueStatus::InReview)
    } else if str_eq(s, "approved") {
        Some(IssueStatus::Approved)
    } else if str_eq(s, "disputed") {
        Some(IssueStatus::Disputed)
    } else {
        proof {
            assert forall|st: IssueStatus| s@ != status_str_view(st) by {
                match st {
                    IssueStatus::Open => assert(s@ != "open"@),
                    IssueStatus::InReview => assert(s@ != "in_review"@),
                    IssueStatus::Approved => assert(s@ != "approved"@),
                    IssueStatus::Disputed => assert(s@ != "disputed"@),
                }
            }
        }
        None
    }
}

/// The stored string forms of the statuses are pairwise distinct, so the
/// mapping between a status and its stored form is invertible.
pub proof fn lemma_status_str_injective(a: IssueStatus, b: IssueStatus)
    requires
        status_str_view(a) == status_str_view(b),
    ensures
        a == b,
{
    reveal_strlit("open");
    reveal_strlit("in_review");
    reveal_strlit("approved");
    reveal_strlit("disputed");
    assert(status_str_view(a).len() == status_str_view(b).len());
    if a != b {
        assert(status_str_view(IssueStatus::Open).len() == 4);
        assert(status_str_view(IssueStatus::InReview).len() == 9);
        assert(status_str_view(IssueStatus::Approved).len() == 8);
        assert(status_str_view(IssueStatus::Disputed).len() == 8);
        assert(status_str_view(IssueStatus::Approved)[0] == 'a');
        assert(status_str_view(IssueStatus::Disputed)[0] == 'd');
    }
}

/// A bounty issue inside a project. The project is referenced by id only.
/// The bounty amount is carried opaquely, as the bit pattern of the
/// caller's floating-point value; this layer never interprets it.
#[derive(Debug)]
pub struct Issue {
    pub id: u128,
    pub project_id: u128,
    pub title: String,
    pub description: Option<String>,
    pub bounty_value_bits: u64,
    pub status: IssueStatus,
    pub created_at: u64,
    pub updated_at: Option<u64>,
}

impl Clone for Issue {
    fn clone(&self) -> (res: Self)
        ensures
            res == *self,
    {
        Issue {
            id: self.id,
            project_id: self.project_id,
            title: self.title.clone(),
            description: clone_opt_string(&self.description),
            bounty_value_bits: self.bounty_value_bits,
            status: self.status,
            created_at: self.created_at,
            updated_at: self.updated_at,
        }
    }
}

/// The rows are ordered by creation time, newest first.
pub open spec fn issues_sorted(s: Seq<Issue>) -> bool {
    forall|i: int, j: int| 0 <= i < j < s.len() ==> s[i].created_at >= s[j].created_at
}

/// No two rows share an id.
pub open spec fn issues_distinct_ids(s: Seq<Issue>) -> bool {
    forall|i: int, j: int| 0 <= i < j < s.len() ==> s[i].id != s[j].id
}

/// Some row carries this id.
pub open spec fn has_issue_id(s: Seq<Issue>, id: u128) -> bool {
    exists|i: int| 0 <= i < s.len() && s[i].id == id
}

/// Every row whose id matches `u.id`, replaced by `u`; the rest unchanged.
pub open spec fn issues_replace(s: Seq<Issue>, u: Issue) -> Seq<Issue> {
    Seq::new(s.len(), |i: int| if s[i].id == u.id { u } else { s[i] })
}

/// Every row whose id matches, with only its status overwritten; the rest
/// unchanged. The update stamp is untouched by this narrow write.
pub open spec fn issues_set_status(s: Seq<Issue>, id: u128, st: IssueStatus) -> Seq<Issue> {
    Seq::new(
        s.len(),
        |i: int| if s[i].id == id {
            Issue { status: st, ..s[i] }
        } else {
            s[i]
        },
    )
}

/// The rows whose id differs from `id`, in their original order.
pub open spec fn issues_without(s: Seq<Issue>, id: u128) -> Seq<Issue>
    decreases s.len(),
{
    if s.len() == 0 {
        Seq::empty()
    } else {
        let rest = issues_without(s.drop_last(), id);
        if s.last().id == id {
            rest
        } else {
            rest.push(s.last())
        }
    }
}

/// The rows belonging to one project, in their original order.
pub open spec fn issues_for_project(s: Seq<Issue>, project: u128) -> Seq<Issue>
    decreases s.len(),
{
    if s.len() == 0 {
        Seq::empty()
    } else {
        let rest = issues_for_project(s.drop_last(), project);
        if s.last().project_id == project {
            rest.push(s.last())
        } else {
            rest
        }
    }
}

proof fn lemma_issues_without_absent(s: Seq<Issue>, id: u128)
    requires
        forall|i: int| 0 <= i < s.len() ==> s[i].id != id,
    ensures
        issues_without(s, id) == s,
    decreases s.len(),
{
    if s.len() > 0 {
        lemma_issues_without_absent(s.drop_last(), id);
        assert(issues_without(s, id) =~= s);
    } else {
        assert(issues_without(s, id) =~= s);
    }
}

proof fn lemma_issues_without_found(s: Seq<Issue>, id: u128, j: int)
    requires
        0 <= j < s.len(),
        s[j].id == id,
        forall|i: int| 0 <= i < s.len() && i != j ==> s[i].id != id,
    ensures
        issues_without(s, id) == s.remove(j),
    decreases s.len(),
{
    if j == s.len() - 1 {
        lemma_issues_without_absent(s.drop_last(), id);
        assert(issues_without(s, id) =~= s.remove(j));
    } else {
        lemma_issues_without_found(s.drop_last(), id, j);
        assert(issues_without(s, id) =~= s.remove(j));
    }
}

/// Every row selected by project carries that project id and stands in the
/// original rows.
proof fn lemma_issues_for_project_contains(s: Seq<Issue>, project: u128)
    ensures
        forall|i: int|
            #![trigger issues_for_project(s, project)[i]]
            0 <= i < issues_for_project(s, project).len() ==> issues_for_project(
                s,
                project,
            )[i].project_id == project && s.contains(issues_for_project(s, project)[i]),
    decreases s.len(),
{
    if s.len() > 0 {
        lemma_issues_for_project_contains(s.drop_last(), project);
        assert forall|i: int|
            #![trigger issues_for_project(s, project)[i]]
            0 <= i < issues_for_project(s, project).len() implies issues_for_project(
            s,
            project,
        )[i].project_id == project && s.contains(issues_for_project(s, project)[i]) by {
            let sel = issues_for_project(s, project);
            let rest = issues_for_project(s.drop_last(), project);
            if i < rest.len() {
                let e = rest[i];
                assert(s.drop_last().contains(e));
                let j = choose|j: int| 0 <= j < s.drop_last().len() && s.drop_last()[j] == e;
                assert(s[j] == e);
            } else {
                assert(sel[i] == s.last());
                assert(s[s.len() - 1] == s.last());
            }
        }
    }
}

/// Selecting by project keeps the newest-first order.
proof fn lemma_issues_for_project_sorted(s: Seq<Issue>, project: u128)
    requires
        issues_sorted(s),
    ensures
        issues_sorted(issues_for_project(s, project)),
    decreases s.len(),
{
    if s.len() > 0 {
        assert(issues_sorted(s.drop_last()));
        lemma_issues_for_project_sorted(s.drop_last(), project);
        lemma_issues_for_project_contains(s.drop_last(), project);
        let sel = issues_for_project(s, project);
        let rest = issues_for_project(s.drop_last(), project);
        assert forall|i: int, j: int|
            0 <= i < j < sel.len() implies sel[i].created_at >= sel[j].created_at by {
            if j < rest.len() {
            } else {
                assert(sel[j] == s.last());
                let e = rest[i];
                assert(s.drop_last().contains(e));
                let m = choose|m: int| 0 <= m < s.drop_last().len() && s.drop_last()[m] == e;
                assert(s[m] == e);
                assert(s[m].created_at >= s[s.len() - 1].created_at);
            }
        }
    }
}

/// The persistence interface for issues.
pub trait IssueRepository: Sized {
    /// The stored rows, newest first.
    spec fn view(&self) -> Seq<Issue>;

    /// The store's own well-formedness.
    spec fn wf(&self) -> bool;

    /// A well-formed store is ordered newest-first and holds no two rows
    /// with one id.
    proof fn wf_properties(&self)
        requires
            self.wf(),
        ensures
            issues_sorted(self.view()),
            issues_distinct_ids(self.view()),
    ;

    /// Stores a new row; failures are infrastructural and write nothing.
    fn create_issue(&mut self, issue: &Issue) -> (r: Result<(), DomainError>)
        requires
            old(self).wf(),
        ensures
            final(self).wf(),
            r matches Ok(()) ==> !has_issue_id(old(self).view(), issue.id) && (exists|i: int|
                0 <= i <= old(self).view().len() && final(self).view() == old(
                    self,
                ).view().insert(i, *issue)),
            r matches Err(e) ==> final(self).view() == old(self).view() && e matches
                DomainError::Infra(_),
    ;

    /// Looks a row up by id.
    fn get_issue_by_id(&self, issue_id: u128) -> (r: Result<Option<Issue>, DomainError>)
        requires
            self.wf(),
        ensures
            r matches Ok(Some(u)) ==> self.view().contains(u) && u.id == issue_id,
            r matches Ok(None) ==> !has_issue_id(self.view(), issue_id),
            r matches Err(e) ==> e matches DomainError::Infra(_),
    ;

    /// The rows of one project, newest first.
    fn get_issues_by_project(&self, project_id: u128) -> (r: Result<Vec<Issue>, DomainError>)
        requires
            self.wf(),
        ensures
            r matches Ok(l) ==> l@ == issues_for_project(self.view(), project_id),
            r matches Err(e) ==> e matches DomainError::Infra(_),
    ;

    /// Overwrites the rows whose id matches `issue.id`; the caller keeps the
    /// creation time of the row it overwrites.
    fn update_issue(&mut self, issue: &Issue) -> (r: Result<(), DomainError>)
        requires
            old(self).wf(),
            forall|i: int|
                0 <= i < old(self).view().len() && old(self).view()[i].id == issue.id ==> old(
                    self,
                ).view()[i].created_at == issue.created_at,
        ensures
            final(self).wf(),
            r matches Ok(()) ==> final(self).view() == issues_replace(old(self).view(), *issue),
            r matches Err(e) ==> final(self).view() == old(self).view() && e matches
                DomainError::Infra(_),
    ;

    /// Writes only the status of the rows whose id matches, leaving every
    /// other field, the update stamp included, as it stands.
    fn update_issue_status(&mut self, issue_id: u128, status: IssueStatus) -> (r: Result<
        (),
        DomainError,
    >)
        requires
            old(self).wf(),
        ensures
            final(self).wf(),
            r matches Ok(()) ==> final(self).view() == issues_set_status(
                old(self).view(),
                issue_id,
                status,
            ),
            r matches Err(e) ==> final(self).view() == old(self).view() && e matches
                DomainError::Infra(_),
    ;

    /// Removes the rows whose id matches; removing an absent id succeeds.
    fn delete_issue(&mut self, issue_id: u128) -> (r: Result<(), DomainError>)
        requires
            old(self).wf(),
        ensures
            final(self).wf(),
            r matches Ok(()) ==> final(self).view() == issues_without(old(self).view(), issue_id),
            r matches Err(e) ==> final(self).view() == old(self).view() && e matches
                DomainError::Infra(_),
    ;

    /// All rows, newest first.
    fn list_issues(&self) -> (r: Result<Vec<Issue>, DomainError>)
        requires
            self.wf(),
        ensures
            r matches Ok(l) ==> l@ == self.view(),
            r matches Err(e) ==> e matches DomainError::Infra(_),
    ;
}

/// An in-memory issue store, kept sorted by creation time, newest first.
pub struct InMemoryIssueRepository {
    issues: Vec<Issue>,
}

impl InMemoryIssueRepository {
    /// An empty store.
    pub fn new() -> (r: Self)
        ensures
            r.wf(),
            r.view() == Seq::<Issue>::empty(),
    {
        InMemoryIssueRepository { issues: Vec::new() }
    }
}

impl IssueRepository for InMemoryIssueRepository {
    closed spec fn view(&self) -> Seq<Issue> {
        self.issues@
    }

    closed spec fn wf(&self) -> bool {
        issues_sorted(self.issues@) && issues_distinct_ids(self.issues@)
    }

    proof fn wf_properties(&self) {
    }

    #[verifier::loop_isolation(false)]
    fn create_issue(&mut self, issue: &Issue) -> (r: Result<(), DomainError>) {
        let ghost s = self.issues@;
        let n = self.issues.len();
        let mut k: usize = 0;
        while k < n
            invariant
                n == self.issues.len(),
                self.issues@ == s,
                0 <= k <= n,
                forall|i: int| 0 <= i < k ==> s[i].id != issue.id,
            decreases n - k,
        {
            if self.issues[k].id == issue.id {
                return Err(DomainError::Infra("duplicate issue id".to_owned()));
            }
            k += 1;
        }
        let mut pos: usize = 0;
        while pos < n && self.issues[pos].created_at > issue.created_at
            invariant
                n == self.issues.len(),
                self.issues@ == s,
                0 <= pos <= n,
                forall|i: int| 0 <= i < pos ==> s[i].created_at > issue.created_at,
            decreases n - pos,
        {
            pos += 1;
        }
        let c = issue.clone();
        self.issues.insert(pos, c);
        proof {
            s.insert_ensures(pos as int, *issue);
            let t = self.issues@;
            assert forall|i: int, j: int|
                0 <= i < j < t.len() implies t[i].created_at >= t[j].created_at by {
                if pos < s.len() {
                    assert(s[pos as int].created_at <= issue.created_at);
                }
            }
            assert forall|i: int, j: int| 0 <= i < j < t.len() implies t[i].id != t[j].id by {}
            assert(old(self).view() == s);
            assert(!has_issue_id(s, issue.id)) by {
                assert(forall|i: int| 0 <= i < s.len() ==> s[i].id != issue.id);
            }
            assert(exists|i: int| 0 <= i <= s.len() && self.issues@ == s.insert(i, *issue)) by {
                assert(0 <= pos as int <= s.len());
                assert(self.issues@ == s.insert(pos as int, *issue));
            }
        }
        Ok(())
    }

    #[verifier::loop_isolation(false)]
    fn get_issue_by_id(&self, issue_id: u128) -> (r: Result<Option<Issue>, DomainError>) {
        let n = self.issues.len();
        let mut k: usize = 0;
        while k < n
            invariant
                n == self.issues.len(),
                0 <= k <= n,
                forall|i: int| 0 <= i < k ==> self.issues@[i].id != issue_id,
            decreases n - k,
        {
            if self.issues[k].id == issue_id {
                let u = self.issues[k].clone();
                proof {
                    assert(self.issues@.contains(u)) by {
                        assert(self.issues@[k as int] == u);
                    }
                }
                return Ok(Some(u));
            }
            k += 1;
        }
        Ok(None)
    }

    #[verifier::loop_isolation(false)]
    fn get_issues_by_project(&self, project_id: u128) -> (r: Result<Vec<Issue>, DomainError>) {
        let ghost s = self.issues@;
        let n = self.issues.len();
        let mut out: Vec<Issue> = Vec::new();
        let mut k: usize = 0;
        while k < n
            invariant
                n == self.issues.len(),
                self.issues@ == s,
                0 <= k <= n,
                out@ == issues_for_project(s.take(k as int), project_id),
            decreases n - k,
        {
            if self.issues[k].project_id == project_id {
                out.push(self.issues[k].clone());
            }
            proof {
                let tk1 = s.take(k as int + 1);
                assert(tk1.drop_last() =~= s.take(k as int));
                assert(tk1.last() == s[k as int]);
                assert(out@ =~= issues_for_project(s.take(k as int + 1), project_id));
            }
            k += 1;
        }
        proof {
            assert(s.take(n as int) =~= s);
        }
        Ok(out)
    }

    #[verifier::loop_isolation(false)]
    fn update_issue(&mut self, issue: &Issue) -> (r: Result<(), DomainError>) {
        let ghost s = self.issues@;
        let n = self.issues.len();
        let mut k: usize = 0;
        while k < n
            invariant
                n == self.issues.len(),
                self.issues@ == s,
                0 <= k <= n,
                forall|i: int| 0 <= i < k ==> s[i].id != issue.id,
            decreases n - k,
        {
            if self.issues[k].id == issue.id {
                let c = issue.clone();
                self.issues.remove(k);
                self.issues.insert(k, c);
                proof {
                    let t = self.issues@;
                    let s1 = s.remove(k as int);
                    s.remove_ensures(k as int);
                    s1.insert_ensures(k as int, *issue);
                    assert(old(self).view() == s);
                    assert(t =~= issues_replace(s, *issue));
                    assert forall|i: int|
                        0 <= i < t.len() implies t[i].created_at == s[i].created_at && t[i].id
                        == s[i].id by {
                        assert(t[i] == issues_replace(s, *issue)[i]);
                        if s[i].id == issue.id {
                            assert(s[i].created_at == issue.created_at);
                        }
                    }
                    assert(issues_sorted(t));
                    assert(issues_distinct_ids(t));
                }
                return Ok(());
            }
            k += 1;
        }
        proof {
            assert(self.issues@ =~= issues_replace(s, *issue));
        }
        Ok(())
    }

    #[verifier::loop_isolation(false)]
    fn update_issue_status(&mut self, issue_id: u128, status: IssueStatus) -> (r: Result<
        (),
        DomainError,
    >) {
        let ghost s = self.issues@;
        let n = self.issues.len();
        let mut k: usize = 0;
        while k < n
            invariant
                n == self.issues.len(),
                self.issues@ == s,
                0 <= k <= n,
                forall|i: int| 0 <= i < k ==> s[i].id != issue_id,
            decreases n - k,
        {
            if self.issues[k].id == issue_id {
                let mut changed = self.issues[k].clone();
                changed.status = status;
                let ghost gc = changed;
                self.issues.remove(k);
                self.issues.insert(k, changed);
                proof {
                    let t = self.issues@;
                    let s1 = s.remove(k as int);
                    s.remove_ensures(k as int);
                    s1.insert_ensures(k as int, gc);
                    assert(t =~= issues_set_status(s, issue_id, status));
                    assert forall|i: int|
                        0 <= i < t.len() implies t[i].created_at == s[i].created_at && t[i].id
                        == s[i].id by {
                        assert(t[i] == issues_set_status(s, issue_id, status)[i]);
                    }
                    assert(issues_sorted(t));
                    assert(issues_distinct_ids(t));
                }
                return Ok(());
            }
            k += 1;
        }
        proof {
            assert(self.issues@ =~= issues_set_status(s, issue_id, status));
        }
        Ok(())
    }

    #[verifier::loop_isolation(false)]
    fn delete_issue(&mut self, issue_id: u128) -> (r: Result<(), DomainError>) {
        let ghost s = self.issues@;
        let n = self.issues.len();
        let mut k: usize = 0;
        while k < n
            invariant
                n == self.issues.len(),
                self.issues@ == s,
                0 <= k <= n,
                forall|i: int| 0 <= i < k ==> s[i].id != issue_id,
            decreases n - k,
        {
            if self.issues[k].id == issue_id {
                self.issues.remove(k);
                proof {
                    s.remove_ensures(k as int);
                    assert forall|i: int|
                        0 <= i < s.len() && i != k as int implies s[i].id != issue_id by {
                        if i < k as int {
                            assert(s[i].id != s[k as int].id);
                        } else {
                            assert(s[k as int].id != s[i].id);
                        }
                    }
                    lemma_issues_without_found(s, issue_id, k as int);
                }
                return Ok(());
            }
            k += 1;
        }
        proof {
            lemma_issues_without_absent(s, issue_id);
        }
        Ok(())
    }

    #[verifier::loop_isolation(false)]
    fn list_issues(&self) -> (r: Result<Vec<Issue>, DomainError>) {
        let n = self.issues.len();
        let mut out: Vec<Issue> = Vec::new();
        let mut k: usize = 0;
        while k < n
            invariant
                n == self.issues.len(),
                0 <= k <= n,
                out@ == self.issues@.take(k as int),
            decreases n - k,
        {
            out.push(self.issues[k].clone());
            proof {
                assert(out@ =~= self.issues@.take(k as int + 1));
            }
            k += 1;
        }
        proof {
            assert(out@ =~= self.issues@);
        }
        Ok(out)
    }
}

/// The issue usecases, over any persistence interface.
pub struct IssueUsecases<R: IssueRepository> {
    repository: R,
}

impl<R: IssueRepository> IssueUsecases<R> {
    /// The stored rows, as the persistence interface exposes them.
    pub closed spec fn view(&self) -> Seq<Issue> {
        self.repository.view()
    }

    /// Whether the underlying store is well formed.
    pub closed spec fn wf(&self) -> bool {
        self.repository.wf()
    }

    /// Wraps a persistence interface.
    pub fn new(repository: R) -> (r: Self)
        ensures
            r.view() == repository.view(),
            r.wf() == repository.wf(),
    {
        IssueUsecases { repository }
    }

    /// Creates an issue: the title is required, the initial status is always
    /// Open whatever the caller wanted, and the bounty is stored as given. A
    /// rejected creation writes nothing.
    pub fn create_issue(
        &mut self,
        project_id: u128,
        title: String,
        description: Option<String>,
        bounty_value_bits: u64,
        now: u64,
    ) -> (r: Result<Issue, DomainError>)
        requires
            old(self).wf(),
        ensures
            final(self).wf(),
            !(r is Ok) ==> final(self).view() == old(self).view(),
            title@.len() == 0 ==> r matches Err(DomainError::InvalidData(_)),
            r matches Err(DomainError::InvalidData(m)) ==> title@.len() == 0 && m@
                == "Issue title cannot be empty"@,
            r matches Ok(u) ==> title@.len() > 0 && u.project_id == project_id && u.title == title
                && u.description == description && u.bounty_value_bits == bounty_value_bits
                && u.status == IssueStatus::Open && u.created_at == now && u.updated_at is None
                && !has_issue_id(old(self).view(), u.id) && (exists|i: int|
                0 <= i <= old(self).view().len() && final(self).view() == old(self).view().insert(
                    i,
                    u,
                )),
            r matches Err(e) ==> (e matches DomainError::InvalidData(_) || e matches
                DomainError::Infra(_)),
    {
        if title.as_str().is_empty() {
            return Err(DomainError::InvalidData("Issue title cannot be empty".to_owned()));
        }
        let issue = Issue {
            id: fresh_id(),
            project_id,
            title,
            description,
            bounty_value_bits,
            status: IssueStatus::Open,
            created_at: now,
            updated_at: None,
        };
        match self.repository.create_issue(&issue) {
            Ok(()) => {
                proof {
                    assert(!has_issue_id(old(self).view(), issue.id));
                    assert(exists|i: int|
                        0 <= i <= old(self).view().len() && self.repository.view() == old(
                            self,
                        ).view().insert(i, issue));
                }
                Ok(issue)
            },
            Err(e) => Err(e),
        }
    }

    /// Fetches an issue by id; NotFound when no row carries it.
    pub fn get_issue(&self, issue_id: u128) -> (r: Result<Issue, DomainError>)
        requires
            self.wf(),
        ensures
            r matches Ok(u) ==> self.view().contains(u) && u.id == issue_id,
            r matches Err(DomainError::NotFound(_)) ==> !has_issue_id(self.view(), issue_id),
            !has_issue_id(self.view(), issue_id) ==> (r matches Err(DomainError::NotFound(_))
                || r matches Err(DomainError::Infra(_))),
            r matches Err(e) ==> (e matches DomainError::NotFound(_) || e matches
                DomainError::Infra(_)),
    {
        match self.repository.get_issue_by_id(issue_id) {
            Err(e) => Err(e),
            Ok(None) => Err(DomainError::NotFound("Issue not found".to_owned())),
            Ok(Some(issue)) => Ok(issue),
        }
    }

    /// The issues of one project, newest first.
    pub fn get_issues_by_project(&self, project_id: u128) -> (r: Result<Vec<Issue>, DomainError>)
        requires
            self.wf(),
        ensures
            r matches Ok(l) ==> l@ == issues_for_project(self.view(), project_id) && issues_sorted(
                l@,
            ),
            r matches Err(e) ==> e matches DomainError::Infra(_),
    {
        proof {
            self.repository.wf_properties();
            lemma_issues_for_project_sorted(self.repository.view(), project_id);
        }
        self.repository.get_issues_by_project(project_id)
    }

    /// Read-then-merge update. A present-but-empty title is treated as
    /// absent; a present description, bounty or status replaces the current
    /// one. The update stamp advances even when no field changed.
    pub fn update_issue(
        &mut self,
        issue_id: u128,
        new_title: Option<String>,
        new_description: Option<String>,
        new_bounty_value_bits: Option<u64>,
        new_status: Option<IssueStatus>,
        now: u64,
    ) -> (r: Result<Issue, DomainError>)
        requires
            old(self).wf(),
        ensures
            final(self).wf(),
            !(r is Ok) ==> final(self).view() == old(self).view(),
            r matches Err(DomainError::NotFound(_)) ==> !has_issue_id(old(self).view(), issue_id),
            !has_issue_id(old(self).view(), issue_id) ==> (r matches Err(DomainError::NotFound(_))
                || r matches Err(DomainError::Infra(_))),
            r matches Ok(u) ==> u.id == issue_id && u.updated_at == Some(now) && (exists|j: int|
                0 <= j < old(self).view().len() && old(self).view()[j].id == issue_id
                    && u.project_id == old(self).view()[j].project_id && u.created_at == old(
                    self,
                ).view()[j].created_at && u.title@ == merged_field(
                    old(self).view()[j].title@,
                    new_title,
                ) && u.description == (match new_description {
                    Some(d) => Some(d),
                    None => old(self).view()[j].description,
                }) && u.bounty_value_bits == (match new_bounty_value_bits {
                    Some(b) => b,
                    None => old(self).view()[j].bounty_value_bits,
                }) && u.status == (match new_status {
                    Some(st) => st,
                    None => old(self).view()[j].status,
                })) && final(self).view() == issues_replace(old(self).view(), u),
            r matches Err(e) ==> (e matches DomainError::NotFound(_) || e matches
                DomainError::Infra(_)),
    {
        let mut issue = match self.repository.get_issue_by_id(issue_id) {
            Err(e) => {
                return Err(e);
            },
            Ok(None) => {
                return Err(DomainError::NotFound("Issue not found".to_owned()));
            },
            Ok(Some(u)) => u,
        };
        let ghost fetched = issue;
        match new_title {
            Some(t) => {
                if !t.as_str().is_empty() {
                    issue.title = t;
                }
            },
            None => {},
        }
        match new_description {
            Some(d) => {
                issue.description = Some(d);
            },
            None => {},
        }
        match new_bounty_value_bits {
            Some(b) => {
                issue.bounty_value_bits = b;
            },
            None => {},
        }
        match new_status {
            Some(st) => {
                issue.status = st;
            },
            None => {},
        }
        issue.updated_at = Some(now);
        proof {
            self.repository.wf_properties();
            let v = self.repository.view();
            let j = choose|j: int| 0 <= j < v.len() && v[j] == fetched;
            assert forall|i: int|
                0 <= i < v.len() && v[i].id == issue.id implies v[i].created_at
                == issue.created_at by {
                if i != j {
                    assert(v[i].id != v[j].id);
                }
            }
        }
        match self.repository.update_issue(&issue) {
            Ok(()) => {
                proof {
                    let v = old(self).view();
                    let j = choose|j: int| 0 <= j < v.len() && v[j] == fetched;
                    assert(v[j].id == issue_id);
                    assert(issue.project_id == v[j].project_id);
                    assert(issue.created_at == v[j].created_at);
                    assert(issue.title@ == merged_field(v[j].title@, new_title));
                }
                Ok(issue)
            },
            Err(e) => Err(e),
        }
    }

    /// Writes an issue's status directly, without the merge path and without
    /// validating the transition: any status may follow any other. The
    /// update stamp is untouched.
    pub fn update_issue_status(&mut self, issue_id: u128, status: IssueStatus) -> (r: Result<
        (),
        DomainError,
    >)
        requires
            old(self).wf(),
        ensures
            final(self).wf(),
            r matches Ok(()) ==> final(self).view() == issues_set_status(
                old(self).view(),
                issue_id,
                status,
            ),
            r matches Err(e) ==> final(self).view() == old(self).view() && e matches
                DomainError::Infra(_),
    {
        self.repository.update_issue_status(issue_id, status)
    }

    /// Removes an issue. Removing an absent id succeeds: delete is
    /// idempotent from the caller's point of view, never NotFound.
    pub fn delete_issue(&mut self, issue_id: u128) -> (r: Result<(), DomainError>)
        requires
            old(self).wf(),
        ensures
            final(self).wf(),
            r matches Ok(()) ==> final(self).view() == issues_without(old(self).view(), issue_id),
            r matches Err(e) ==> final(self).view() == old(self).view() && e matches
                DomainError::Infra(_),
    {
        self.repository.delete_issue(issue_id)
    }

    /// All issues, ordered by creation time, newest first.
    pub fn list_issues(&self) -> (r: Result<Vec<Issue>, DomainError>)
        requires
            self.wf(),
        ensures
            r matches Ok(l) ==> l@ == self.view() && issues_sorted(l@),
            r matches Err(e) ==> e matches DomainError::Infra(_),
    {
        proof {
            self.repository.wf_properties();
        }
        self.repository.list_issues()
    }
}

} // verus!
