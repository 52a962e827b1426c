//! The Project entity, its persistence interface, a verified in-memory
//! store, and the project usecases.

use vstd::prelude::*;
use crate::domain_error::DomainError;
use crate::ids::fresh_id;
use crate::strutil::{clone_opt_string, merged_field};

verus! {

/// A project owned by a user. The owner is referenced by id only; this layer
/// does not enforce that it exists. Tags are an ordered sequence; duplicates
/// are permitted.
#[derive(Debug)]
pub struct Project {
    pub id: u128,
    pub owner_id: u128,
    pub name: String,
    pub description: Option<String>,
    pub github_link: Option<String>,
    pub tags: Vec<String>,
    pub created_at: u64,
    pub updated_at: Option<u64>,
}

/// The mathematical value of a Project: every text field as a sequence of
/// characters, the tags as a sequence of those.
pub ghost struct ProjectView {
    pub id: u128,
    pub owner_id: u128,
    pub name: Seq<char>,
    pub description: Option<Seq<char>>,
    pub github_link: Option<Seq<char>>,
    pub tags: Seq<Seq<char>>,
    pub created_at: u64,
    pub updated_at: Option<u64>,
}

impl View for Project {
    type V = ProjectView;

    open spec fn view(&self) -> ProjectView {
        ProjectView {
            id: self.id,
            owner_id: self.owner_id,
            name: self.name@,
            description: match self.description {
                Some(d) => Some(d@),
                None => None,
            },
            github_link: match self.github_link {
                Some(g) => Some(g@),
                None => None,
            },
            tags: self.tags.deep_view(),
            created_at: self.created_at,
            updated_at: self.updated_at,
        }
    }
}

impl DeepView for Project {
    type V = ProjectView;

    open spec fn deep_view(&self) -> ProjectView {
        self.view()
    }
}

impl Clone for Project {
    fn clone(&self) -> (res: Self)
        ensures
            res@ == self@,
    {
        let tags = self.tags.clone();
        proof {
            assert(tags.deep_view() =~= self.tags.deep_view());
        }
        let res = Project {
            id: self.id,
            owner_id: self.owner_id,
            name: self.name.clone(),
            description: clone_opt_string(&self.description),
            github_link: clone_opt_string(&self.github_link),
            tags,
            created_at: self.created_at,
            updated_at: self.updated_at,
        };
        res
    }
}

/// The rows are ordered by creation time, newest first.
pub open spec fn projects_sorted(s: Seq<ProjectView>) -> bool {
    forall|i: int, j: int| 0 <= i < j < s.len() ==> s[i].created_at >= s[j].created_at
}

/// No two rows share an id.
pub open spec fn projects_distinct_ids(s: Seq<ProjectView>) -> bool {
    forall|i: int, j: int| 0 <= i < j < s.len() ==> s[i].id != s[j].id
}

/// Some row carries this id.
pub open spec fn has_project_id(s: Seq<ProjectView>, id: u128) -> bool {
    exists|i: int| 0 <= i < s.len() && s[i].id == id
}

/// Every row whose id matches `p.id`, replaced by `p`; the rest unchanged.
pub open spec fn projects_replace(s: Seq<ProjectView>, p: ProjectView) -> Seq<ProjectView> {
    Seq::new(s.len(), |i: int| if s[i].id == p.id { p } else { s[i] })
}

/// The rows whose id differs from `id`, in their original order.
pub open spec fn projects_without(s: Seq<ProjectView>, id: u128) -> Seq<ProjectView>
    decreases s.len(),
{
    if s.len() == 0 {
        Seq::empty()
    } else {
        let rest = projects_without(s.drop_last(), id);
        if s.last().id == id {
            rest
        } else {
            rest.push(s.last())
        }
    }
}

/// The rows owned by `owner`, in their original order.
pub open spec fn projects_owned_by(s: Seq<ProjectView>, owner: u128) -> Seq<ProjectView>
    decreases s.len(),
{
    if s.len() == 0 {
        Seq::empty()
    } else {
        let rest = projects_owned_by(s.drop_last(), owner);
        if s.last().owner_id == owner {
            rest.push(s.last())
        } else {
            rest
        }
    }
}

proof fn lemma_projects_without_absent(s: Seq<ProjectView>, id: u128)
    requires
        forall|i: int| 0 <= i < s.len() ==> s[i].id != id,
    ensures
        projects_without(s, id) == s,
    decreases s.len(),
{
    if s.len() > 0 {
        lemma_projects_without_absent(s.drop_last(), id);
        assert(projects_without(s, id) =~= s);
    } else {
        assert(projects_without(s, id) =~= s);
    }
}

proof fn lemma_projects_without_found(s: Seq<ProjectView>, id: u128, j: int)
    requires
        0 <= j < s.len(),
        s[j].id == id,
        forall|i: int| 0 <= i < s.len() && i != j ==> s[i].id != id,
    ensures
        projects_without(s, id) == s.remove(j),
    decreases s.len(),
{
    if j == s.len() - 1 {
        lemma_projects_without_absent(s.drop_last(), id);
        assert(projects_without(s, id) =~= s.remove(j));
    } else {
        lemma_projects_without_found(s.drop_last(), id, j);
        assert(projects_without(s, id) =~= s.remove(j));
    }
}

/// Every row selected by ownership carries that owner and stands in the
/// original rows.
proof fn lemma_projects_owned_by_contains(s: Seq<ProjectView>, owner: u128)
    ensures
        forall|i: int|
            #![trigger projects_owned_by(s, owner)[i]]
            0 <= i < projects_owned_by(s, owner).len() ==> projects_owned_by(s, owner)[i].owner_id
                == owner && s.contains(projects_owned_by(s, owner)[i]),
    decreases s.len(),
{
    if s.len() > 0 {
        lemma_projects_owned_by_contains(s.drop_last(), owner);
        assert forall|i: int|
            #![trigger projects_owned_by(s, owner)[i]]
            0 <= i < projects_owned_by(s, owner).len() implies projects_owned_by(
            s,
            owner,
        )[i].owner_id == owner && s.contains(projects_owned_by(s, owner)[i]) by {
            let sel = projects_owned_by(s, owner);
            let rest = projects_owned_by(s.drop_last(), owner);
            if i < rest.len() {
                let e = rest[i];
                assert(s.drop_last().contains(e));
                let j = choose|j: int| 0 <= j < s.drop_last().len() && s.drop_last()[j] == e;
                assert(s[j] == e);
            } else {
                assert(sel[i] == s.last());
                assert(s[s.len() - 1] == s.last());
            }
        }
    }
}

/// Selecting by owner keeps the newest-first order.
proof fn lemma_projects_owned_by_sorted(s: Seq<ProjectView>, owner: u128)
    requires
        projects_sorted(s),
    ensures
        projects_sorted(projects_owned_by(s, owner)),
    decreases s.len(),
{
    if s.len() > 0 {
        assert(projects_sorted(s.drop_last()));
        lemma_projects_owned_by_sorted(s.drop_last(), owner);
        lemma_projects_owned_by_contains(s.drop_last(), owner);
        let sel = projects_owned_by(s, owner);
        let rest = projects_owned_by(s.drop_last(), owner);
        assert forall|i: int, j: int|
            0 <= i < j < sel.len() implies sel[i].created_at >= sel[j].created_at by {
            if j < rest.len() {
            } else {
                assert(sel[j] == s.last());
                let e = rest[i];
                assert(s.drop_last().contains(e));
                let m = choose|m: int| 0 <= m < s.drop_last().len() && s.drop_last()[m] == e;
                assert(s[m] == e);
                assert(s[m].created_at >= s[s.len() - 1].created_at);
            }
        }
    }
}

/// The persistence interface for projects. The abstract state is the
/// sequence of stored rows, as mathematical values, newest first.
pub trait ProjectRepository: Sized {
    /// The stored rows, newest first.
    spec fn view(&self) -> Seq<ProjectView>;

    /// The store's own well-formedness.
    spec fn wf(&self) -> bool;

    /// A well-formed store is ordered newest-first and holds no two rows
    /// with one id.
    proof fn wf_properties(&self)
        requires
            self.wf(),
        ensures
            projects_sorted(self.view()),
            projects_distinct_ids(self.view()),
    ;

    /// Stores a new row; failures are infrastructural and write nothing.
    fn create_project(&mut self, project: &Project) -> (r: Result<(), DomainError>)
        requires
            old(self).wf(),
        ensures
            final(self).wf(),
            r matches Ok(()) ==> !has_project_id(old(self).view(), project.id) && (exists|i: int|
                0 <= i <= old(self).view().len() && final(self).view() == old(
                    self,
                ).view().insert(i, project@)),
            r matches Err(e) ==> final(self).view() == old(self).view() && e matches
                DomainError::Infra(_),
    ;

    /// Looks a row up by id.
    fn get_project_by_id(&self, project_id: u128) -> (r: Result<Option<Project>, DomainError>)
        requires
            self.wf(),
        ensures
            r matches Ok(Some(p)) ==> self.view().contains(p@) && p.id == project_id,
            r matches Ok(None) ==> !has_project_id(self.view(), project_id),
            r matches Err(e) ==> e matches DomainError::Infra(_),
    ;

    /// The rows owned by one user, newest first.
    fn get_projects_by_owner(&self, owner_id: u128) -> (r: Result<Vec<Project>, DomainError>)
        requires
            self.wf(),
        ensures
            r matches Ok(l) ==> l.deep_view() =~= projects_owned_by(self.view(), owner_id),
            r matches Err(e) ==> e matches DomainError::Infra(_),
    ;

    /// Overwrites the rows whose id matches `project.id`; the caller keeps
    /// the creation time of the row it overwrites.
    fn update_project(&mut self, project: &Project) -> (r: Result<(), DomainError>)
        requires
            old(self).wf(),
            forall|i: int|
                0 <= i < old(self).view().len() && old(self).view()[i].id == project.id ==> old(
                    self,
                ).view()[i].created_at == project.created_at,
        ensures
            final(self).wf(),
            r matches Ok(()) ==> final(self).view() == projects_replace(
                old(self).view(),
                project@,
            ),
            r matches Err(e) ==> final(self).view() == old(self).view() && e matches
                DomainError::Infra(_),
    ;

    /// Removes the rows whose id matches; removing an absent id succeeds.
    fn delete_project(&mut self, project_id: u128) -> (r: Result<(), DomainError>)
        requires
            old(self).wf(),
        ensures
            final(self).wf(),
            r matches Ok(()) ==> final(self).view() == projects_without(
                old(self).view(),
                project_id,
            ),
            r matches Err(e) ==> final(self).view() == old(self).view() && e matches
                DomainError::Infra(_),
    ;

    /// All rows, newest first.
    fn list_projects(&self) -> (r: Result<Vec<Project>, DomainError>)
        requires
            self.wf(),
        ensures
            r matches Ok(l) ==> l.deep_view() =~= self.view(),
            r matches Err(e) ==> e matches DomainError::Infra(_),
    ;
}

/// An in-memory project store, kept sorted by creation time, newest first.
pub struct InMemoryProjectRepository {
    projects: Vec<Project>,
}

impl InMemoryProjectRepository {
    /// An empty store.
    pub fn new() -> (r: Self)
        ensures
            r.wf(),
            r.view() == Seq::<ProjectView>::empty(),
    {
        let r = InMemoryProjectRepository { projects: Vec::new() };
        proof {
            assert(r.view() =~= Seq::<ProjectView>::empty());
        }
        r
    }
}

impl ProjectRepository for InMemoryProjectRepository {
    closed spec fn view(&self) -> Seq<ProjectView> {
        Seq::new(self.projects@.len(), |i: int| self.projects@[i]@)
    }

    closed spec fn wf(&self) -> bool {
        projects_sorted(self.view()) && projects_distinct_ids(self.view())
    }

    proof fn wf_properties(&self) {
    }

    #[verifier::loop_isolation(false)]
    fn create_project(&mut self, project: &Project) -> (r: Result<(), DomainError>) {
        let ghost sv = self.view();
        let n = self.projects.len();
        let mut k: usize = 0;
        while k < n
            invariant
                n == self.projects.len(),
                self.view() == sv,
                0 <= k <= n,
                forall|i: int| 0 <= i < k ==> sv[i].id != project.id,
            decreases n - k,
        {
            if self.projects[k].id == project.id {
                return Err(DomainError::Infra("duplicate project id".to_owned()));
            }
            k += 1;
        }
        let mut pos: usize = 0;
        while pos < n && self.projects[pos].created_at > project.created_at
            invariant
                n == self.projects.len(),
                self.view() == sv,
                0 <= pos <= n,
                forall|i: int| 0 <= i < pos ==> sv[i].created_at > project.created_at,
            decreases n - pos,
        {
            pos += 1;
        }
        let c = project.clone();
        self.projects.insert(pos, c);
        proof {
            sv.insert_ensures(pos as int, project@);
            let t = self.view();
            assert(t =~= sv.insert(pos as int, project@));
            assert forall|i: int, j: int|
                0 <= i < j < t.len() implies t[i].created_at >= t[j].created_at by {
                if pos < sv.len() {
                    assert(sv[pos as int].created_at <= project.created_at);
                }
            }
            assert forall|i: int, j: int| 0 <= i < j < t.len() implies t[i].id != t[j].id by {}
            assert(!has_project_id(sv, project.id)) by {
                assert(forall|i: int| 0 <= i < sv.len() ==> sv[i].id != project.id);
            }
            assert(exists|i: int| 0 <= i <= sv.len() && t == sv.insert(i, project@)) by {
                assert(0 <= pos as int <= sv.len());
                assert(t == sv.insert(pos as int, project@));
            }
        }
        Ok(())
    }

    #[verifier::loop_isolation(false)]
    fn get_project_by_id(&self, project_id: u128) -> (r: Result<Option<Project>, DomainError>) {
        let n = self.projects.len();
        let mut k: usize = 0;
        while k < n
            invariant
                n == self.projects.len(),
                0 <= k <= n,
                forall|i: int| 0 <= i < k ==> self.view()[i].id != project_id,
            decreases n - k,
        {
            if self.projects[k].id == project_id {
                let p = self.projects[k].clone();
                proof {
                    assert(self.view().contains(p@)) by {
                        assert(self.view()[k as int] == p@);
                    }
                }
                return Ok(Some(p));
            }
            k += 1;
        }
        Ok(None)
    }

    #[verifier::loop_isolation(false)]
    fn get_projects_by_owner(&self, owner_id: u128) -> (r: Result<Vec<Project>, DomainError>) {
        let ghost sv = self.view();
        let n = self.projects.len();
        let mut out: Vec<Project> = Vec::new();
        let mut k: usize = 0;
        while k < n
            invariant
                n == self.projects.len(),
                self.view() == sv,
                0 <= k <= n,
                out.deep_view() =~= projects_owned_by(sv.take(k as int), owner_id),
            decreases n - k,
        {
            if self.projects[k].owner_id == owner_id {
                out.push(self.projects[k].clone());
            }
            proof {
                let tk1 = sv.take(k as int + 1);
                assert(tk1.drop_last() =~= sv.take(k as int));
                assert(tk1.last() == sv[k as int]);
                assert(out.deep_view() =~= projects_owned_by(sv.take(k as int + 1), owner_id));
            }
            k += 1;
        }
        proof {
            assert(sv.take(n as int) =~= sv);
        }
        Ok(out)
    }

    #[verifier::loop_isolation(false)]
    fn update_project(&mut self, project: &Project) -> (r: Result<(), DomainError>) {
        let ghost sv = self.view();
        let n = self.projects.len();
        let mut k: usize = 0;
        while k < n
            invariant
                n == self.projects.len(),
                self.view() == sv,
                0 <= k <= n,
                forall|i: int| 0 <= i < k ==> sv[i].id != project.id,
            decreases n - k,
        {
            if self.projects[k].id == project.id {
                let c = project.clone();
                let ghost gc = c;
                self.projects.remove(k);
                self.projects.insert(k, c);
                proof {
                    let t = self.view();
                    let se = old(self).projects@;
                    let s1 = se.remove(k as int);
                    se.remove_ensures(k as int);
                    s1.insert_ensures(k as int, gc);
                    assert(forall|i: int|
                        0 <= i < t.len() ==> t[i] == (if i == k as int {
                            project@
                        } else {
                            sv[i]
                        }));
                    assert forall|i: int|
                        0 <= i < t.len() implies t[i] == projects_replace(sv, project@)[i] by {
                        if i != k as int && sv[i].id == project@.id {
                            if i < k as int {
                                assert(sv[i].id != sv[k as int].id);
                            } else {
                                assert(sv[k as int].id != sv[i].id);
                            }
                        }
                    }
                    assert(t =~= projects_replace(sv, project@));
                    assert forall|i: int|
                        0 <= i < t.len() implies t[i].created_at == sv[i].created_at && t[i].id
                        == sv[i].id by {
                        if sv[i].id == project.id {
                            assert(sv[i].created_at == project.created_at);
                        }
                    }
                    assert(projects_sorted(t));
                    assert(projects_distinct_ids(t));
                }
                return Ok(());
            }
            k += 1;
        }
        proof {
            assert(self.view() =~= projects_replace(sv, project@));
        }
        Ok(())
    }

    #[verifier::loop_isolation(false)]
    fn delete_project(&mut self, project_id: u128) -> (r: Result<(), DomainError>) {
        let ghost sv = self.view();
        let n = self.projects.len();
        let mut k: usize = 0;
        while k < n
            invariant
                n == self.projects.len(),
                self.view() == sv,
                0 <= k <= n,
                forall|i: int| 0 <= i < k ==> sv[i].id != project_id,
            decreases n - k,
        {
            if self.projects[k].id == project_id {
                self.projects.remove(k);
                proof {
                    assert(self.view() =~= sv.remove(k as int));
                    assert forall|i: int|
                        0 <= i < sv.len() && i != k as int implies sv[i].id != project_id by {
                        if i < k as int {
                            assert(sv[i].id != sv[k as int].id);
                        } else {
                            assert(sv[k as int].id != sv[i].id);
                        }
                    }
                    lemma_projects_without_found(sv, project_id, k as int);
                }
                return Ok(());
            }
            k += 1;
        }
        proof {
            lemma_projects_without_absent(sv, project_id);
        }
        Ok(())
    }

    #[verifier::loop_isolation(false)]
    fn list_projects(&self) -> (r: Result<Vec<Project>, DomainError>) {
        let n = self.projects.len();
        let mut out: Vec<Project> = Vec::new();
        let mut k: usize = 0;
        while k < n
            invariant
                n == self.projects.len(),
                0 <= k <= n,
                out.deep_view() =~= self.view().take(k as int),
            decreases n - k,
        {
            out.push(self.projects[k].clone());
            proof {
                assert(out.deep_view() =~= self.view().take(k as int + 1));
            }
            k += 1;
        }
        proof {
            assert(out.deep_view() =~= self.view());
        }
        Ok(out)
    }
}

/// The project usecases, over any persistence interface.
pub struct ProjectUsecases<R: ProjectRepository> {
    repository: R,
}

impl<R: ProjectRepository> ProjectUsecases<R> {
    /// The stored rows, as the persistence interface exposes them.
    pub closed spec fn view(&self) -> Seq<ProjectView> {
        self.repository.view()
    }

    /// Whether the underlying store is well formed.
    pub closed spec fn wf(&self) -> bool {
        self.repository.wf()
    }

    /// Wraps a persistence interface.
    pub fn new(repository: R) -> (r: Self)
        ensures
            r.view() == repository.view(),
            r.wf() == repository.wf(),
    {
        ProjectUsecases { repository }
    }

    /// Creates a project: the name is required, everything else is taken as
    /// given, tags in their given order. A rejected creation writes nothing.
    pub fn create_project(
        &mut self,
        owner_id: u128,
        name: String,
        description: Option<String>,
        github_link: Option<String>,
        tags: Vec<String>,
        now: u64,
    ) -> (r: Result<Project, DomainError>)
        requires
            old(self).wf(),
        ensures
            final(self).wf(),
            !(r is Ok) ==> final(self).view() == old(self).view(),
            name@.len() == 0 ==> r matches Err(DomainError::InvalidData(_)),
            r matches Err(DomainError::InvalidData(m)) ==> name@.len() == 0 && m@
                == "Project name cannot be empty"@,
            r matches Ok(p) ==> name@.len() > 0 && p.owner_id == owner_id && p.name == name
                && p.description == description && p.github_link == github_link && p.tags == tags
                && p.created_at == now && p.updated_at is None && !has_project_id(
                old(self).view(),
                p.id,
            ) && (exists|i: int|
                0 <= i <= old(self).view().len() && final(self).view() == old(self).view().insert(
                    i,
                    p@,
                )),
            r matches Err(e) ==> (e matches DomainError::InvalidData(_) || e matches
                DomainError::Infra(_)),
    {
        if name.as_str().is_empty() {
            return Err(DomainError::InvalidData("Project name cannot be empty".to_owned()));
        }
        let project = Project {
            id: fresh_id(),
            owner_id,
            name,
            description,
            github_link,
            tags,
            created_at: now,
            updated_at: None,
        };
        match self.repository.create_project(&project) {
            Ok(()) => {
                proof {
                    assert(!has_project_id(old(self).view(), project.id));
                    assert(exists|i: int|
                        0 <= i <= old(self).view().len() && self.repository.view() == old(
                            self,
                        ).view().insert(i, project@));
                }
                Ok(project)
            },
            Err(e) => Err(e),
        }
    }

    /// Fetches a project by id; NotFound when no row carries it.
    pub fn get_project(&self, project_id: u128) -> (r: Result<Project, DomainError>)
        requires
            self.wf(),
        ensures
            r matches Ok(p) ==> self.view().contains(p@) && p.id == project_id,
            r matches Err(DomainError::NotFound(_)) ==> !has_project_id(self.view(), project_id),
            !has_project_id(self.view(), project_id) ==> (r matches Err(DomainError::NotFound(_))
                || r matches Err(DomainError::Infra(_))),
            r matches Err(e) ==> (e matches DomainError::NotFound(_) || e matches
                DomainError::Infra(_)),
    {
        match self.repository.get_project_by_id(project_id) {
            Err(e) => Err(e),
            Ok(None) => Err(DomainError::NotFound("Project not found".to_owned())),
            Ok(Some(project)) => Ok(project),
        }
    }

    /// The projects of one owner, newest first.
    pub fn get_projects_by_owner(&self, owner_id: u128) -> (r: Result<Vec<Project>, DomainError>)
        requires
            self.wf(),
        ensures
            r matches Ok(l) ==> l.deep_view() == projects_owned_by(self.view(), owner_id)
                && projects_sorted(l.deep_view()),
            r matches Err(e) ==> e matches DomainError::Infra(_),
    {
        proof {
            self.repository.wf_properties();
            lemma_projects_owned_by_sorted(self.repository.view(), owner_id);
        }
        self.repository.get_projects_by_owner(owner_id)
    }

    /// Read-then-merge update. A present-but-empty name is treated as
    /// absent; a present description, link or tag list replaces the current
    /// one. The update stamp advances even when no field changed.
    pub fn update_project(
        &mut self,
        project_id: u128,
        new_name: Option<String>,
        new_description: Option<String>,
        new_github_link: Option<String>,
        new_tags: Option<Vec<String>>,
        now: u64,
    ) -> (r: Result<Project, DomainError>)
        requires
            old(self).wf(),
        ensures
            final(self).wf(),
            !(r is Ok) ==> final(self).view() == old(self).view(),
            r matches Err(DomainError::NotFound(_)) ==> !has_project_id(
                old(self).view(),
                project_id,
            ),
            !has_project_id(old(self).view(), project_id) ==> (r matches Err(
                DomainError::NotFound(_),
            ) || r matches Err(DomainError::Infra(_))),
            r matches Ok(p) ==> p.id == project_id && p.updated_at == Some(now) && (exists|j: int|
                0 <= j < old(self).view().len() && old(self).view()[j].id == project_id
                    && p.owner_id == old(self).view()[j].owner_id && p.created_at == old(
                    self,
                ).view()[j].created_at && p@.name == merged_field(
                    old(self).view()[j].name,
                    new_name,
                ) && p@.description == (match new_description {
                    Some(d) => Some(d@),
                    None => old(self).view()[j].description,
                }) && p@.github_link == (match new_github_link {
                    Some(g) => Some(g@),
                    None => old(self).view()[j].github_link,
                }) && p@.tags == (match new_tags {
                    Some(t) => t.deep_view(),
                    None => old(self).view()[j].tags,
                })) && final(self).view() == projects_replace(old(self).view(), p@),
            r matches Err(e) ==> (e matches DomainError::NotFound(_) || e matches
                DomainError::Infra(_)),
    {
        let mut project = match self.repository.get_project_by_id(project_id) {
            Err(e) => {
                return Err(e);
            },
            Ok(None) => {
                return Err(DomainError::NotFound("Project not found".to_owned()));
            },
            Ok(Some(p)) => p,
        };
        let ghost fetched = project@;
        match new_name {
            Some(nm) => {
                if !nm.as_str().is_empty() {
                    project.name = nm;
                }
            },
            None => {},
        }
        match new_description {
            Some(d) => {
                project.description = Some(d);
            },
            None => {},
        }
        match new_github_link {
            Some(g) => {
                project.github_link = Some(g);
            },
            None => {},
        }
        match new_tags {
            Some(t) => {
                project.tags = t;
            },
            None => {},
        }
        project.updated_at = Some(now);
        proof {
            self.repository.wf_properties();
            let v = self.repository.view();
            let j = choose|j: int| 0 <= j < v.len() && v[j] == fetched;
            assert forall|i: int|
                0 <= i < v.len() && v[i].id == project.id implies v[i].created_at
                == project.created_at by {
                if i != j {
                    assert(v[i].id != v[j].id);
                }
            }
        }
        match self.repository.update_project(&project) {
            Ok(()) => {
                proof {
                    let v = old(self).view();
                    let j = choose|j: int| 0 <= j < v.len() && v[j] == fetched;
                    assert(v[j].id == project_id);
                    assert(project.owner_id == v[j].owner_id);
                    assert(project.created_at == v[j].created_at);
                    assert(project@.name == merged_field(v[j].name, new_name));
                }
                Ok(project)
            },
            Err(e) => Err(e),
        }
    }

    /// Removes a project. Removing an absent id succeeds: delete is
    /// idempotent from the caller's point of view, never NotFound.
    pub fn delete_project(&mut self, project_id: u128) -> (r: Result<(), DomainError>)
        requires
            old(self).wf(),
        ensures
            final(self).wf(),
            r matches Ok(()) ==> final(self).view() == projects_without(
                old(self).view(),
                project_id,
            ),
            r matches Err(e) ==> final(self).view() == old(self).view() && e matches
                DomainError::Infra(_),
    {
        self.repository.delete_project(project_id)
    }

    /// All projects, ordered by creation time, newest first.
    pub fn list_projects(&self) -> (r: Result<Vec<Project>, DomainError>)
        requires
            self.wf(),
        ensures
            r matches Ok(l) ==> l.deep_view() == self.view() && projects_sorted(l.deep_view()),
            r matches Err(e) ==> e matches DomainError::Infra(_),
    {
        proof {
            self.repository.wf_properties();
        }
        self.repository.list_projects()
    }
}

} // verus!
