//! A project: a directory with a `.podo.yaml` file that names profiles, each with the
//! database to connect to, the directories of the history and of the definitions, and the
//! schema that holds the history in the database.
use vstd::prelude::*;
use crate::path::{join_path, joined};
use crate::text::str_eq;
use crate::util::expand::{expand, env_view, expand_envvar};
#[allow(unused_imports)]
use vstd::view::View as ViewTrait;

verus! {

/// The file that marks the directory of a project.
pub const CONFIG_FILE: &'static str = ".podo.yaml";

/// The profile used when none is named.
pub const DEFAULT_PROFILE: &'static str = "database";

pub struct Profile {
    name: String,
    database_url: String,
    history: String,
    definitions: String,
    metadata_schema: String,
}

pub ghost struct ProfileView {
    pub name: Seq<char>,
    pub database_url: Seq<char>,
    pub history: Seq<char>,
    pub definitions: Seq<char>,
    pub metadata_schema: Seq<char>,
}

impl vstd::view::View for Profile {
    type V = ProfileView;

    closed spec fn view(&self) -> ProfileView {
        ProfileView {
            name: self.name@,
            database_url: self.database_url@,
            history: self.history@,
            definitions: self.definitions@,
            metadata_schema: self.metadata_schema@,
        }
    }
}

pub struct Project {
    base_dir: String,
    profiles: Vec<Profile>,
}

pub ghost struct ProjectView {
    pub base_dir: Seq<char>,
    pub profiles: Seq<ProfileView>,
}

impl vstd::view::View for Project {
    type V = ProjectView;

    closed spec fn view(&self) -> ProjectView {
        ProjectView { base_dir: self.base_dir@, profiles: self.profiles@.map_values(|p: Profile| p@) }
    }
}

/// The profiles of a project file, each under its name.
pub struct YAMLProject {
    pub profiles: Vec<(String, YAMLProjectProfile)>,
}

pub struct YAMLProjectProfile {
    pub database_url: String,
    pub history: String,
    pub definitions: String,
    pub metadata_schema: String,
}

pub ghost struct YAMLProjectProfileView {
    pub database_url: Seq<char>,
    pub history: Seq<char>,
    pub definitions: Seq<char>,
    pub metadata_schema: Seq<char>,
}

impl vstd::view::View for YAMLProjectProfile {
    type V = YAMLProjectProfileView;

    open spec fn view(&self) -> YAMLProjectProfileView {
        YAMLProjectProfileView {
            database_url: self.database_url@,
            history: self.history@,
            definitions: self.definitions@,
            metadata_schema: self.metadata_schema@,
        }
    }
}

impl vstd::view::View for YAMLProject {
    type V = Seq<(Seq<char>, YAMLProjectProfileView)>;

    open spec fn view(&self) -> Seq<(Seq<char>, YAMLProjectProfileView)> {
        self.profiles@.map_values(|p: (String, YAMLProjectProfile)| (p.0@, p.1@))
    }
}

/// What refuses a request on a project.
#[derive(Debug, PartialEq)]
pub enum ProjectError {
    ProjectNotFound { current_dir: String },
    ProfileNotFound { profile_name: String },
}

pub ghost enum ProjectErrorView {
    ProjectNotFound { current_dir: Seq<char> },
    ProfileNotFound { profile_name: Seq<char> },
}

impl vstd::view::View for ProjectError {
    type V = ProjectErrorView;

    open spec fn view(&self) -> ProjectErrorView {
        match self {
            ProjectError::ProjectNotFound { current_dir } => ProjectErrorView::ProjectNotFound { current_dir: current_dir@ },
            ProjectError::ProfileNotFound { profile_name } => ProjectErrorView::ProfileNotFound {
                profile_name: profile_name@,
            },
        }
    }
}

pub open spec fn project_message(e: ProjectErrorView) -> Seq<char> {
    match e {
        ProjectErrorView::ProjectNotFound { current_dir } => "project not found in directory tree: "@ + current_dir,
        ProjectErrorView::ProfileNotFound { profile_name } => "profile not found: "@ + profile_name,
    }
}

impl ProjectError {
    pub fn message(&self) -> (r: String)
        ensures
            r@ == project_message(self@),
    {
        match self {
            ProjectError::ProjectNotFound { current_dir } => {
                let mut s = "project not found in directory tree: ".to_owned();
                s.append(current_dir.as_str());
                s
            },
            ProjectError::ProfileNotFound { profile_name } => {
                let mut s = "profile not found: ".to_owned();
                s.append(profile_name.as_str());
                s
            },
        }
    }
}

/// The first profile of the given name.
pub open spec fn find_profile(ps: Seq<ProfileView>, name: Seq<char>) -> Option<ProfileView>
    decreases ps.len(),
{
    if ps.len() == 0 {
        None
    } else if ps[0].name == name {
        Some(ps[0])
    } else {
        find_profile(ps.subrange(1, ps.len() as int), name)
    }
}

/// A field of the profile of the given name, or the error for a name no profile has.
pub open spec fn resolved(p: ProjectView, name: Seq<char>, field: spec_fn(ProfileView) -> Seq<char>) -> Result<Seq<char>, ProjectErrorView> {
    match find_profile(p.profiles, name) {
        Some(profile) => Ok(field(profile)),
        None => Err(ProjectErrorView::ProfileNotFound { profile_name: name }),
    }
}

pub open spec fn database_url_of() -> spec_fn(ProfileView) -> Seq<char> {
    |p: ProfileView| p.database_url
}

pub open spec fn history_of() -> spec_fn(ProfileView) -> Seq<char> {
    |p: ProfileView| p.history
}

pub open spec fn definitions_of() -> spec_fn(ProfileView) -> Seq<char> {
    |p: ProfileView| p.definitions
}

pub open spec fn metadata_schema_of() -> spec_fn(ProfileView) -> Seq<char> {
    |p: ProfileView| p.metadata_schema
}

pub open spec fn result_of(r: Result<String, ProjectError>) -> Result<Seq<char>, ProjectErrorView> {
    match r {
        Ok(s) => Ok(s@),
        Err(e) => Err(e@),
    }
}

/// The profile a project file gives under a name: its directories seen from the project's
/// directory.
pub open spec fn profile_from(base_dir: Seq<char>, name: Seq<char>, p: YAMLProjectProfileView) -> ProfileView {
    ProfileView {
        name,
        database_url: p.database_url,
        history: joined(base_dir, p.history),
        definitions: joined(base_dir, p.definitions),
        metadata_schema: p.metadata_schema,
    }
}

/// A profile of a project file with the environment variables expanded in its database
/// URL, its history directory and its definitions directory.
pub open spec fn expanded_profile(p: YAMLProjectProfileView, env: Seq<(Seq<char>, Seq<char>)>) -> YAMLProjectProfileView {
    YAMLProjectProfileView {
        database_url: expand(p.database_url, 0, env),
        history: expand(p.history, 0, env),
        definitions: expand(p.definitions, 0, env),
        metadata_schema: p.metadata_schema,
    }
}

impl Project {
    /// The project in `base_dir` with the profiles of its project file, in order, each
    /// with the variables of `env` expanded in its database URL and its directories.
    pub fn load_project_with_env(base_dir: String, yaml_project: &YAMLProject, env: &Vec<(String, String)>) -> (r: Project)
        ensures
            r@.base_dir == base_dir@,
            r@.profiles == yaml_project@.map_values(
                |e: (Seq<char>, YAMLProjectProfileView)| profile_from(base_dir@, e.0, expanded_profile(e.1, env_view(env@))),
            ),
    {
        let ghost ev = env_view(env@);
        let ghost target = yaml_project@.map_values(
            |e: (Seq<char>, YAMLProjectProfileView)| (e.0, expanded_profile(e.1, ev)),
        );
        let mut expanded: Vec<(String, YAMLProjectProfile)> = Vec::new();
        for i in 0..yaml_project.profiles.len()
            invariant
                ev == env_view(env@),
                target == yaml_project@.map_values(
                    |e: (Seq<char>, YAMLProjectProfileView)| (e.0, expanded_profile(e.1, ev)),
                ),
                target.len() == yaml_project.profiles@.len(),
                expanded@.map_values(|p: (String, YAMLProjectProfile)| (p.0@, p.1@)) == target.take(i as int),
        {
            let (name, profile) = &yaml_project.profiles[i];
            let e = (
                name.clone(),
                YAMLProjectProfile {
                    database_url: expand_envvar(profile.database_url.as_str(), env),
                    history: expand_envvar(profile.history.as_str(), env),
                    definitions: expand_envvar(profile.definitions.as_str(), env),
                    metadata_schema: profile.metadata_schema.clone(),
                },
            );
            let ghost before = expanded@;
            expanded.push(e);
            proof {
                assert((e.0@, e.1@) == target[i as int]);
                assert(expanded@.map_values(|p: (String, YAMLProjectProfile)| (p.0@, p.1@)) =~= before.map_values(
                    |p: (String, YAMLProjectProfile)| (p.0@, p.1@),
                ).push((e.0@, e.1@)));
                assert(target.take(i + 1) =~= target.take(i as int).push(target[i as int]));
            }
        }
        let y = YAMLProject { profiles: expanded };
        proof {
            assert(target.take(target.len() as int) =~= target);
            assert(y@ == target);
        }
        let r = Self::load_project_from_yaml(base_dir, &y);
        proof {
            assert(r@.profiles =~= yaml_project@.map_values(
                |e: (Seq<char>, YAMLProjectProfileView)| profile_from(base_dir@, e.0, expanded_profile(e.1, ev)),
            ));
        }
        r
    }

    /// The project in `base_dir` with the profiles of its project file, in order.
    pub fn load_project_from_yaml(base_dir: String, yaml_project: &YAMLProject) -> (r: Project)
        ensures
            r@.base_dir == base_dir@,
            r@.profiles == yaml_project@.map_values(
                |e: (Seq<char>, YAMLProjectProfileView)| profile_from(base_dir@, e.0, e.1),
            ),
    {
        let ghost spec_profiles = yaml_project@.map_values(
            |e: (Seq<char>, YAMLProjectProfileView)| profile_from(base_dir@, e.0, e.1),
        );
        let mut profiles: Vec<Profile> = Vec::new();
        for i in 0..yaml_project.profiles.len()
            invariant
                spec_profiles == yaml_project@.map_values(
                    |e: (Seq<char>, YAMLProjectProfileView)| profile_from(base_dir@, e.0, e.1),
                ),
                spec_profiles.len() == yaml_project.profiles@.len(),
                profiles@.map_values(|p: Profile| p@) == spec_profiles.take(i as int),
        {
            let (name, profile) = &yaml_project.profiles[i];
            let p = Profile {
                name: name.clone(),
                database_url: profile.database_url.clone(),
                history: join_path(base_dir.as_str(), profile.history.as_str()),
                definitions: join_path(base_dir.as_str(), profile.definitions.as_str()),
                metadata_schema: profile.metadata_schema.clone(),
            };
            let ghost before = profiles@;
            profiles.push(p);
            proof {
                assert(p@ == spec_profiles[i as int]);
                assert(profiles@.map_values(|p: Profile| p@) =~= before.map_values(|p: Profile| p@).push(p@));
                assert(spec_profiles.take(i + 1) =~= spec_profiles.take(i as int).push(spec_profiles[i as int]));
            }
        }
        proof {
            assert(spec_profiles.take(spec_profiles.len() as int) =~= spec_profiles);
        }
        Project { base_dir, profiles }
    }

    /// The directory of the project.
    pub fn base_dir(&self) -> (r: &String)
        ensures
            r@ == self@.base_dir,
    {
        &self.base_dir
    }

    fn get_profile(&self, profile_name: &str) -> (r: Result<&Profile, ProjectError>)
        ensures
            match find_profile(self@.profiles, profile_name@) {
                Some(p) => r is Ok && r->Ok_0@ == p,
                None => r is Err && r->Err_0@ == (ProjectErrorView::ProfileNotFound { profile_name: profile_name@ }),
            },
    {
        let ghost ps = self@.profiles;
        proof {
            assert(ps.subrange(0, ps.len() as int) =~= ps);
        }
        for i in 0..self.profiles.len()
            invariant
                ps == self@.profiles,
                ps.len() == self.profiles@.len(),
                find_profile(ps, profile_name@) == find_profile(ps.subrange(i as int, ps.len() as int), profile_name@),
        {
            let ghost rest = ps.subrange(i as int, ps.len() as int);
            proof {
                assert(rest[0] == self.profiles@[i as int]@);
                assert(rest.subrange(1, rest.len() as int) =~= ps.subrange(i + 1, ps.len() as int));
            }
            if str_eq(self.profiles[i].name.as_str(), profile_name) {
                return Ok(&self.profiles[i]);
            }
        }
        proof {
            assert(ps.subrange(ps.len() as int, ps.len() as int).len() == 0);
        }
        Err(ProjectError::ProfileNotFound { profile_name: profile_name.to_owned() })
    }

    pub fn resolve_database_url(&self, profile_name: &str) -> (r: Result<String, ProjectError>)
        ensures
            result_of(r) == resolved(self@, profile_name@, database_url_of()),
    {
        let profile = self.get_profile(profile_name)?;
        Ok(profile.database_url.clone())
    }

    pub fn resolve_history_dir(&self, profile_name: &str) -> (r: Result<String, ProjectError>)
        ensures
            result_of(r) == resolved(self@, profile_name@, history_of()),
    {
        let profile = self.get_profile(profile_name)?;
        Ok(profile.history.clone())
    }

    pub fn resolve_definitions_dir(&self, profile_name: &str) -> (r: Result<String, ProjectError>)
        ensures
            result_of(r) == resolved(self@, profile_name@, definitions_of()),
    {
        let profile = self.get_profile(profile_name)?;
        Ok(profile.definitions.clone())
    }

    pub fn resolve_default_history_dir(&self) -> (r: Result<String, ProjectError>)
        ensures
            result_of(r) == resolved(self@, "database"@, history_of()),
    {
        self.resolve_history_dir(DEFAULT_PROFILE)
    }

    pub fn resolve_default_definitions_dir(&self) -> (r: Result<String, ProjectError>)
        ensures
            result_of(r) == resolved(self@, "database"@, definitions_of()),
    {
        self.resolve_definitions_dir(DEFAULT_PROFILE)
    }

    pub fn resolve_metadata_schema(&self, profile_name: &str) -> (r: Result<String, ProjectError>)
        ensures
            result_of(r) == resolved(self@, profile_name@, metadata_schema_of()),
    {
        let profile = self.get_profile(profile_name)?;
        Ok(profile.metadata_schema.clone())
    }
}

/// The project file written for a new project: the `database` profile, with a local
/// database and the directories `database/history` and `database/definitions`.
pub fn create_base_yaml_project() -> (r: YAMLProject)
    ensures
        r@ == seq![(
            "database"@,
            YAMLProjectProfileView {
                database_url: "postgresql://localhost:5432/postgres"@,
                history: "database/history"@,
                definitions: "database/definitions"@,
                metadata_schema: "podo_meta"@,
            },
        )],
{
    let mut profiles: Vec<(String, YAMLProjectProfile)> = Vec::new();
    profiles.push((
        DEFAULT_PROFILE.to_owned(),
        YAMLProjectProfile {
            database_url: "postgresql://localhost:5432/postgres".to_string(),
            history: "database/history".to_string(),
            definitions: "database/definitions".to_string(),
            metadata_schema: "podo_meta".to_string(),
        },
    ));
    let r = YAMLProject { profiles };
    assert(r@ =~= seq![(
        "database"@,
        YAMLProjectProfileView {
            database_url: "postgresql://localhost:5432/postgres"@,
            history: "database/history"@,
            definitions: "database/definitions"@,
            metadata_schema: "podo_meta"@,
        },
    )]);
    r
}

} // verus!
