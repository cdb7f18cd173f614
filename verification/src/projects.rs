//! The projects that the user keeps, and the rules for changing the list of them.

use vstd::prelude::*;

use crate::numbers::{decimal, write_decimal};
use crate::stamps::{is_random_id, is_timestamp, new_project_id, now_iso};
use crate::text::{chars_of, concat, optional_str, same_text, text_of, trim, trimmed};

verus! {

/// A project that the user keeps.
#[derive(Debug)]
pub struct Project {
    pub id: String,
    pub name: String,
    pub path: String,
    pub port: u16,
    pub start_command: String,
    pub created_at: String,
}

/// What a `Project` says.
pub struct ProjectModel {
    pub id: Seq<char>,
    pub name: Seq<char>,
    pub path: Seq<char>,
    pub port: u16,
    pub start_command: Seq<char>,
    pub created_at: Seq<char>,
}

impl View for Project {
    type V = ProjectModel;

    open spec fn view(&self) -> ProjectModel {
        ProjectModel {
            id: self.id@,
            name: self.name@,
            path: self.path@,
            port: self.port,
            start_command: self.start_command@,
            created_at: self.created_at@,
        }
    }
}

impl Clone for Project {
    fn clone(&self) -> (r: Self)
        ensures
            r == *self,
    {
        Project {
            id: self.id.clone(),
            name: self.name.clone(),
            path: self.path.clone(),
            port: self.port,
            start_command: self.start_command.clone(),
            created_at: self.created_at.clone(),
        }
    }
}

/// What each project in a list says.
pub open spec fn project_models(v: Seq<Project>) -> Seq<ProjectModel> {
    Seq::new(v.len(), |i: int| v[i]@)
}

/// What the user enters for a new project.
#[derive(Debug)]
pub struct AddProjectInput {
    pub name: String,
    pub path: String,
    pub port: u16,
    pub start_command: String,
}

/// What the user enters in place of what a project says.
#[derive(Debug)]
pub struct UpdateProjectInput {
    pub id: String,
    pub name: String,
    pub path: String,
    pub port: u16,
    pub start_command: String,
}

/// What the user entered, once it has been found to be in order.
#[derive(Debug)]
pub struct ValidatedProjectInput {
    pub name: String,
    pub path: String,
    pub port: u16,
    pub start_command: String,
}

/// What came of resolving a path: following its links and making it absolute.
#[derive(Debug)]
pub enum PathResolution {
    /// The path could not be resolved, for this reason.
    Failed(String),
    /// The path was resolved to one that is not text.
    NotText,
    /// The path was resolved to this one.
    Resolved { path: String, is_directory: bool },
}

/// What a resolved path is, or why there is none.
pub open spec fn normalized(resolution: PathResolution) -> Result<Seq<char>, Seq<char>> {
    match resolution {
        PathResolution::Failed(error) => Err("Invalid path: "@ + error@),
        PathResolution::NotText => Err("Path contains invalid UTF-8"@),
        PathResolution::Resolved { path, .. } => Ok(path@),
    }
}

/// Whether a path was resolved to a directory.
pub open spec fn is_resolved_directory(resolution: PathResolution) -> bool {
    match resolution {
        PathResolution::Resolved { is_directory, .. } => is_directory,
        _ => false,
    }
}

/// The path that a resolution came to.
pub fn normalize_path(resolution: &PathResolution) -> (r: Result<String, String>)
    ensures
        match r {
            Ok(path) => normalized(*resolution) == Ok::<Seq<char>, Seq<char>>(path@),
            Err(error) => normalized(*resolution) == Err::<Seq<char>, Seq<char>>(error@),
        },
{
    match resolution {
        PathResolution::Failed(error) => Err(concat("Invalid path: ", error.as_str())),
        PathResolution::NotText => Err("Path contains invalid UTF-8".to_owned()),
        PathResolution::Resolved { path, .. } => Ok(path.clone()),
    }
}

/// Whether a path was resolved to a directory.
pub fn is_directory(resolution: &PathResolution) -> (r: bool)
    ensures
        r == is_resolved_directory(*resolution),
{
    match resolution {
        PathResolution::Resolved { is_directory, .. } => *is_directory,
        _ => false,
    }
}

/// The first project from `i` on that has this identifier.
pub open spec fn id_from(projects: Seq<ProjectModel>, id: Seq<char>, i: int) -> Option<int>
    decreases projects.len() - i,
{
    if i < 0 || i >= projects.len() {
        None
    } else if projects[i].id == id {
        Some(i)
    } else {
        id_from(projects, id, i + 1)
    }
}

/// The first project that has this identifier.
pub open spec fn with_id(projects: Seq<ProjectModel>, id: Seq<char>) -> Option<int> {
    id_from(projects, id, 0)
}

/// Finds the first project that has this identifier.
pub fn find_project(projects: &[Project], id: &str) -> (r: Option<usize>)
    ensures
        match r {
            Some(i) => {
                &&& with_id(project_models(projects@), id@) == Some(i as int)
                &&& i < projects@.len()
                &&& projects@[i as int].id@ == id@
            },
            None => {
                &&& with_id(project_models(projects@), id@) is None
                &&& forall|j: int| 0 <= j < projects@.len() ==> (#[trigger] projects@[j]).id@ != id@
            },
        },
{
    let ghost models = project_models(projects@);
    let mut i: usize = 0;
    while i < projects.len()
        invariant
            i <= projects@.len(),
            models == project_models(projects@),
            with_id(models, id@) == id_from(models, id@, i as int),
            forall|j: int| 0 <= j < i ==> (#[trigger] projects@[j]).id@ != id@,
        decreases projects.len() - i,
    {
        proof {
            assert(models[i as int] == projects@[i as int]@);
        }
        if same_text(projects[i].id.as_str(), id) {
            return Some(i);
        }
        i += 1;
    }
    None
}

/// The project that a list has under an identifier.
pub open spec fn project_under(projects: Seq<ProjectModel>, id: Seq<char>) -> Option<ProjectModel> {
    match with_id(projects, id) {
        Some(i) => Some(projects[i]),
        None => None,
    }
}

/// The first project from `i` on that has this path, not counting those with the identifier
/// `ignored`.
pub open spec fn path_holder_from(
    projects: Seq<ProjectModel>,
    path: Seq<char>,
    ignored: Option<Seq<char>>,
    i: int,
) -> Option<int>
    decreases projects.len() - i,
{
    if i < 0 || i >= projects.len() {
        None
    } else if ignored != Some(projects[i].id) && projects[i].path == path {
        Some(i)
    } else {
        path_holder_from(projects, path, ignored, i + 1)
    }
}

/// The message that a path belongs to a project already.
pub open spec fn path_taken(path: Seq<char>, name: Seq<char>) -> Seq<char> {
    "Path '"@ + path + "' is already assigned to project '"@ + name + "'"@
}

/// Why what the user entered is not accepted, if it is not.
pub open spec fn refusal(
    name: Seq<char>,
    resolution: PathResolution,
    port: u16,
    start_command: Seq<char>,
    projects: Seq<ProjectModel>,
    ignored: Option<Seq<char>>,
) -> Option<Seq<char>> {
    if trimmed(name).len() == 0 {
        Some("Project name cannot be empty"@)
    } else if port == 0 {
        Some("Port must be in the range 1..65535"@)
    } else if trimmed(start_command).len() == 0 {
        Some("Start command cannot be empty"@)
    } else {
        match normalized(resolution) {
            Err(error) => Some(error),
            Ok(path) => if !is_resolved_directory(resolution) {
                Some("Project path must be an existing directory"@)
            } else {
                match path_holder_from(projects, path, ignored, 0) {
                    Some(i) => Some(path_taken(path, projects[i].name)),
                    None => None,
                }
            },
        }
    }
}

/// A text without white space around it.
fn trimmed_text(s: &str) -> (r: String)
    ensures
        r@ == trimmed(s@),
{
    let chars = chars_of(s);
    text_of(trim(chars.as_slice()))
}

/// Checks what the user entered for a project. A project with the identifier
/// `ignore_project_id` may have the path already.
pub fn validate_project_candidate(
    name: &str,
    resolution: &PathResolution,
    port: u16,
    start_command: &str,
    projects: &[Project],
    ignore_project_id: Option<&str>,
) -> (r: Result<ValidatedProjectInput, String>)
    ensures
        match r {
            Ok(input) => {
                &&& refusal(
                    name@,
                    *resolution,
                    port,
                    start_command@,
                    project_models(projects@),
                    optional_str(ignore_project_id),
                ) is None
                &&& input.name@ == trimmed(name@)
                &&& normalized(*resolution) == Ok::<Seq<char>, Seq<char>>(input.path@)
                &&& input.port == port
                &&& input.start_command@ == trimmed(start_command@)
            },
            Err(message) => refusal(
                name@,
                *resolution,
                port,
                start_command@,
                project_models(projects@),
                optional_str(ignore_project_id),
            ) == Some(message@),
        },
{
    let trimmed_name = trimmed_text(name);
    if trimmed_name.as_str().is_empty() {
        return Err("Project name cannot be empty".to_owned());
    }
    if port == 0 {
        return Err("Port must be in the range 1..65535".to_owned());
    }
    let trimmed_command = trimmed_text(start_command);
    if trimmed_command.as_str().is_empty() {
        return Err("Start command cannot be empty".to_owned());
    }
    let path = match normalize_path(resolution) {
        Ok(path) => path,
        Err(error) => {
            return Err(error);
        },
    };
    if !is_directory(resolution) {
        return Err("Project path must be an existing directory".to_owned());
    }
    let ghost models = project_models(projects@);
    let ghost ignored = optional_str(ignore_project_id);
    let mut i: usize = 0;
    while i < projects.len()
        invariant
            i <= projects@.len(),
            models == project_models(projects@),
            ignored == optional_str(ignore_project_id),
            path_holder_from(models, path@, ignored, 0) == path_holder_from(
                models,
                path@,
                ignored,
                i as int,
            ),
            trimmed(name@).len() > 0,
            port > 0,
            trimmed(start_command@).len() > 0,
            normalized(*resolution) == Ok::<Seq<char>, Seq<char>>(path@),
            is_resolved_directory(*resolution),
        decreases projects.len() - i,
    {
        proof {
            assert(models[i as int] == projects@[i as int]@);
        }
        let skipped = match ignore_project_id {
            Some(id) => same_text(projects[i].id.as_str(), id),
            None => false,
        };
        if !skipped && same_text(projects[i].path.as_str(), path.as_str()) {
            let start = concat("Path '", path.as_str());
            let middle = concat(start.as_str(), "' is already assigned to project '");
            let end = concat(middle.as_str(), projects[i].name.as_str());
            return Err(concat(end.as_str(), "'"));
        }
        i += 1;
    }
    Ok(
        ValidatedProjectInput { name: trimmed_name, path, port, start_command: trimmed_command },
    )
}

/// Why a new project is not accepted, if it is not.
pub open spec fn add_refusal(
    projects: Seq<ProjectModel>,
    input: AddProjectInput,
    resolution: PathResolution,
) -> Option<Seq<char>> {
    refusal(input.name@, resolution, input.port, input.start_command@, projects, None)
}

/// The project that is made of what the user entered.
pub open spec fn made_project(
    input: AddProjectInput,
    resolution: PathResolution,
    id: Seq<char>,
    created_at: Seq<char>,
) -> ProjectModel {
    ProjectModel {
        id,
        name: trimmed(input.name@),
        path: normalized(resolution)->Ok_0,
        port: input.port,
        start_command: trimmed(input.start_command@),
        created_at,
    }
}

/// Adds a project with a given identifier and time to the end of the list. A refusal leaves the
/// list as it was.
pub fn append_project(
    projects: &mut Vec<Project>,
    input: &AddProjectInput,
    resolution: &PathResolution,
    id: &str,
    created_at: &str,
) -> (r: Result<Project, String>)
    ensures
        match r {
            Ok(project) => {
                &&& add_refusal(project_models(old(projects)@), *input, *resolution) is None
                &&& project@ == made_project(*input, *resolution, id@, created_at@)
                &&& project_models(final(projects)@) == project_models(old(projects)@).push(
                    project@,
                )
            },
            Err(message) => {
                &&& add_refusal(project_models(old(projects)@), *input, *resolution) == Some(
                    message@,
                )
                &&& final(projects)@ == old(projects)@
            },
        },
{
    let validated = match validate_project_candidate(
        input.name.as_str(),
        resolution,
        input.port,
        input.start_command.as_str(),
        projects.as_slice(),
        None,
    ) {
        Ok(validated) => validated,
        Err(message) => {
            return Err(message);
        },
    };
    let project = Project {
        id: id.to_owned(),
        name: validated.name,
        path: validated.path,
        port: validated.port,
        start_command: validated.start_command,
        created_at: created_at.to_owned(),
    };
    projects.push(project.clone());
    proof {
        assert(project_models(projects@) =~= project_models(old(projects)@).push(project@));
    }
    Ok(project)
}

/// Adds a project to the end of the list, with a new identifier and the present time. A refusal
/// leaves the list as it was.
pub fn add_project(
    projects: &mut Vec<Project>,
    input: &AddProjectInput,
    resolution: &PathResolution,
) -> (r: Result<Project, String>)
    ensures
        match r {
            Ok(project) => {
                &&& add_refusal(project_models(old(projects)@), *input, *resolution) is None
                &&& is_random_id(project.id@)
                &&& is_timestamp(project.created_at@)
                &&& project@ == made_project(*input, *resolution, project.id@, project.created_at@)
                &&& project_models(final(projects)@) == project_models(old(projects)@).push(
                    project@,
                )
            },
            Err(message) => {
                &&& add_refusal(project_models(old(projects)@), *input, *resolution) == Some(
                    message@,
                )
                &&& final(projects)@ == old(projects)@
            },
        },
{
    let id = new_project_id();
    let created_at = now_iso();
    append_project(projects, input, resolution, id.as_str(), created_at.as_str())
}

/// Why a change of a project is not accepted, if it is not.
pub open spec fn update_refusal(
    projects: Seq<ProjectModel>,
    input: UpdateProjectInput,
    resolution: PathResolution,
) -> Option<Seq<char>> {
    match with_id(projects, input.id@) {
        None => Some("Project not found"@),
        Some(_) => refusal(
            input.name@,
            resolution,
            input.port,
            input.start_command@,
            projects,
            Some(input.id@),
        ),
    }
}

/// What a project says once it has been changed to what the user entered.
pub open spec fn changed_project(
    project: ProjectModel,
    input: UpdateProjectInput,
    resolution: PathResolution,
) -> ProjectModel {
    ProjectModel {
        id: project.id,
        name: trimmed(input.name@),
        path: normalized(resolution)->Ok_0,
        port: input.port,
        start_command: trimmed(input.start_command@),
        created_at: project.created_at,
    }
}

/// Changes the first project with the entered identifier. A refusal leaves the list as it was.
pub fn update_project(
    projects: &mut Vec<Project>,
    input: &UpdateProjectInput,
    resolution: &PathResolution,
) -> (r: Result<Project, String>)
    ensures
        match r {
            Ok(project) => {
                let before = project_models(old(projects)@);
                &&& update_refusal(before, *input, *resolution) is None
                &&& with_id(before, input.id@) matches Some(i)
                &&& project@ == changed_project(before[i], *input, *resolution)
                &&& project_models(final(projects)@) == before.update(i, project@)
            },
            Err(message) => {
                &&& update_refusal(project_models(old(projects)@), *input, *resolution) == Some(
                    message@,
                )
                &&& final(projects)@ == old(projects)@
            },
        },
{
    let index = match find_project(projects.as_slice(), input.id.as_str()) {
        Some(index) => index,
        None => {
            return Err("Project not found".to_owned());
        },
    };
    let validated = match validate_project_candidate(
        input.name.as_str(),
        resolution,
        input.port,
        input.start_command.as_str(),
        projects.as_slice(),
        Some(input.id.as_str()),
    ) {
        Ok(validated) => validated,
        Err(message) => {
            return Err(message);
        },
    };
    let project = Project {
        id: projects[index].id.clone(),
        name: validated.name,
        path: validated.path,
        port: validated.port,
        start_command: validated.start_command,
        created_at: projects[index].created_at.clone(),
    };
    projects.set(index, project.clone());
    proof {
        assert(project_models(projects@) =~= project_models(old(projects)@).update(
            index as int,
            project@,
        ));
    }
    Ok(project)
}

/// The first `n` projects without those that have this identifier.
pub open spec fn without_id(projects: Seq<ProjectModel>, id: Seq<char>, n: int) -> Seq<ProjectModel>
    decreases n,
{
    if n <= 0 {
        Seq::empty()
    } else if projects[n - 1].id == id {
        without_id(projects, id, n - 1)
    } else {
        without_id(projects, id, n - 1).push(projects[n - 1])
    }
}

/// Takes the projects with an identifier out of the list. Where there is none, the list stays as
/// it was.
pub fn remove_project(projects: &mut Vec<Project>, project_id: &str) -> (r: Result<(), String>)
    ensures
        match r {
            Ok(_) => {
                &&& with_id(project_models(old(projects)@), project_id@) is Some
                &&& project_models(final(projects)@) == without_id(
                    project_models(old(projects)@),
                    project_id@,
                    old(projects)@.len() as int,
                )
            },
            Err(message) => {
                &&& message@ == "Project not found"@
                &&& with_id(project_models(old(projects)@), project_id@) is None
                &&& final(projects)@ == old(projects)@
            },
        },
{
    if find_project(projects.as_slice(), project_id).is_none() {
        return Err("Project not found".to_owned());
    }
    let ghost before = project_models(projects@);
    let mut kept: Vec<Project> = Vec::new();
    let mut i: usize = 0;
    proof {
        assert(project_models(kept@) =~= Seq::empty());
    }
    while i < projects.len()
        invariant
            i <= projects@.len(),
            projects@ == old(projects)@,
            before == project_models(projects@),
            project_models(kept@) == without_id(before, project_id@, i as int),
        decreases projects.len() - i,
    {
        let ghost kept_before = kept@;
        proof {
            assert(before[i as int] == projects@[i as int]@);
        }
        if !same_text(projects[i].id.as_str(), project_id) {
            kept.push(projects[i].clone());
            proof {
                assert(project_models(kept@) =~= project_models(kept_before).push(
                    projects@[i as int]@,
                ));
            }
        }
        i += 1;
    }
    *projects = kept;
    Ok(())
}

/// The address at which a project is reached.
pub open spec fn localhost_url(port: u16) -> Seq<char> {
    "http://localhost:"@ + decimal(port as nat)
}

/// The address of a port on this machine.
pub fn build_localhost_url(port: u16) -> (r: String)
    ensures
        r@ == localhost_url(port),
{
    concat("http://localhost:", write_decimal(port as u64).as_str())
}

/// The address at which the project with an identifier is reached.
pub fn find_project_url(projects: &[Project], project_id: &str) -> (r: Result<String, String>)
    ensures
        match r {
            Ok(url) => {
                &&& project_under(project_models(projects@), project_id@) matches Some(project)
                &&& url@ == localhost_url(project.port)
            },
            Err(message) => {
                &&& project_under(project_models(projects@), project_id@) is None
                &&& message@ == "Project not found"@
            },
        },
{
    match find_project(projects, project_id) {
        Some(i) => Ok(build_localhost_url(projects[i].port)),
        None => Err("Project not found".to_owned()),
    }
}

/// The command that starts a project for which none was entered.
pub fn default_start_command() -> (r: String)
    ensures
        r@ == "npm run dev"@,
{
    "npm run dev".to_owned()
}

} // verus!
