use vstd::prelude::*;
use vstd::string::StringExecFns;

verus! {

/// A project as the central Hula service reports it.
pub struct HulaProject {
    pub id: String,
    pub description: Option<String>,
    pub name: String,
}

/// The payload sent to Hula when a project is created or updated.
pub struct HulaApiProject {
    pub name: String,
    pub description: Option<String>,
    pub is_hidden: bool,
}

/// A session against the Hula service: its base URL and the auth cookie
/// returned by the auth endpoint, held for the length of one pass.
pub struct HulaConfig {
    pub hula_url: String,
    pub cookie: String,
}

/// Credentials sent to Hula's auth endpoint.
pub struct AuthData {
    pub email: String,
    pub password: String,
}

/// The description a Hula project effectively carries: an absent description
/// reads as the empty string.
pub open spec fn project_description(p: HulaProject) -> Seq<char> {
    match p.description {
        Some(d) => d@,
        None => Seq::empty(),
    }
}

/// The link under which a Hula project is reachable, as reported back to the
/// remote systems.
pub open spec fn project_link_view(hula_url: Seq<char>, project_id: Seq<char>) -> Seq<char> {
    hula_url + "/app/project/"@ + project_id
}

/// The first index at or after `from` of a project with this id, if any.
pub open spec fn first_project_index(
    projects: Seq<HulaProject>,
    id: Seq<char>,
    from: int,
) -> Option<int>
    decreases projects.len() - from,
{
    if from < 0 || from >= projects.len() {
        None
    } else if projects[from].id@ == id {
        Some(from)
    } else {
        first_project_index(projects, id, from + 1)
    }
}

/// Builds the payload for a project insert or update. Projects created or
/// updated through this library are never hidden.
pub fn new_api_project(name: String, description: Option<String>) -> (p: HulaApiProject)
    ensures
        p.name == name,
        p.description == description,
        !p.is_hidden,
{
    HulaApiProject { name, description, is_hidden: false }
}

/// Whether Hula's HTTP status accepts a push; any status above 299 is
/// treated as an error.
pub fn push_accepted(status: u16) -> (r: bool)
    ensures
        r == (status <= 299),
{
    status <= 299
}

/// Builds the link under which a Hula project is reachable.
pub fn project_link(hula_url: &String, project_id: &String) -> (link: String)
    ensures
        link@ == project_link_view(hula_url@, project_id@),
{
    let mut link = hula_url.clone();
    link.append("/app/project/");
    link.append(project_id.as_str());
    link
}

} // verus!
