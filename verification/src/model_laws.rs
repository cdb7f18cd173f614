//! What values say: each field for itself, and each item of a list at its own place.

use std::collections::{HashMap, HashSet};

use vstd::prelude::*;

use crate::discovery::{
    discovered_models, optional_discovery, optional_metadata, DetectedProjectMetadata,
    DiscoveredListener,
};
use crate::listeners::{cwd_texts, listener_models, TcpListenerInfo};
use crate::manifest::{manifest_reading, PackageManifest};
use crate::ownership::PortRunInfo;
use crate::ports::placed;
use crate::projects::{project_models, Project};
use crate::ranking::{candidate_models, PortCandidate};
use crate::snapshot::{cwd_attempt, ports_of_interest, resolutions};
use crate::status::{
    detailed_projects, last_seen, status_models, status_run_info, ProjectDetails, ProjectStatus,
    StatusModel,
};
use crate::text::{optional, optional_str, strings, texts};

verus! {

/// A text in an option is the text itself, and nothing is nothing.
pub proof fn law_optional_text(s: String, t: &str)
    ensures
        optional(Some(s)) == Some(s@),
        optional(None) is None,
        optional_str(Some(t)) == Some(t@),
        optional_str(None) is None,
{
}

/// Lists of texts, and ports with their lines, keep each item at its place.
pub proof fn law_lists_keep_their_places(
    a: Seq<String>,
    b: Seq<Vec<char>>,
    c: Seq<(u16, usize)>,
    d: Seq<(i32, Option<String>)>,
    i: int,
)
    ensures
        strings(a).len() == a.len(),
        texts(b).len() == b.len(),
        placed(c).len() == c.len(),
        resolutions(d).len() == d.len(),
        0 <= i < a.len() ==> strings(a)[i] == a[i]@,
        0 <= i < b.len() ==> texts(b)[i] == b[i]@,
        0 <= i < c.len() ==> placed(c)[i].0 == c[i].0 && placed(c)[i].1 == c[i].1,
        0 <= i < d.len() ==> resolutions(d)[i].0 == d[i].0 && resolutions(d)[i].1 == optional(
            d[i].1,
        ),
{
}

/// A project says its fields, and a list of projects says each of them at its place.
pub proof fn law_projects_say_their_fields(
    v: Seq<Project>,
    details: Seq<ProjectDetails>,
    i: int,
)
    ensures
        project_models(v).len() == v.len(),
        detailed_projects(details).len() == details.len(),
        0 <= i < details.len() ==> detailed_projects(details)[i] == details[i].project@,
        0 <= i < v.len() ==> {
            let said = project_models(v)[i];
            &&& said == v[i]@
            &&& said.id == v[i].id@
            &&& said.name == v[i].name@
            &&& said.path == v[i].path@
            &&& said.port == v[i].port
            &&& said.start_command == v[i].start_command@
            &&& said.created_at == v[i].created_at@
        },
{
}

/// A status says its fields, and a list of statuses says each of them at its place. What it says of
/// the port is what it says of how the project stands to it.
pub proof fn law_statuses_say_their_fields(v: Seq<ProjectStatus>, i: int, status: StatusModel)
    ensures
        status_models(v).len() == v.len(),
        0 <= i < v.len() ==> {
            let said = status_models(v)[i];
            &&& said == v[i]@
            &&& said.project_id == v[i].project_id@
            &&& said.branch == v[i].branch@
            &&& said.is_running == v[i].is_running
            &&& said.pid == v[i].pid
            &&& said.port_active == v[i].port_active
            &&& said.run_state == v[i].run_state
            &&& said.owner_project_id == optional(v[i].owner_project_id)
            &&& said.last_running_at == optional(v[i].last_running_at)
            &&& said.checked_at == v[i].checked_at@
            &&& said.error == optional(v[i].error)
        },
        status_run_info(status).run_state == status.run_state,
        status_run_info(status).owner_project_id == status.owner_project_id,
        status_run_info(status).owner_pid == status.pid,
        status_run_info(status).port_active == status.port_active,
{
}

/// What is said of a port says its fields.
pub proof fn law_run_info_says_its_fields(info: PortRunInfo)
    ensures
        info@.run_state == info.run_state,
        info@.owner_project_id == optional(info.owner_project_id),
        info@.owner_pid == info.owner_pid,
        info@.port_active == info.port_active,
{
}

/// A listener says its fields, and a list of listeners says each of them at its place.
pub proof fn law_listeners_say_their_fields(v: Seq<TcpListenerInfo>, i: int)
    ensures
        listener_models(v).len() == v.len(),
        0 <= i < v.len() ==> {
            let said = listener_models(v)[i];
            &&& said == v[i]@
            &&& said.port == v[i].port
            &&& said.pid == v[i].pid
            &&& said.process_name == v[i].process_name@
        },
{
}

/// A candidate says its fields, and a list of candidates says each of them at its place.
pub proof fn law_candidates_say_their_fields(v: Seq<PortCandidate>, i: int)
    ensures
        candidate_models(v).len() == v.len(),
        0 <= i < v.len() ==> {
            let said = candidate_models(v)[i];
            &&& said == v[i]@
            &&& said.port == v[i].port
            &&& said.source == v[i].source
            &&& said.detail == v[i].detail@
            &&& said.confidence == v[i].confidence
        },
{
}

/// A discovered server says its fields, and a list of them says each at its place.
pub proof fn law_discoveries_say_their_fields(
    v: Seq<DiscoveredListener>,
    i: int,
    found: DiscoveredListener,
    metadata: DetectedProjectMetadata,
)
    ensures
        discovered_models(v).len() == v.len(),
        0 <= i < v.len() ==> {
            let said = discovered_models(v)[i];
            &&& said == v[i]@
            &&& said.port == v[i].port
            &&& said.pid == v[i].pid
            &&& said.process_name == v[i].process_name@
            &&& said.name == v[i].name@
            &&& said.path == optional(v[i].path)
            &&& said.project_id == optional(v[i].project_id)
            &&& said.suggested_start_command == optional(v[i].suggested_start_command)
        },
        optional_discovery(Some(found)) == Some(found@),
        optional_discovery(None) is None,
        optional_metadata(Some(metadata)) == Some(metadata@),
        optional_metadata(None) is None,
        metadata@.path == metadata.path@,
        metadata@.name == metadata.name@,
        metadata@.suggested_start_command == optional(metadata.suggested_start_command),
{
}

/// A manifest says its fields, and a reading of one says it or why there is none.
pub proof fn law_manifest_says_its_fields(manifest: PackageManifest, error: String)
    ensures
        manifest@.name == optional(manifest.name),
        manifest@.dev == optional(manifest.dev),
        manifest@.start == optional(manifest.start),
        manifest@.serve == optional(manifest.serve),
        manifest_reading(Ok(manifest)) == Ok::<_, Seq<char>>(manifest@),
        manifest_reading(Err(error)) == Err::<crate::manifest::ManifestModel, _>(error@),
{
}

/// Working directories say the text of each, for the same processes; an attempt to find them says
/// what it found or what went wrong.
pub proof fn law_directories_say_their_text(
    m: Map<i32, String>,
    found: HashMap<i32, String>,
    error: String,
    ports: &HashSet<u16>,
    pid: i32,
)
    ensures
        cwd_texts(m).contains_key(pid) <==> m.contains_key(pid),
        m.contains_key(pid) ==> cwd_texts(m)[pid] == m[pid]@,
        cwd_attempt(Ok(found)) == Ok::<_, Seq<char>>(cwd_texts(found@)),
        cwd_attempt(Err(error)) == Err::<Map<i32, Seq<char>>, _>(error@),
        ports_of_interest(Some(ports)) == Some(ports@),
        ports_of_interest(None) is None,
{
}

/// The time noted for a project is found again, and none where none was noted.
pub proof fn law_noted_time_is_found(
    times: Map<Seq<char>, Seq<char>>,
    id: Seq<char>,
    time: Seq<char>,
    other: Seq<char>,
)
    ensures
        last_seen(times.insert(id, time), id) == Some(time),
        last_seen(times.remove(id), id) is None,
        other != id ==> last_seen(times.insert(id, time), other) == last_seen(times, other),
        other != id ==> last_seen(times.remove(id), other) == last_seen(times, other),
        last_seen(Map::empty(), id) is None,
{
}

} // verus!
