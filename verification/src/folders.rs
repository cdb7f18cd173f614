//! The folders in which servers are discovered.

use vstd::prelude::*;

use crate::paths::{absolute, is_absolute, is_within, within};
use crate::projects::{
    is_directory, is_resolved_directory, normalize_path, normalized, PathResolution,
};
use crate::text::{concat, lists_text, strings};

verus! {

/// The folders that the user has chosen.
#[derive(Debug)]
pub struct DiscoverySettings {
    pub folders: Vec<String>,
}

/// A folder, with what came of resolving its path.
#[derive(Debug)]
pub struct FolderChoice {
    pub folder: String,
    pub resolution: PathResolution,
}

/// The path under which a chosen folder is kept, or why it is not. A folder that was kept before
/// may be out of reach: it must not keep the user from removing others.
pub open spec fn folder_outcome(choice: FolderChoice, previous: Seq<Seq<char>>) -> Result<
    Seq<char>,
    Seq<char>,
> {
    if !absolute(choice.folder@) {
        Err("Choose an existing folder using its absolute path"@)
    } else if is_resolved_directory(choice.resolution) {
        normalized(choice.resolution)
    } else if previous.contains(choice.folder@) {
        Ok(choice.folder@)
    } else {
        match normalized(choice.resolution) {
            Ok(_) => Err("Discovery folder is not a directory: "@ + choice.folder@),
            Err(error) => Err(error),
        }
    }
}

/// Why the first of the choices from `i` on that is not kept is not.
pub open spec fn folder_error_from(
    choices: Seq<FolderChoice>,
    previous: Seq<Seq<char>>,
    i: int,
) -> Option<Seq<char>>
    decreases choices.len() - i,
{
    if i < 0 || i >= choices.len() {
        None
    } else {
        match folder_outcome(choices[i], previous) {
            Err(error) => Some(error),
            Ok(_) => folder_error_from(choices, previous, i + 1),
        }
    }
}

/// The paths under which the first `n` choices are kept, each once.
pub open spec fn kept_folders(
    choices: Seq<FolderChoice>,
    previous: Seq<Seq<char>>,
    n: int,
) -> Seq<Seq<char>>
    decreases n,
{
    if n <= 0 {
        Seq::empty()
    } else {
        let before = kept_folders(choices, previous, n - 1);
        match folder_outcome(choices[n - 1], previous) {
            Ok(path) => if before.contains(path) {
                before
            } else {
                before.push(path)
            },
            Err(_) => before,
        }
    }
}

/// The path under which a chosen folder is kept, or why it is not.
fn check_folder(choice: &FolderChoice, previous: &[String]) -> (r: Result<String, String>)
    ensures
        match r {
            Ok(path) => folder_outcome(*choice, strings(previous@)) == Ok::<Seq<char>, Seq<char>>(
                path@,
            ),
            Err(error) => folder_outcome(*choice, strings(previous@)) == Err::<
                Seq<char>,
                Seq<char>,
            >(error@),
        },
{
    let folder = choice.folder.as_str();
    if !is_absolute(folder) {
        return Err("Choose an existing folder using its absolute path".to_owned());
    }
    let path = normalize_path(&choice.resolution);
    if is_directory(&choice.resolution) {
        return path;
    }
    if lists_text(previous, folder) {
        return Ok(choice.folder.clone());
    }
    match path {
        Ok(_) => Err(concat("Discovery folder is not a directory: ", folder)),
        Err(error) => Err(error),
    }
}

/// The paths under which chosen folders are kept, each once, where `previous` are those kept so
/// far.
pub fn normalize_discovery_folders(folders: &[FolderChoice], previous: &[String]) -> (r: Result<
    Vec<String>,
    String,
>)
    ensures
        match r {
            Ok(paths) => {
                &&& folder_error_from(folders@, strings(previous@), 0) is None
                &&& strings(paths@) == kept_folders(
                    folders@,
                    strings(previous@),
                    folders@.len() as int,
                )
            },
            Err(error) => folder_error_from(folders@, strings(previous@), 0) == Some(error@),
        },
{
    let ghost saved = strings(previous@);
    let mut paths: Vec<String> = Vec::new();
    let mut i: usize = 0;
    proof {
        assert(strings(paths@) =~= Seq::empty());
    }
    while i < folders.len()
        invariant
            i <= folders@.len(),
            saved == strings(previous@),
            folder_error_from(folders@, saved, 0) == folder_error_from(folders@, saved, i as int),
            strings(paths@) == kept_folders(folders@, saved, i as int),
        decreases folders.len() - i,
    {
        let ghost before = paths@;
        match check_folder(&folders[i], previous) {
            Ok(path) => {
                if !lists_text(paths.as_slice(), path.as_str()) {
                    paths.push(path);
                    proof {
                        assert(strings(paths@) =~= strings(before).push(path@));
                    }
                }
            },
            Err(error) => {
                return Err(error);
            },
        }
        i += 1;
    }
    Ok(paths)
}

/// Whether a path lies in one of the folders.
pub open spec fn in_folders(path: Seq<char>, folders: Seq<Seq<char>>) -> bool {
    exists|i: int| 0 <= i < folders.len() && within(path, #[trigger] folders[i])
}

/// Whether a path lies in one of the folders.
pub fn path_in_discovery_folders(path: &str, folders: &[String]) -> (r: bool)
    ensures
        r == in_folders(path@, strings(folders@)),
{
    let ghost all = strings(folders@);
    let mut i: usize = 0;
    while i < folders.len()
        invariant
            i <= folders@.len(),
            all == strings(folders@),
            forall|j: int| 0 <= j < i ==> !within(path@, #[trigger] all[j]),
        decreases folders.len() - i,
    {
        proof {
            assert(all[i as int] == folders@[i as int]@);
        }
        if is_within(path, folders[i].as_str()) {
            return true;
        }
        i += 1;
    }
    false
}

/// The paths of the first `n` folders that can be searched.
pub open spec fn available_folders(choices: Seq<FolderChoice>, n: int) -> Seq<Seq<char>>
    decreases n,
{
    if n <= 0 {
        Seq::empty()
    } else if is_resolved_directory(choices[n - 1].resolution) {
        available_folders(choices, n - 1).push(normalized(choices[n - 1].resolution)->Ok_0)
    } else {
        available_folders(choices, n - 1)
    }
}

/// What is to be said of those of the first `n` folders that cannot be searched.
pub open spec fn folder_warnings(choices: Seq<FolderChoice>, n: int) -> Seq<Seq<char>>
    decreases n,
{
    if n <= 0 {
        Seq::empty()
    } else if is_resolved_directory(choices[n - 1].resolution) {
        folder_warnings(choices, n - 1)
    } else {
        folder_warnings(choices, n - 1).push(
            "Discovery folder is unavailable: "@ + choices[n - 1].folder@,
        )
    }
}

/// The folders that can be searched, and what is to be said of the others.
pub fn sort_out_folders(choices: &[FolderChoice]) -> (r: (Vec<String>, Vec<String>))
    ensures
        strings(r.0@) == available_folders(choices@, choices@.len() as int),
        strings(r.1@) == folder_warnings(choices@, choices@.len() as int),
{
    let mut folders: Vec<String> = Vec::new();
    let mut warnings: Vec<String> = Vec::new();
    let mut i: usize = 0;
    proof {
        assert(strings(folders@) =~= Seq::empty());
        assert(strings(warnings@) =~= Seq::empty());
    }
    while i < choices.len()
        invariant
            i <= choices@.len(),
            strings(folders@) == available_folders(choices@, i as int),
            strings(warnings@) == folder_warnings(choices@, i as int),
        decreases choices.len() - i,
    {
        let ghost folders_before = folders@;
        let ghost warnings_before = warnings@;
        match &choices[i].resolution {
            PathResolution::Resolved { path, is_directory: true } => {
                folders.push(path.clone());
                proof {
                    assert(strings(folders@) =~= strings(folders_before).push(path@));
                }
            },
            _ => {
                let warning = concat(
                    "Discovery folder is unavailable: ",
                    choices[i].folder.as_str(),
                );
                warnings.push(warning);
                proof {
                    assert(strings(warnings@) =~= strings(warnings_before).push(warning@));
                }
            },
        }
        i += 1;
    }
    (folders, warnings)
}

/// No folder is kept twice.
pub proof fn law_folders_are_kept_once(
    choices: Seq<FolderChoice>,
    previous: Seq<Seq<char>>,
    n: int,
)
    requires
        0 <= n <= choices.len(),
    ensures
        kept_folders(choices, previous, n).no_duplicates(),
    decreases n,
{
    if n > 0 {
        law_folders_are_kept_once(choices, previous, n - 1);
    }
}

/// Folders that were kept before never keep the user from changing the list: a choice made only
/// of them is accepted, whether or not they can be reached, as long as their paths are absolute.
pub proof fn law_saved_folders_are_accepted(
    choices: Seq<FolderChoice>,
    previous: Seq<Seq<char>>,
    i: int,
)
    requires
        0 <= i <= choices.len(),
        forall|j: int|
            0 <= j < choices.len() ==> previous.contains((#[trigger] choices[j]).folder@)
                && absolute(choices[j].folder@),
    ensures
        folder_error_from(choices, previous, i) is None,
    decreases choices.len() - i,
{
    if i < choices.len() {
        law_saved_folders_are_accepted(choices, previous, i + 1);
    }
}

/// A folder that is not kept yet is kept only as a directory that its path resolves to.
pub proof fn law_new_folders_are_directories(choice: FolderChoice, previous: Seq<Seq<char>>)
    requires
        folder_outcome(choice, previous) is Ok,
        !previous.contains(choice.folder@),
    ensures
        absolute(choice.folder@),
        is_resolved_directory(choice.resolution),
        folder_outcome(choice, previous) == normalized(choice.resolution),
{
}

/// Choosing what is kept changes nothing: where each kept folder resolves to itself, the same
/// folders are kept again, in the same order.
pub proof fn law_keeping_again_changes_nothing(
    choices: Seq<FolderChoice>,
    previous: Seq<Seq<char>>,
    kept: Seq<Seq<char>>,
    n: int,
)
    requires
        0 <= n <= choices.len(),
        choices.len() == kept.len(),
        kept.no_duplicates(),
        forall|j: int|
            0 <= j < choices.len() ==> (#[trigger] choices[j]).folder@ == kept[j] && absolute(
                kept[j],
            ) && is_resolved_directory(choices[j].resolution) && normalized(choices[j].resolution)
                == Ok::<Seq<char>, Seq<char>>(kept[j]),
    ensures
        kept_folders(choices, previous, n) == kept.take(n),
    decreases n,
{
    if n > 0 {
        law_keeping_again_changes_nothing(choices, previous, kept, n - 1);
        assert(choices[n - 1].folder@ == kept[n - 1]);
        let before = kept.take(n - 1);
        assert(!before.contains(kept[n - 1])) by {
            if before.contains(kept[n - 1]) {
                let k = choose|k: int| 0 <= k < before.len() && before[k] == kept[n - 1];
                assert(kept[k] == kept[n - 1]);
            }
        }
        assert(kept.take(n) =~= kept.take(n - 1).push(kept[n - 1]));
    } else {
        assert(kept.take(0) =~= Seq::empty());
    }
}

} // verus!
