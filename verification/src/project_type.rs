//! The values of the `projectType` property that suppress the diagnostic
//! asking a project to say what kind of project it is.
use vstd::prelude::*;
use crate::text::{copy_str, str_eq, lowercase, to_lowercase};

verus! {

/// A value that the `projectType` property accepts, with what it means.
#[derive(Debug)]
pub struct ProjectTypeInfo {
    pub name: String,
    pub description: String,
}

/// The names of the accepted project types, in the order they are listed.
pub open spec fn project_type_names() -> Seq<Seq<char>> {
    seq![
        "commercialEvaluation"@,
        "commercialSponsored"@,
        "openSource"@,
        "educational"@,
        "nonProfit"@,
    ]
}

/// What each accepted project type means, in the order they are listed.
pub open spec fn project_type_descriptions() -> Seq<Seq<char>> {
    seq![
        "Dprint is formatting a project whose primary maintainer is a for-profit company or individual and it is being evaluated for 30 days."@,
        "Dprint is formatting a project whose primary maintainer is a for-profit company or individual AND the primary maintainer sponsored the project. Thank you for being part of moving this project forward!"@,
        "Dprint is formatting an open source project whose primary maintainer is not a for-profit company (no sponsorship requirement)."@,
        "Dprint is formatting a project run by a student or being used for educational purposes (no sponsorship requirement)."@,
        "Dprint is formatting a project whose primary maintainer is a non-profit organization (no sponsorship requirement)."@,
    ]
}

fn info(name: &str, description: &str) -> (r: ProjectTypeInfo)
    ensures
        r.name@ == name@,
        r.description@ == description@,
{
    ProjectTypeInfo { name: copy_str(name), description: copy_str(description) }
}

/// The accepted project types, in the order they are listed.
pub fn get_project_type_infos() -> (r: Vec<ProjectTypeInfo>)
    ensures
        r@.len() == project_type_names().len(),
        forall|i: int| 0 <= i < r@.len() ==> (#[trigger] r@[i]).name@ == project_type_names()[i],
        forall|i: int| 0 <= i < r@.len() ==> (#[trigger] r@[i]).description@ == project_type_descriptions()[i],
{
    let mut r: Vec<ProjectTypeInfo> = Vec::new();
    r.push(
        info(
            "commercialEvaluation",
            "Dprint is formatting a project whose primary maintainer is a for-profit company or individual and it is being evaluated for 30 days.",
        ),
    );
    r.push(
        info(
            "commercialSponsored",
            "Dprint is formatting a project whose primary maintainer is a for-profit company or individual AND the primary maintainer sponsored the project. Thank you for being part of moving this project forward!",
        ),
    );
    r.push(
        info(
            "openSource",
            "Dprint is formatting an open source project whose primary maintainer is not a for-profit company (no sponsorship requirement).",
        ),
    );
    r.push(
        info(
            "educational",
            "Dprint is formatting a project run by a student or being used for educational purposes (no sponsorship requirement).",
        ),
    );
    r.push(
        info(
            "nonProfit",
            "Dprint is formatting a project whose primary maintainer is a non-profit organization (no sponsorship requirement).",
        ),
    );
    r
}

/// Whether the configured project type names one of the accepted ones,
/// compared in lowercase so that the case does not matter.
pub open spec fn spec_has_project_type(project_type: Option<Seq<char>>) -> bool {
    match project_type {
        Some(t) => exists|i: int|
            0 <= i < project_type_names().len() && lowercase(#[trigger] project_type_names()[i]) == lowercase(t),
        None => false,
    }
}

/// Whether the configured `projectType` suppresses the diagnostic (see
/// [`spec_has_project_type`]).
pub fn has_project_type_config(project_type: Option<&str>) -> (r: bool)
    ensures
        r == spec_has_project_type(
            match project_type {
                Some(t) => Some(t@),
                None => None,
            },
        ),
{
    match project_type {
        Some(t) => {
            let wanted = to_lowercase(t);
            let infos = get_project_type_infos();
            let mut i: usize = 0;
            while i < infos.len()
                invariant
                    i <= infos@.len(),
                    infos@.len() == project_type_names().len(),
                    forall|j: int| 0 <= j < infos@.len() ==> (#[trigger] infos@[j]).name@ == project_type_names()[j],
                    wanted@ == lowercase(t@),
                    project_type == Some(t),
                    forall|j: int|
                        0 <= j < i ==> lowercase(#[trigger] project_type_names()[j]) != lowercase(t@),
                decreases infos@.len() - i,
            {
                let name = to_lowercase(infos[i].name.as_str());
                if str_eq(name.as_str(), wanted.as_str()) {
                    assert(lowercase(project_type_names()[i as int]) == lowercase(t@));
                    return true;
                }
                i = i + 1;
            }
            false
        },
        None => false,
    }
}

} // verus!
