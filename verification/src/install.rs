//! Installer path logic: where a skill's files are found inside a fetched
//! repository, relative to the repository root.

use vstd::prelude::*;
use vstd::string::StringExecFns;
use crate::strutil::{join2, str_eq};

verus! {

/// The repository-relative path of a skill's folder: the folder itself when
/// the scan root is the repository root, otherwise the scan root joined
/// with the folder.
pub fn install_source_rel(skills_path: &str, skill_path: &str) -> (r: String)
    ensures
        skills_path@ == "."@ ==> r@ == skill_path@,
        skills_path@ != "."@ ==> r@ == skills_path@ + "/"@ + skill_path@,
{
    if str_eq(skills_path, ".") {
        String::from_str(skill_path)
    } else {
        join2(skills_path, "/", skill_path)
    }
}

} // verus!
