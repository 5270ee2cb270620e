//! Where the agent skill lives, and which directory is home.

use vstd::prelude::*;

use crate::daemon::logger::{join_path, join_path_exec};
use crate::text::chars_of;

verus! {

/// The skill's path under `base` (a repo root, or home for a global
/// install): `<config_dir>/skills/smartgrep/SKILL.md`, where `config_dir`
/// is the coding assistant's own directory.
pub open spec fn skill_path_spec(base: Seq<char>, config_dir: Seq<char>) -> Seq<char> {
    join_path(join_path(join_path(join_path(base, config_dir), "skills"@), "smartgrep"@), "SKILL.md"@)
}

/// Where the skill lives under `base`.
pub fn skill_path(base: &str, config_dir: &str) -> (r: String)
    ensures
        r@ == skill_path_spec(base@, config_dir@),
{
    let a = join_path_exec(base, config_dir);
    let b = join_path_exec(a.as_str(), "skills");
    let c = join_path_exec(b.as_str(), "smartgrep");
    join_path_exec(c.as_str(), "SKILL.md")
}

/// The user's home directory: `HOME`, else `USERPROFILE` (Windows, where
/// `HOME` is usually unset); empty values count as unset.
pub fn home_dir(home: Option<String>, userprofile: Option<String>) -> (r: Option<String>)
    ensures
        r == (match home {
            Some(h) if h@.len() > 0 => Some(h),
            _ => match userprofile {
                Some(u) if u@.len() > 0 => Some(u),
                _ => None,
            },
        }),
{
    if let Some(h) = home {
        if chars_of(h.as_str()).len() > 0 {
            return Some(h);
        }
    }
    if let Some(u) = userprofile {
        if chars_of(u.as_str()).len() > 0 {
            return Some(u);
        }
    }
    None
}

} // verus!
