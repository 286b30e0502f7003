//! The skills that ship with the engine: which files they have, and when a
//! deployed copy is current.
use vstd::prelude::*;
use crate::registry::{parse_u64, u64_value};
use crate::text::{text_trim, trim};

verus! {

/// The version of the bundled skill set; a deployed copy older than this is
/// written again.
pub const BUNDLED_VERSION: u32 = 12;

/// A bundled skill: its slug and its files, relative to its directory.
pub struct BundledSkill {
    pub slug: String,
    pub files: Vec<String>,
}

pub open spec fn bundled_slugs() -> Seq<Seq<char>> {
    seq![
        "android-apk-build"@,
        "web-researcher"@,
        "code-helper"@,
        "translator"@,
        "summarizer"@,
        "daily-planner"@,
        "writing-assistant"@,
    ]
}

fn skill(slug: &str, files: Vec<String>) -> (r: BundledSkill)
    ensures
        r.slug@ == slug@,
        r.files == files,
{
    BundledSkill { slug: String::from_str(slug), files }
}

fn only_skill_md(slug: &str) -> (r: BundledSkill)
    ensures
        r.slug@ == slug@,
        r.files@.len() == 1,
        r.files@[0]@ == "SKILL.md"@,
{
    skill(slug, vec![String::from_str("SKILL.md")])
}

/// The bundled skills, in deployment order: each has a `SKILL.md`; the
/// Android build skill also has its build script.
pub fn bundled_skills() -> (r: Vec<BundledSkill>)
    ensures
        r@.len() == 7,
        forall|i: int| 0 <= i < 7 ==> #[trigger] r@[i].slug@ == bundled_slugs()[i],
        forall|i: int| 0 <= i < 7 ==> r@[i].files@.len() >= 1 && #[trigger] r@[i].files@[0]@ == "SKILL.md"@,
        r@[0].files@.len() == 2,
        r@[0].files@[1]@ == "scripts/build_apk.sh"@,
{
    let android = skill(
        "android-apk-build",
        vec![String::from_str("SKILL.md"), String::from_str("scripts/build_apk.sh")],
    );
    let r = vec![
        android,
        only_skill_md("web-researcher"),
        only_skill_md("code-helper"),
        only_skill_md("translator"),
        only_skill_md("summarizer"),
        only_skill_md("daily-planner"),
        only_skill_md("writing-assistant"),
    ];
    r
}

/// Whether a deployed copy is current: its version file (when it could be
/// read) holds, trimmed, a `u32` at least the bundled version.
pub open spec fn current_version(text: Option<Seq<char>>) -> bool {
    match text {
        Some(t) => match u64_value(trim(t)) {
            Some(n) => n <= u32::MAX && n >= BUNDLED_VERSION,
            None => false,
        },
        None => false,
    }
}

pub fn is_current_version(text: Option<&str>) -> (r: bool)
    ensures
        r == current_version(
            match text {
                Some(t) => Some(t@),
                None => None,
            },
        ),
{
    match text {
        Some(t) => {
            let trimmed = text_trim(t);
            match parse_u64(trimmed.as_str()) {
                Some(n) => n <= 4294967295 && n >= 12,
                None => false,
            }
        },
        None => false,
    }
}

} // verus!
