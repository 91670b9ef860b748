//! What the user is told when the application cannot start, and the checks that guard an
//! isolated release smoke-test root.
use vstd::prelude::*;

use crate::text::{chars_of, concat, slice, starts_with, starts_with_exec, string_of, trim, trim_str};

verus! {

pub const MAX_STARTUP_ERROR_CHARS: usize = 2000;

pub struct StartupFailurePresentation {
    pub title: &'static str,
    pub message: String,
    pub offer_recovery_directory: bool,
}

/// The first 2000 characters of an error.
pub open spec fn error_summary(error: Seq<char>) -> Seq<char> {
    if error.len() <= MAX_STARTUP_ERROR_CHARS {
        error
    } else {
        error.take(MAX_STARTUP_ERROR_CHARS as int)
    }
}

pub open spec fn recovery_message(summary: Seq<char>, dir: Seq<char>) -> Seq<char> {
    "瓦刻无法安全打开。\n\n错误："@ + summary
        + "\n\n为避免继续损坏数据，瓦刻已停止启动且不会自动覆盖数据库。迁移前备份位于：\n"@ + dir
        + "\n\n选择“是”可打开该目录；请保留数据库及 backups 子目录后再进行恢复。"@
}

pub open spec fn early_failure_message(summary: Seq<char>) -> Seq<char> {
    "瓦刻在数据库初始化前启动失败。\n\n错误："@ + summary
        + "\n\n应用数据库和原始视频未被修改。请重新启动应用；若问题持续，请检查安装文件或联系维护者。"@
}

/// A failure with a recovery directory happened once the database was opened: the user is
/// shown where the pre-migration backups are and offered to open that directory. Any other
/// failure happened before the database was touched, and the message says so.
pub fn startup_failure_presentation(error: &str, recovery_dir: Option<&str>) -> (res:
    StartupFailurePresentation)
    ensures
        res.offer_recovery_directory == recovery_dir is Some,
        recovery_dir matches Some(dir) ==> {
            &&& res.title@ == "瓦刻 · 数据库恢复"@
            &&& res.message@ == recovery_message(error_summary(error@), dir@)
        },
        recovery_dir is None ==> {
            &&& res.title@ == "瓦刻 · 启动失败"@
            &&& res.message@ == early_failure_message(error_summary(error@))
        },
{
    let all = chars_of(error);
    let summary = if all.len() <= MAX_STARTUP_ERROR_CHARS {
        all
    } else {
        let s = slice(&all, 0, MAX_STARTUP_ERROR_CHARS);
        assert(s@ =~= all@.take(MAX_STARTUP_ERROR_CHARS as int));
        s
    };
    match recovery_dir {
        Some(dir) => {
            let m1 = concat(&chars_of("瓦刻无法安全打开。\n\n错误："), &summary);
            let m2 = concat(
                &m1,
                &chars_of("\n\n为避免继续损坏数据，瓦刻已停止启动且不会自动覆盖数据库。迁移前备份位于：\n"),
            );
            let m3 = concat(&m2, &chars_of(dir));
            let m4 = concat(
                &m3,
                &chars_of("\n\n选择“是”可打开该目录；请保留数据库及 backups 子目录后再进行恢复。"),
            );
            StartupFailurePresentation {
                title: "瓦刻 · 数据库恢复",
                message: string_of(&m4),
                offer_recovery_directory: true,
            }
        },
        None => {
            let m1 = concat(&chars_of("瓦刻在数据库初始化前启动失败。\n\n错误："), &summary);
            let m2 = concat(
                &m1,
                &chars_of("\n\n应用数据库和原始视频未被修改。请重新启动应用；若问题持续，请检查安装文件或联系维护者。"),
            );
            StartupFailurePresentation {
                title: "瓦刻 · 启动失败",
                message: string_of(&m2),
                offer_recovery_directory: false,
            }
        },
    }
}

// ---------------------------------------------------------------------------------------------
// The release smoke-test root
// ---------------------------------------------------------------------------------------------

pub const RELEASE_SMOKE_ROOT_PREFIX: &'static str = "vhm-release-smoke-";
pub const RELEASE_SMOKE_MARKER_FILE: &'static str = ".vhm-release-smoke-root";
pub const RELEASE_SMOKE_MARKER_CONTENT: &'static str = "vhm-release-smoke-root-v1";

/// A smoke root carries the generated prefix in its name.
pub fn has_release_smoke_name(name: &str) -> (res: bool)
    ensures
        res == starts_with(name@, "vhm-release-smoke-"@),
{
    starts_with_exec(&chars_of(name), &chars_of("vhm-release-smoke-"))
}

/// A fresh smoke root holds exactly the marker file.
pub fn holds_only_marker(entry_names: &Vec<String>) -> (res: bool)
    ensures
        res == (entry_names@.len() == 1 && entry_names@[0]@ == ".vhm-release-smoke-root"@),
{
    entry_names.len() == 1 && crate::text::seq_eq(
        &chars_of(entry_names[0].as_str()),
        &chars_of(".vhm-release-smoke-root"),
    )
}

/// The marker, trimmed, holds exactly the expected content.
pub fn marker_content_ok(content: &str) -> (res: bool)
    ensures
        res == (trim(content@) == "vhm-release-smoke-root-v1"@),
{
    crate::text::seq_eq(&trim_str(content), &chars_of("vhm-release-smoke-root-v1"))
}

/// `Path::starts_with` on component lists: `base`'s components open `path`.
pub open spec fn components_start_with(path: Seq<Seq<char>>, base: Seq<Seq<char>>) -> bool {
    base.len() <= path.len() && path.take(base.len() as int) == base
}

/// A smoke root must neither equal, lie inside, nor contain a protected directory.
pub open spec fn overlaps(root: Seq<Seq<char>>, protected: Seq<Seq<char>>) -> bool {
    root == protected || components_start_with(root, protected) || components_start_with(
        protected,
        root,
    )
}

pub(crate) fn components_prefix(path: &Vec<String>, base: &Vec<String>) -> (res: bool)
    ensures
        res == components_start_with(
            crate::display_names::strings_view(path@),
            crate::display_names::strings_view(base@),
        ),
{
    let ghost pv = crate::display_names::strings_view(path@);
    let ghost bv = crate::display_names::strings_view(base@);
    if base.len() > path.len() {
        return false;
    }
    let mut i: usize = 0;
    while i < base.len()
        invariant
            base@.len() <= path@.len(),
            i <= base@.len(),
            pv == crate::display_names::strings_view(path@),
            bv == crate::display_names::strings_view(base@),
            forall|k: int| 0 <= k < i ==> pv[k] == bv[k],
        decreases base.len() - i,
    {
        if !crate::text::seq_eq(&chars_of(path[i].as_str()), &chars_of(base[i].as_str())) {
            assert(pv.take(bv.len() as int)[i as int] != bv[i as int]);
            return false;
        }
        i = i + 1;
    }
    assert(pv.take(bv.len() as int) =~= bv);
    true
}

/// Whether a smoke root (given by its path components) overlaps a protected directory.
pub fn release_smoke_root_overlaps(root: &Vec<String>, protected: &Vec<String>) -> (res: bool)
    ensures
        res == overlaps(
            crate::display_names::strings_view(root@),
            crate::display_names::strings_view(protected@),
        ),
{
    let a = components_prefix(root, protected);
    let b = components_prefix(protected, root);
    proof {
        let rv = crate::display_names::strings_view(root@);
        let pv = crate::display_names::strings_view(protected@);
        if rv == pv {
            assert(rv.take(pv.len() as int) =~= pv);
        }
    }
    a || b
}

} // verus!
