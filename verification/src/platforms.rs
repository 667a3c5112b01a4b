//! The fixed tables of supported target triples for the standalone
//! installer: one list for targets whose installer is a bare executable,
//! one for targets where it carries an `.exe` extension.

use vstd::prelude::*;
use crate::strutil::vec_contains_str;
use crate::strutil::views_of;

verus! {

/// The target triples whose installer is named without an extension.
pub open spec fn spec_platforms() -> Seq<Seq<char>> {
    seq![
        "aarch64-linux-android"@,
        "aarch64-unknown-linux-gnu"@,
        "arm-linux-androideabi"@,
        "arm-unknown-linux-gnueabi"@,
        "arm-unknown-linux-gnueabihf"@,
        "armv7-linux-androideabi"@,
        "armv7-unknown-linux-gnueabihf"@,
        "i686-apple-darwin"@,
        "i686-linux-android"@,
        "i686-unknown-linux-gnu"@,
        "mips-unknown-linux-gnu"@,
        "mips64-unknown-linux-gnuabi64"@,
        "mips64el-unknown-linux-gnuabi64"@,
        "mipsel-unknown-linux-gnu"@,
        "powerpc-unknown-linux-gnu"@,
        "powerpc64-unknown-linux-gnu"@,
        "powerpc64le-unknown-linux-gnu"@,
        "s390x-unknown-linux-gnu"@,
        "x86_64-apple-darwin"@,
        "x86_64-linux-android"@,
        "x86_64-unknown-freebsd"@,
        "x86_64-unknown-linux-gnu"@,
        "x86_64-unknown-linux-musl"@,
        "x86_64-unknown-netbsd"@,
    ]
}

/// The target triples whose installer carries an `.exe` extension.
pub open spec fn spec_platforms_exe() -> Seq<Seq<char>> {
    seq![
        "i686-pc-windows-gnu"@,
        "i686-pc-windows-msvc"@,
        "x86_64-pc-windows-gnu"@,
        "x86_64-pc-windows-msvc"@,
    ]
}

fn all_platforms() -> (v: Vec<String>)
    ensures
        views_of(v@) =~= spec_platforms(),
{
    let mut v: Vec<String> = Vec::new();
    v.push("aarch64-linux-android".to_owned());
    v.push("aarch64-unknown-linux-gnu".to_owned());
    v.push("arm-linux-androideabi".to_owned());
    v.push("arm-unknown-linux-gnueabi".to_owned());
    v.push("arm-unknown-linux-gnueabihf".to_owned());
    v.push("armv7-linux-androideabi".to_owned());
    v.push("armv7-unknown-linux-gnueabihf".to_owned());
    v.push("i686-apple-darwin".to_owned());
    v.push("i686-linux-android".to_owned());
    v.push("i686-unknown-linux-gnu".to_owned());
    v.push("mips-unknown-linux-gnu".to_owned());
    v.push("mips64-unknown-linux-gnuabi64".to_owned());
    v.push("mips64el-unknown-linux-gnuabi64".to_owned());
    v.push("mipsel-unknown-linux-gnu".to_owned());
    v.push("powerpc-unknown-linux-gnu".to_owned());
    v.push("powerpc64-unknown-linux-gnu".to_owned());
    v.push("powerpc64le-unknown-linux-gnu".to_owned());
    v.push("s390x-unknown-linux-gnu".to_owned());
    v.push("x86_64-apple-darwin".to_owned());
    v.push("x86_64-linux-android".to_owned());
    v.push("x86_64-unknown-freebsd".to_owned());
    v.push("x86_64-unknown-linux-gnu".to_owned());
    v.push("x86_64-unknown-linux-musl".to_owned());
    v.push("x86_64-unknown-netbsd".to_owned());
    v
}

fn all_platforms_exe() -> (v: Vec<String>)
    ensures
        views_of(v@) =~= spec_platforms_exe(),
{
    let mut v: Vec<String> = Vec::new();
    v.push("i686-pc-windows-gnu".to_owned());
    v.push("i686-pc-windows-msvc".to_owned());
    v.push("x86_64-pc-windows-gnu".to_owned());
    v.push("x86_64-pc-windows-msvc".to_owned());
    v
}

/// The platforms a sync run of installer artifacts covers: the whole table,
/// or the selected platform alone if it is in the table, or none.
pub fn get_platforms(target_platform: Option<&str>) -> (r: Vec<String>)
    ensures
        target_platform is None ==> views_of(r@) == spec_platforms(),
        target_platform matches Some(p) ==> (spec_platforms().contains(p@) ==> views_of(r@)
            =~= seq![p@]),
        target_platform matches Some(p) ==> (!spec_platforms().contains(p@) ==> r@.len() == 0),
{
    match target_platform {
        None => all_platforms(),
        Some(p) => {
            let all = all_platforms();
            if vec_contains_str(&all, p) {
                let mut v: Vec<String> = Vec::new();
                v.push(p.to_owned());
                v
            } else {
                Vec::new()
            }
        },
    }
}

/// As [`get_platforms`], over the `.exe` table.
pub fn get_platforms_exe(target_platform: Option<&str>) -> (r: Vec<String>)
    ensures
        target_platform is None ==> views_of(r@) == spec_platforms_exe(),
        target_platform matches Some(p) ==> (spec_platforms_exe().contains(p@) ==> views_of(r@)
            =~= seq![p@]),
        target_platform matches Some(p) ==> (!spec_platforms_exe().contains(p@) ==> r@.len() == 0),
{
    match target_platform {
        None => all_platforms_exe(),
        Some(p) => {
            let all = all_platforms_exe();
            if vec_contains_str(&all, p) {
                let mut v: Vec<String> = Vec::new();
                v.push(p.to_owned());
                v
            } else {
                Vec::new()
            }
        },
    }
}

} // verus!
