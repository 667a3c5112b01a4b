//! The release manifest: its data model, its interpretation from a parsed
//! document, and the resolution of the artifact download list.
//!
//! A manifest names packages; each package names targets; an available
//! target carries a primary archive URL/hash and a compressed counterpart.
//! Resolving strips the source base URL from each artifact URL and
//! deduplicates by relative path, keeping first occurrences in document
//! order.

use vstd::prelude::*;
use crate::errors::SyncError;
use crate::strutil::ends_with;
use crate::strutil::has_substring;
use crate::strutil::starts_with;
use crate::strutil::str_contains;
use crate::strutil::str_ends_with;
use crate::strutil::str_eq;
use crate::strutil::str_starts_with;
use crate::toml_doc::SpecLine;
use crate::toml_doc::TomlLine;
use crate::toml_doc::line_view;
use crate::toml_doc::parse_doc;
use crate::toml_doc::spec_doc;

verus! {

/// URL/hash data of one available target.
pub struct TargetUrls {
    pub url: String,
    pub hash: String,
    pub xz_url: String,
    pub xz_hash: String,
}

/// One target of one package.
pub struct TargetEntry {
    pub name: String,
    pub available: bool,
    pub target_urls: Option<TargetUrls>,
}

/// One package of the manifest.
pub struct Pkg {
    pub name: String,
    pub targets: Vec<TargetEntry>,
}

/// A parsed release manifest.
pub struct Channel {
    pub manifest_version: String,
    pub date: String,
    pub pkg: Vec<Pkg>,
}

#[verifier::ext_equal]
pub struct SpecTargetUrls {
    pub url: Seq<char>,
    pub hash: Seq<char>,
    pub xz_url: Seq<char>,
    pub xz_hash: Seq<char>,
}

#[verifier::ext_equal]
pub struct SpecTargetEntry {
    pub name: Seq<char>,
    pub available: bool,
    pub target_urls: Option<SpecTargetUrls>,
}

#[verifier::ext_equal]
pub struct SpecPkg {
    pub name: Seq<char>,
    pub targets: Seq<SpecTargetEntry>,
}

#[verifier::ext_equal]
pub struct SpecChannel {
    pub manifest_version: Seq<char>,
    pub date: Seq<char>,
    pub pkgs: Seq<SpecPkg>,
}

impl View for TargetUrls {
    type V = SpecTargetUrls;

    open spec fn view(&self) -> SpecTargetUrls {
        SpecTargetUrls {
            url: self.url@,
            hash: self.hash@,
            xz_url: self.xz_url@,
            xz_hash: self.xz_hash@,
        }
    }
}

impl View for TargetEntry {
    type V = SpecTargetEntry;

    open spec fn view(&self) -> SpecTargetEntry {
        SpecTargetEntry {
            name: self.name@,
            available: self.available,
            target_urls: match self.target_urls {
                Some(u) => Some(u@),
                None => None,
            },
        }
    }
}

impl View for Pkg {
    type V = SpecPkg;

    open spec fn view(&self) -> SpecPkg {
        SpecPkg { name: self.name@, targets: self.targets@.map_values(|t: TargetEntry| t@) }
    }
}

impl View for Channel {
    type V = SpecChannel;

    open spec fn view(&self) -> SpecChannel {
        SpecChannel {
            manifest_version: self.manifest_version@,
            date: self.date@,
            pkgs: self.pkg@.map_values(|p: Pkg| p@),
        }
    }
}

// ------------------------------------------------------------------
// Interpretation of a parsed document into a manifest.
// ------------------------------------------------------------------

/// A target while the document is being interpreted: every field optional.
#[verifier::ext_equal]
pub struct AccTarget {
    pub name: Seq<char>,
    pub available: Option<bool>,
    pub url: Option<Seq<char>>,
    pub hash: Option<Seq<char>>,
    pub xz_url: Option<Seq<char>>,
    pub xz_hash: Option<Seq<char>>,
}

#[verifier::ext_equal]
pub struct AccPkg {
    pub name: Seq<char>,
    pub targets: Seq<AccTarget>,
}

#[verifier::ext_equal]
pub struct AccChannel {
    pub manifest_version: Option<Seq<char>>,
    pub date: Option<Seq<char>>,
    pub pkgs: Seq<AccPkg>,
}

/// Which table the lines currently read belong to.
pub enum Ctx {
    Top,
    InPkg(int),
    InTarget(int, int),
    Other,
}

pub struct AccTargetX {
    pub name: String,
    pub available: Option<bool>,
    pub url: Option<String>,
    pub hash: Option<String>,
    pub xz_url: Option<String>,
    pub xz_hash: Option<String>,
}

pub struct AccPkgX {
    pub name: String,
    pub targets: Vec<AccTargetX>,
}

pub struct AccChannelX {
    pub manifest_version: Option<String>,
    pub date: Option<String>,
    pub pkgs: Vec<AccPkgX>,
}

pub enum CtxX {
    Top,
    InPkg(usize),
    InTarget(usize, usize),
    Other,
}

impl View for AccTargetX {
    type V = AccTarget;

    open spec fn view(&self) -> AccTarget {
        AccTarget {
            name: self.name@,
            available: self.available,
            url: match self.url {
                Some(u) => Some(u@),
                None => None,
            },
            hash: match self.hash {
                Some(u) => Some(u@),
                None => None,
            },
            xz_url: match self.xz_url {
                Some(u) => Some(u@),
                None => None,
            },
            xz_hash: match self.xz_hash {
                Some(u) => Some(u@),
                None => None,
            },
        }
    }
}

impl View for AccPkgX {
    type V = AccPkg;

    open spec fn view(&self) -> AccPkg {
        AccPkg { name: self.name@, targets: self.targets@.map_values(|t: AccTargetX| t@) }
    }
}

impl View for AccChannelX {
    type V = AccChannel;

    open spec fn view(&self) -> AccChannel {
        AccChannel {
            manifest_version: match self.manifest_version {
                Some(u) => Some(u@),
                None => None,
            },
            date: match self.date {
                Some(u) => Some(u@),
                None => None,
            },
            pkgs: self.pkgs@.map_values(|p: AccPkgX| p@),
        }
    }
}

impl View for CtxX {
    type V = Ctx;

    open spec fn view(&self) -> Ctx {
        match *self {
            CtxX::Top => Ctx::Top,
            CtxX::InPkg(i) => Ctx::InPkg(i as int),
            CtxX::InTarget(i, t) => Ctx::InTarget(i as int, t as int),
            CtxX::Other => Ctx::Other,
        }
    }
}

/// First index of the package named `name`, else -1.
pub open spec fn pkg_index_from(pkgs: Seq<AccPkg>, name: Seq<char>, i: int) -> int
    decreases pkgs.len() - i when 0 <= i <= pkgs.len()
{
    if i >= pkgs.len() {
        -1
    } else if pkgs[i].name == name {
        i
    } else {
        pkg_index_from(pkgs, name, i + 1)
    }
}

pub open spec fn pkg_index(pkgs: Seq<AccPkg>, name: Seq<char>) -> int {
    pkg_index_from(pkgs, name, 0)
}

/// First index of the target named `name`, else -1.
pub open spec fn target_index_from(ts: Seq<AccTarget>, name: Seq<char>, i: int) -> int
    decreases ts.len() - i when 0 <= i <= ts.len()
{
    if i >= ts.len() {
        -1
    } else if ts[i].name == name {
        i
    } else {
        target_index_from(ts, name, i + 1)
    }
}

pub open spec fn target_index(ts: Seq<AccTarget>, name: Seq<char>) -> int {
    target_index_from(ts, name, 0)
}

pub open spec fn empty_target(name: Seq<char>) -> AccTarget {
    AccTarget { name: name, available: None, url: None, hash: None, xz_url: None, xz_hash: None }
}

/// Packages after entering table `[pkg.<name>]`, and the package's index.
pub open spec fn enter_pkg(pkgs: Seq<AccPkg>, name: Seq<char>) -> (Seq<AccPkg>, int) {
    let i = pkg_index(pkgs, name);
    if i >= 0 {
        (pkgs, i)
    } else {
        (pkgs.push(AccPkg { name: name, targets: seq![] }), pkgs.len() as int)
    }
}

/// Packages after entering table `[pkg.<p>.target.<t>]`, and both indices.
pub open spec fn enter_target(pkgs: Seq<AccPkg>, pname: Seq<char>, tname: Seq<char>) -> (
    Seq<AccPkg>,
    int,
    int,
) {
    let (pkgs1, pi) = enter_pkg(pkgs, pname);
    let ts = pkgs1[pi].targets;
    let ti = target_index(ts, tname);
    if ti >= 0 {
        (pkgs1, pi, ti)
    } else {
        (
            pkgs1.update(pi, AccPkg { name: pkgs1[pi].name, targets: ts.push(empty_target(tname)) }),
            pi,
            ts.len() as int,
        )
    }
}

/// A string-valued field of a target.
pub enum TargetField {
    UrlField,
    HashField,
    XzUrlField,
    XzHashField,
}

pub open spec fn set_target_field(t: AccTarget, f: TargetField, v: Seq<char>) -> AccTarget {
    match f {
        TargetField::UrlField => AccTarget { url: Some(v), ..t },
        TargetField::HashField => AccTarget { hash: Some(v), ..t },
        TargetField::XzUrlField => AccTarget { xz_url: Some(v), ..t },
        TargetField::XzHashField => AccTarget { xz_hash: Some(v), ..t },
    }
}

/// Interpretation of one line against the current state.
pub open spec fn chan_step(acc: AccChannel, ctx: Ctx, l: SpecLine) -> (AccChannel, Ctx) {
    match l {
        SpecLine::Header(path) => {
            if path.len() == 2 && path[0] == "pkg"@ {
                let (pkgs1, pi) = enter_pkg(acc.pkgs, path[1]);
                (AccChannel { pkgs: pkgs1, ..acc }, Ctx::InPkg(pi))
            } else if path.len() == 4 && path[0] == "pkg"@ && path[2] == "target"@ {
                let (pkgs1, pi, ti) = enter_target(acc.pkgs, path[1], path[3]);
                (AccChannel { pkgs: pkgs1, ..acc }, Ctx::InTarget(pi, ti))
            } else {
                (acc, Ctx::Other)
            }
        },
        SpecLine::StrKV(k, v) => {
            match ctx {
                Ctx::Top => {
                    if k == "manifest-version"@ || k == "manifest_version"@ {
                        (AccChannel { manifest_version: Some(v), ..acc }, ctx)
                    } else if k == "date"@ {
                        (AccChannel { date: Some(v), ..acc }, ctx)
                    } else {
                        (acc, ctx)
                    }
                },
                Ctx::InTarget(pi, ti) => {
                    let f = if k == "url"@ {
                        Some(TargetField::UrlField)
                    } else if k == "hash"@ {
                        Some(TargetField::HashField)
                    } else if k == "xz_url"@ {
                        Some(TargetField::XzUrlField)
                    } else if k == "xz_hash"@ {
                        Some(TargetField::XzHashField)
                    } else {
                        None
                    };
                    match f {
                        None => (acc, ctx),
                        Some(f) => {
                            let p = acc.pkgs[pi];
                            let t = set_target_field(p.targets[ti], f, v);
                            (
                                AccChannel {
                                    pkgs: acc.pkgs.update(
                                        pi,
                                        AccPkg { name: p.name, targets: p.targets.update(ti, t) },
                                    ),
                                    ..acc
                                },
                                ctx,
                            )
                        },
                    }
                },
                _ => (acc, ctx),
            }
        },
        SpecLine::BoolKV(k, b) => {
            match ctx {
                Ctx::InTarget(pi, ti) => {
                    if k == "available"@ {
                        let p = acc.pkgs[pi];
                        let t = AccTarget { available: Some(b), ..p.targets[ti] };
                        (
                            AccChannel {
                                pkgs: acc.pkgs.update(
                                    pi,
                                    AccPkg { name: p.name, targets: p.targets.update(ti, t) },
                                ),
                                ..acc
                            },
                            ctx,
                        )
                    } else {
                        (acc, ctx)
                    }
                },
                _ => (acc, ctx),
            }
        },
        _ => (acc, ctx),
    }
}

pub open spec fn empty_acc() -> AccChannel {
    AccChannel { manifest_version: None, date: None, pkgs: seq![] }
}

/// Interpretation of a document: the fold of [`chan_step`] over its lines.
pub open spec fn chan_fold(lines: Seq<SpecLine>, acc: AccChannel, ctx: Ctx) -> (AccChannel, Ctx)
    decreases lines.len(),
{
    if lines.len() == 0 {
        (acc, ctx)
    } else {
        let st = chan_step(acc, ctx, lines[0]);
        chan_fold(lines.skip(1), st.0, st.1)
    }
}

/// A finished target: `available` must have been given; the URL group is
/// kept only when all four fields were given.
pub open spec fn finalize_target(t: AccTarget) -> Option<SpecTargetEntry> {
    match t.available {
        None => None,
        Some(av) => Some(
            SpecTargetEntry {
                name: t.name,
                available: av,
                target_urls: if t.url is Some && t.hash is Some && t.xz_url is Some && t.xz_hash
                    is Some {
                    Some(
                        SpecTargetUrls {
                            url: t.url->Some_0,
                            hash: t.hash->Some_0,
                            xz_url: t.xz_url->Some_0,
                            xz_hash: t.xz_hash->Some_0,
                        },
                    )
                } else {
                    None
                },
            },
        ),
    }
}

pub open spec fn finalize_targets(ts: Seq<AccTarget>) -> Option<Seq<SpecTargetEntry>>
    decreases ts.len(),
{
    if ts.len() == 0 {
        Some(seq![])
    } else {
        match finalize_target(ts[0]) {
            None => None,
            Some(t0) => match finalize_targets(ts.skip(1)) {
                None => None,
                Some(r) => Some(seq![t0] + r),
            },
        }
    }
}

pub open spec fn finalize_pkgs(ps: Seq<AccPkg>) -> Option<Seq<SpecPkg>>
    decreases ps.len(),
{
    if ps.len() == 0 {
        Some(seq![])
    } else {
        match finalize_targets(ps[0].targets) {
            None => None,
            Some(ts) => match finalize_pkgs(ps.skip(1)) {
                None => None,
                Some(r) => Some(seq![SpecPkg { name: ps[0].name, targets: ts }] + r),
            },
        }
    }
}

pub open spec fn finalize_channel(acc: AccChannel) -> Option<SpecChannel> {
    if acc.manifest_version is Some && acc.date is Some {
        match finalize_pkgs(acc.pkgs) {
            None => None,
            Some(ps) => Some(
                SpecChannel {
                    manifest_version: acc.manifest_version->Some_0,
                    date: acc.date->Some_0,
                    pkgs: ps,
                },
            ),
        }
    } else {
        None
    }
}

/// Every line of the document belongs to the dialect.
pub open spec fn doc_ok(text: Seq<char>) -> bool {
    forall|i: int| 0 <= i < spec_doc(text).len() ==> spec_doc(text)[i] != SpecLine::Bad
}

/// The manifest a document denotes, if it parses and carries the required
/// fields.
pub open spec fn spec_parse_channel(text: Seq<char>) -> Option<SpecChannel> {
    if doc_ok(text) {
        finalize_channel(chan_fold(spec_doc(text), empty_acc(), Ctx::Top).0)
    } else {
        None
    }
}

fn find_pkg(pkgs: &Vec<AccPkgX>, name: &str) -> (r: Option<usize>)
    ensures
        match r {
            Some(i) => i < pkgs@.len() && pkg_index(pkgs@.map_values(|p: AccPkgX| p@), name@)
                == i as int,
            None => pkg_index(pkgs@.map_values(|p: AccPkgX| p@), name@) == -1,
        },
{
    find_pkg_from(pkgs, name, 0)
}

fn find_pkg_from(pkgs: &Vec<AccPkgX>, name: &str, i: usize) -> (r: Option<usize>)
    requires
        i <= pkgs@.len(),
    ensures
        match r {
            Some(k) => k < pkgs@.len() && pkg_index_from(
                pkgs@.map_values(|p: AccPkgX| p@),
                name@,
                i as int,
            ) == k as int,
            None => pkg_index_from(pkgs@.map_values(|p: AccPkgX| p@), name@, i as int) == -1,
        },
    decreases pkgs@.len() - i,
{
    if i == pkgs.len() {
        None
    } else if str_eq(pkgs[i].name.as_str(), name) {
        assert(pkgs@.map_values(|p: AccPkgX| p@)[i as int].name == pkgs@[i as int].name@);
        Some(i)
    } else {
        assert(pkgs@.map_values(|p: AccPkgX| p@)[i as int].name == pkgs@[i as int].name@);
        find_pkg_from(pkgs, name, i + 1)
    }
}

fn find_target_from(ts: &Vec<AccTargetX>, name: &str, i: usize) -> (r: Option<usize>)
    requires
        i <= ts@.len(),
    ensures
        match r {
            Some(k) => k < ts@.len() && target_index_from(
                ts@.map_values(|t: AccTargetX| t@),
                name@,
                i as int,
            ) == k as int,
            None => target_index_from(ts@.map_values(|t: AccTargetX| t@), name@, i as int) == -1,
        },
    decreases ts@.len() - i,
{
    if i == ts.len() {
        None
    } else if str_eq(ts[i].name.as_str(), name) {
        assert(ts@.map_values(|t: AccTargetX| t@)[i as int].name == ts@[i as int].name@);
        Some(i)
    } else {
        assert(ts@.map_values(|t: AccTargetX| t@)[i as int].name == ts@[i as int].name@);
        find_target_from(ts, name, i + 1)
    }
}

/// One interpretation step; mirrors [`chan_step`].
fn chan_step_exec(acc: AccChannelX, ctx: CtxX, l: &TomlLine) -> (r: (AccChannelX, CtxX))
    requires
        ctx@ matches Ctx::InPkg(i) ==> 0 <= i < acc@.pkgs.len(),
        ctx@ matches Ctx::InTarget(i, t) ==> 0 <= i < acc@.pkgs.len() && 0 <= t
            < acc@.pkgs[i].targets.len(),
    ensures
        (r.0@, r.1@) == chan_step(acc@, ctx@, line_view(*l)),
        r.1@ matches Ctx::InPkg(i) ==> 0 <= i < r.0@.pkgs.len(),
        r.1@ matches Ctx::InTarget(i, t) ==> 0 <= i < r.0@.pkgs.len() && 0 <= t
            < r.0@.pkgs[i].targets.len(),
{
    let ghost acc0 = acc@;
    let ghost ctx0 = ctx@;
    let mut acc = acc;
    match l {
        TomlLine::Header(path) => {
            proof {
                assert forall|i: int| 0 <= i < path@.len() implies #[trigger] crate::strutil::views_of(
                    path@,
                )[i] == path@[i]@ by {}
            }
            if path.len() == 2 && str_eq(path[0].as_str(), "pkg") {
                match find_pkg(&acc.pkgs, path[1].as_str()) {
                    Some(i) => {
                        proof {
                            assert((acc@, Ctx::InPkg(i as int)) == chan_step(
                                acc0,
                                ctx0,
                                line_view(*l),
                            ));
                        }
                        (acc, CtxX::InPkg(i))
                    },
                    None => {
                        let i = acc.pkgs.len();
                        acc.pkgs.push(AccPkgX { name: path[1].clone(), targets: Vec::new() });
                        proof {
                            assert(acc@.pkgs =~~= acc0.pkgs.push(
                                AccPkg { name: path@[1]@, targets: seq![] },
                            ));
                            assert((acc@, Ctx::InPkg(i as int)) =~~= chan_step(
                                acc0,
                                ctx0,
                                line_view(*l),
                            ));
                        }
                        (acc, CtxX::InPkg(i))
                    },
                }
            } else if path.len() == 4 && str_eq(path[0].as_str(), "pkg") && str_eq(
                path[2].as_str(),
                "target",
            ) {
                let pi: usize = match find_pkg(&acc.pkgs, path[1].as_str()) {
                    Some(i) => i,
                    None => {
                        let i = acc.pkgs.len();
                        acc.pkgs.push(AccPkgX { name: path[1].clone(), targets: Vec::new() });
                        i
                    },
                };
                proof {
                    assert(acc@.pkgs =~~= enter_pkg(acc0.pkgs, path@[1]@).0);
                    assert(pi as int == enter_pkg(acc0.pkgs, path@[1]@).1);
                }
                let ghost pkgs1 = acc@.pkgs;
                let pr = &mut acc.pkgs[pi];
                let ghost ts0 = pr@.targets;
                let ti: usize = match find_target_from(&pr.targets, path[3].as_str(), 0) {
                    Some(t) => t,
                    None => {
                        let t = pr.targets.len();
                        pr.targets.push(
                            AccTargetX {
                                name: path[3].clone(),
                                available: None,
                                url: None,
                                hash: None,
                                xz_url: None,
                                xz_hash: None,
                            },
                        );
                        t
                    },
                };
                proof {
                    let et = enter_target(acc0.pkgs, path@[1]@, path@[3]@);
                    assert(acc@.pkgs =~~= et.0);
                    assert((acc@, Ctx::InTarget(pi as int, ti as int)) =~~= chan_step(
                        acc0,
                        ctx0,
                        line_view(*l),
                    ));
                }
                (acc, CtxX::InTarget(pi, ti))
            } else {
                (acc, CtxX::Other)
            }
        },
        TomlLine::StrKV(k, v) => {
            match ctx {
                CtxX::Top => {
                    if str_eq(k.as_str(), "manifest-version") || str_eq(
                        k.as_str(),
                        "manifest_version",
                    ) {
                        acc.manifest_version = Some(v.clone());
                        proof {
                            assert((acc@, ctx0) =~~= chan_step(
                                acc0,
                                ctx0,
                                SpecLine::StrKV(k@, v@),
                            ));
                        }
                        (acc, CtxX::Top)
                    } else if str_eq(k.as_str(), "date") {
                        acc.date = Some(v.clone());
                        (acc, CtxX::Top)
                    } else {
                        (acc, CtxX::Top)
                    }
                },
                CtxX::InTarget(pi, ti) => {
                    let f: Option<TargetField> = if str_eq(k.as_str(), "url") {
                        Some(TargetField::UrlField)
                    } else if str_eq(k.as_str(), "hash") {
                        Some(TargetField::HashField)
                    } else if str_eq(k.as_str(), "xz_url") {
                        Some(TargetField::XzUrlField)
                    } else if str_eq(k.as_str(), "xz_hash") {
                        Some(TargetField::XzHashField)
                    } else {
                        None
                    };
                    match f {
                        None => (acc, CtxX::InTarget(pi, ti)),
                        Some(f) => {
                            let pr = &mut acc.pkgs[pi];
                            let tr = &mut pr.targets[ti];
                            match f {
                                TargetField::UrlField => tr.url = Some(v.clone()),
                                TargetField::HashField => tr.hash = Some(v.clone()),
                                TargetField::XzUrlField => tr.xz_url = Some(v.clone()),
                                TargetField::XzHashField => tr.xz_hash = Some(v.clone()),
                            }
                            proof {
                                assert((acc@, ctx0) =~~= chan_step(
                                    acc0,
                                    ctx0,
                                    SpecLine::StrKV(k@, v@),
                                ));
                            }
                            (acc, CtxX::InTarget(pi, ti))
                        },
                    }
                },
                CtxX::InPkg(i) => (acc, CtxX::InPkg(i)),
                CtxX::Other => (acc, CtxX::Other),
            }
        },
        TomlLine::BoolKV(k, b) => {
            match ctx {
                CtxX::InTarget(pi, ti) => {
                    if str_eq(k.as_str(), "available") {
                        let pr = &mut acc.pkgs[pi];
                        let tr = &mut pr.targets[ti];
                        tr.available = Some(*b);
                        proof {
                            assert((acc@, ctx0) =~~= chan_step(
                                acc0,
                                ctx0,
                                SpecLine::BoolKV(k@, *b),
                            ));
                        }
                        (acc, CtxX::InTarget(pi, ti))
                    } else {
                        (acc, CtxX::InTarget(pi, ti))
                    }
                },
                CtxX::Top => (acc, CtxX::Top),
                CtxX::InPkg(i) => (acc, CtxX::InPkg(i)),
                CtxX::Other => (acc, CtxX::Other),
            }
        },
        TomlLine::Blank => (acc, ctx),
        TomlLine::ArrKV(_, _) => (acc, ctx),
    }
}

/// Fold a parsed document into the interpretation state.
fn interpret_channel(lines: &Vec<TomlLine>) -> (r: AccChannelX)
    ensures
        r@ == chan_fold(lines@.map_values(|l: TomlLine| line_view(l)), empty_acc(), Ctx::Top).0,
{
    let ghost doc = lines@.map_values(|l: TomlLine| line_view(l));
    let mut acc = AccChannelX { manifest_version: None, date: None, pkgs: Vec::new() };
    let mut ctx = CtxX::Top;
    proof {
        assert(acc@ =~~= empty_acc());
        assert(doc.skip(0) =~= doc);
    }
    let mut i: usize = 0;
    while i < lines.len()
        invariant
            i <= lines@.len(),
            doc == lines@.map_values(|l: TomlLine| line_view(l)),
            chan_fold(doc, empty_acc(), Ctx::Top) == chan_fold(doc.skip(i as int), acc@, ctx@),
            ctx@ matches Ctx::InPkg(pi) ==> 0 <= pi < acc@.pkgs.len(),
            ctx@ matches Ctx::InTarget(pi, ti) ==> 0 <= pi < acc@.pkgs.len() && 0 <= ti
                < acc@.pkgs[pi].targets.len(),
        decreases lines@.len() - i,
    {
        proof {
            assert(doc.skip(i as int)[0] == doc[i as int]);
            assert(doc[i as int] == line_view(lines@[i as int]));
            assert(doc.skip(i as int).skip(1) =~= doc.skip(i as int + 1));
        }
        let st = chan_step_exec(acc, ctx, &lines[i]);
        acc = st.0;
        ctx = st.1;
        i += 1;
    }
    proof {
        assert(doc.skip(lines@.len() as int) =~= Seq::<SpecLine>::empty());
    }
    acc
}

/// Check required fields and shed the interpretation scaffolding.
fn finalize_exec(acc: &AccChannelX) -> (r: Result<Channel, SyncError>)
    ensures
        match finalize_channel(acc@) {
            Some(c) => r matches Ok(ch) && ch@ == c,
            None => r matches Err(e) && e == SyncError::Parse,
        },
{
    let mv: String = match &acc.manifest_version {
        Some(u) => u.clone(),
        None => {
            return Err(SyncError::Parse);
        },
    };
    let date: String = match &acc.date {
        Some(u) => u.clone(),
        None => {
            return Err(SyncError::Parse);
        },
    };
    let mut pkgs_out: Vec<Pkg> = Vec::new();
    let ghost psv = acc@.pkgs;
    proof {
        assert(psv.skip(0) =~= psv);
    }
    let mut i: usize = 0;
    while i < acc.pkgs.len()
        invariant
            i <= acc@.pkgs.len(),
            psv == acc@.pkgs,
            finalize_pkgs(psv) == (match finalize_pkgs(psv.skip(i as int)) {
                None => None::<Seq<SpecPkg>>,
                Some(r) => Some(pkgs_out@.map_values(|p: Pkg| p@) + r),
            }),
        decreases acc@.pkgs.len() - i,
    {
        proof {
            assert(psv.skip(i as int)[0] == psv[i as int]);
            assert(psv[i as int] == acc.pkgs@[i as int]@);
            assert(psv.skip(i as int).skip(1) =~= psv.skip(i as int + 1));
        }
        let p = &acc.pkgs[i];
        let ghost tsv = p@.targets;
        proof {
            assert(tsv.skip(0) =~= tsv);
        }
        let mut targets_out: Vec<TargetEntry> = Vec::new();
        let mut j: usize = 0;
        while j < p.targets.len()
            invariant
                j <= p@.targets.len(),
                tsv == p@.targets,
                psv == acc@.pkgs,
                i < psv.len(),
                psv[i as int] == p@,
                finalize_pkgs(psv) == (match finalize_pkgs(psv.skip(i as int)) {
                    None => None::<Seq<SpecPkg>>,
                    Some(r) => Some(pkgs_out@.map_values(|q: Pkg| q@) + r),
                }),
                finalize_targets(tsv) == (match finalize_targets(tsv.skip(j as int)) {
                    None => None::<Seq<SpecTargetEntry>>,
                    Some(r) => Some(targets_out@.map_values(|t: TargetEntry| t@) + r),
                }),
            decreases p@.targets.len() - j,
        {
            proof {
                assert(tsv.skip(j as int)[0] == tsv[j as int]);
                assert(tsv[j as int] == p.targets@[j as int]@);
                assert(tsv.skip(j as int).skip(1) =~= tsv.skip(j as int + 1));
            }
            let t = &p.targets[j];
            let av: bool = match t.available {
                Some(b) => b,
                None => {
                    proof {
                        assert(finalize_targets(tsv.skip(j as int)) is None);
                        assert(finalize_targets(tsv) is None);
                        assert(psv.skip(i as int)[0] == psv[i as int]);
                        assert(finalize_pkgs(psv.skip(i as int)) is None);
                        assert(finalize_pkgs(psv) is None);
                    }
                    return Err(SyncError::Parse);
                },
            };
            let urls: Option<TargetUrls> = if t.url.is_some() && t.hash.is_some()
                && t.xz_url.is_some() && t.xz_hash.is_some() {
                Some(
                    TargetUrls {
                        url: match &t.url {
                            Some(u) => u.clone(),
                            None => unreached(),
                        },
                        hash: match &t.hash {
                            Some(u) => u.clone(),
                            None => unreached(),
                        },
                        xz_url: match &t.xz_url {
                            Some(u) => u.clone(),
                            None => unreached(),
                        },
                        xz_hash: match &t.xz_hash {
                            Some(u) => u.clone(),
                            None => unreached(),
                        },
                    },
                )
            } else {
                None
            };
            let entry = TargetEntry { name: t.name.clone(), available: av, target_urls: urls };
            proof {
                assert(entry@ =~~= finalize_target(tsv[j as int])->Some_0);
                assert((targets_out@.map_values(|t: TargetEntry| t@)).push(entry@)
                    =~= targets_out@.map_values(|t: TargetEntry| t@) + seq![entry@]);
                assert(targets_out@.push(entry).map_values(|t: TargetEntry| t@)
                    =~= (targets_out@.map_values(|t: TargetEntry| t@)).push(entry@));
            }
            targets_out.push(entry);
            j += 1;
        }
        proof {
            assert(tsv.skip(p@.targets.len() as int) =~= Seq::<AccTarget>::empty());
        }
        let pkg_entry = Pkg { name: p.name.clone(), targets: targets_out };
        proof {
            assert(finalize_targets(tsv) == Some(
                pkg_entry@.targets,
            ));
            assert(pkg_entry@ =~~= SpecPkg {
                name: psv[i as int].name,
                targets: finalize_targets(psv[i as int].targets)->Some_0,
            });
            assert(pkgs_out@.push(pkg_entry).map_values(|p: Pkg| p@) =~= (pkgs_out@.map_values(
                |p: Pkg| p@,
            )).push(pkg_entry@));
            assert((pkgs_out@.map_values(|p: Pkg| p@)).push(pkg_entry@) =~= pkgs_out@.map_values(
                |p: Pkg| p@,
            ) + seq![pkg_entry@]);
        }
        pkgs_out.push(pkg_entry);
        i += 1;
    }
    proof {
        assert(psv.skip(acc@.pkgs.len() as int) =~= Seq::<AccPkg>::empty());
    }
    let ch = Channel { manifest_version: mv, date: date, pkg: pkgs_out };
    proof {
        assert(ch@ =~~= finalize_channel(acc@)->Some_0);
    }
    Ok(ch)
}

/// Parse a manifest document.
pub fn parse_channel(text: &str) -> (r: Result<Channel, SyncError>)
    ensures
        match spec_parse_channel(text@) {
            Some(c) => r matches Ok(ch) && ch@ == c,
            None => r matches Err(e) && e == SyncError::Parse,
        },
{
    match parse_doc(text) {
        None => {
            proof {
                assert(!doc_ok(text@));
            }
            Err(SyncError::Parse)
        },
        Some(lines) => {
            proof {
                assert forall|i: int| 0 <= i < spec_doc(text@).len() implies spec_doc(text@)[i]
                    != SpecLine::Bad by {
                    assert(spec_doc(text@)[i] == line_view(lines@[i]));
                }
            }
            let acc = interpret_channel(&lines);
            finalize_exec(&acc)
        },
    }
}

// ------------------------------------------------------------------
// Resolution of the artifact download list.
// ------------------------------------------------------------------

/// `s` without its leading `'/'` characters.
pub open spec fn trim_slashes(s: Seq<char>) -> Seq<char>
    decreases s.len(),
{
    if s.len() > 0 && s[0] == '/' {
        trim_slashes(s.skip(1))
    } else {
        s
    }
}

/// An artifact URL as a relative path: the source base URL prefix stripped
/// when present, then any leading separator removed.
pub open spec fn strip_source(u: Seq<char>, src: Seq<char>) -> Seq<char> {
    trim_slashes(
        if starts_with(u, src) {
            u.skip(src.len() as int)
        } else {
            u
        },
    )
}

fn strip_source_exec(u: &str, src: &str) -> (r: String)
    ensures
        r@ == strip_source(u@, src@),
{
    let n = u.unicode_len();
    let start: usize = if str_starts_with(u, src) {
        src.unicode_len()
    } else {
        0
    };
    proof {
        assert(u@.skip(0) =~= u@);
    }
    let mut k = start;
    while k < n && u.get_char(k) == '/'
        invariant
            start <= k <= n,
            n == u@.len(),
            trim_slashes(u@.skip(start as int)) == trim_slashes(u@.skip(k as int)),
        decreases n - k,
    {
        proof {
            assert(u@.skip(k as int)[0] == u@[k as int]);
            assert(u@.skip(k as int).skip(1) =~= u@.skip(k as int + 1));
        }
        k += 1;
    }
    proof {
        if k < n {
            assert(u@.skip(k as int)[0] == u@[k as int]);
        }
        assert(trim_slashes(u@.skip(k as int)) == u@.skip(k as int));
        assert(u@.subrange(k as int, n as int) =~= u@.skip(k as int));
    }
    u.substring_char(k, n).to_owned()
}

/// Views of a list of `(relative_path, hash)` pairs.
pub open spec fn pairs_view(v: Seq<(String, String)>) -> Seq<(Seq<char>, Seq<char>)> {
    v.map_values(|p: (String, String)| (p.0@, p.1@))
}

/// The artifacts one target contributes: the primary archive and its
/// compressed counterpart, or nothing when unavailable or URL-less.
pub open spec fn target_pairs(t: SpecTargetEntry, src: Seq<char>) -> Seq<(Seq<char>, Seq<char>)> {
    if t.available && t.target_urls is Some {
        let u = t.target_urls->Some_0;
        seq![
            (strip_source(u.url, src), u.hash),
            (strip_source(u.xz_url, src), u.xz_hash),
        ]
    } else {
        seq![]
    }
}

pub open spec fn targets_pairs(ts: Seq<SpecTargetEntry>, src: Seq<char>) -> Seq<
    (Seq<char>, Seq<char>),
>
    decreases ts.len(),
{
    if ts.len() == 0 {
        seq![]
    } else {
        target_pairs(ts[0], src) + targets_pairs(ts.skip(1), src)
    }
}

pub open spec fn pkgs_pairs(ps: Seq<SpecPkg>, src: Seq<char>) -> Seq<(Seq<char>, Seq<char>)>
    decreases ps.len(),
{
    if ps.len() == 0 {
        seq![]
    } else {
        targets_pairs(ps[0].targets, src) + pkgs_pairs(ps.skip(1), src)
    }
}

/// Keep the first occurrence of every relative path; `seen` holds the paths
/// already emitted.
pub open spec fn dedup_from(
    l: Seq<(Seq<char>, Seq<char>)>,
    seen: Seq<Seq<char>>,
) -> Seq<(Seq<char>, Seq<char>)>
    decreases l.len(),
{
    if l.len() == 0 {
        seq![]
    } else if seen.contains(l[0].0) {
        dedup_from(l.skip(1), seen)
    } else {
        seq![l[0]] + dedup_from(l.skip(1), seen.push(l[0].0))
    }
}

/// The resolved download list of a manifest: every available target's two
/// artifacts in document order, deduplicated by relative path.
pub open spec fn spec_download_pairs(c: SpecChannel, src: Seq<char>) -> Seq<
    (Seq<char>, Seq<char>),
> {
    dedup_from(pkgs_pairs(c.pkgs, src), seq![])
}

fn channel_pairs(c: &Channel, source: &str) -> (r: Vec<(String, String)>)
    ensures
        pairs_view(r@) == pkgs_pairs(c@.pkgs, source@),
{
    let ghost psv = c@.pkgs;
    let mut out: Vec<(String, String)> = Vec::new();
    proof {
        assert(psv.skip(0) =~= psv);
        assert(pairs_view(out@) =~= Seq::<(Seq<char>, Seq<char>)>::empty());
    }
    let mut i: usize = 0;
    while i < c.pkg.len()
        invariant
            i <= c@.pkgs.len(),
            psv == c@.pkgs,
            pkgs_pairs(psv, source@) == pairs_view(out@) + pkgs_pairs(
                psv.skip(i as int),
                source@,
            ),
        decreases c@.pkgs.len() - i,
    {
        proof {
            assert(psv.skip(i as int)[0] == psv[i as int]);
            assert(psv[i as int] == c.pkg@[i as int]@);
            assert(psv.skip(i as int).skip(1) =~= psv.skip(i as int + 1));
        }
        let p = &c.pkg[i];
        let ghost tsv = p@.targets;
        proof {
            assert(tsv.skip(0) =~= tsv);
        }
        let mut j: usize = 0;
        while j < p.targets.len()
            invariant
                j <= p@.targets.len(),
                tsv == p@.targets,
                psv == c@.pkgs,
                i < psv.len(),
                psv[i as int] == p@,
                pkgs_pairs(psv, source@) == pairs_view(out@) + targets_pairs(
                    tsv.skip(j as int),
                    source@,
                ) + pkgs_pairs(psv.skip(i as int + 1), source@),
            decreases p@.targets.len() - j,
        {
            proof {
                assert(tsv.skip(j as int)[0] == tsv[j as int]);
                assert(tsv[j as int] == p.targets@[j as int]@);
                assert(tsv.skip(j as int).skip(1) =~= tsv.skip(j as int + 1));
            }
            let t = &p.targets[j];
            if t.available {
                match &t.target_urls {
                    Some(u) => {
                        let p1 = (strip_source_exec(u.url.as_str(), source), u.hash.clone());
                        let p2 = (
                            strip_source_exec(u.xz_url.as_str(), source),
                            u.xz_hash.clone(),
                        );
                        let ghost out0 = out@;
                        out.push(p1);
                        out.push(p2);
                        proof {
                            assert(pairs_view(out@) =~= pairs_view(out0) + target_pairs(
                                tsv[j as int],
                                source@,
                            ));
                        }
                    },
                    None => {
                        proof {
                            assert(target_pairs(tsv[j as int], source@) =~= Seq::<
                                (Seq<char>, Seq<char>),
                            >::empty());
                        }
                    },
                }
            } else {
                proof {
                    assert(target_pairs(tsv[j as int], source@) =~= Seq::<
                        (Seq<char>, Seq<char>),
                    >::empty());
                }
            }
            proof {
                assert(pkgs_pairs(psv, source@) =~= pairs_view(out@) + targets_pairs(
                    tsv.skip(j as int + 1),
                    source@,
                ) + pkgs_pairs(psv.skip(i as int + 1), source@));
            }
            j += 1;
        }
        proof {
            assert(tsv.skip(p@.targets.len() as int) =~= Seq::<SpecTargetEntry>::empty());
            assert(pkgs_pairs(psv, source@) =~= pairs_view(out@) + pkgs_pairs(
                psv.skip(i as int + 1),
                source@,
            ));
        }
        i += 1;
    }
    proof {
        assert(psv.skip(c@.pkgs.len() as int) =~= Seq::<SpecPkg>::empty());
        assert(pkgs_pairs(psv, source@) =~= pairs_view(out@));
    }
    out
}

fn dedup_pairs(v: &Vec<(String, String)>) -> (r: Vec<(String, String)>)
    ensures
        pairs_view(r@) == dedup_from(pairs_view(v@), seq![]),
{
    let ghost full = pairs_view(v@);
    let mut out: Vec<(String, String)> = Vec::new();
    let mut seen: Vec<String> = Vec::new();
    proof {
        assert(full.skip(0) =~= full);
        assert(pairs_view(out@) =~= Seq::<(Seq<char>, Seq<char>)>::empty());
        assert(crate::strutil::views_of(seen@) =~= Seq::<Seq<char>>::empty());
    }
    let mut i: usize = 0;
    while i < v.len()
        invariant
            i <= v@.len(),
            full == pairs_view(v@),
            dedup_from(full, seq![]) == pairs_view(out@) + dedup_from(
                full.skip(i as int),
                crate::strutil::views_of(seen@),
            ),
        decreases v@.len() - i,
    {
        proof {
            assert(full.skip(i as int)[0] == full[i as int]);
            assert(full[i as int] == (v@[i as int].0@, v@[i as int].1@));
            assert(full.skip(i as int).skip(1) =~= full.skip(i as int + 1));
        }
        if !crate::strutil::vec_contains_str(&seen, v[i].0.as_str()) {
            let ghost out0 = out@;
            let ghost seen0 = seen@;
            out.push((v[i].0.clone(), v[i].1.clone()));
            seen.push(v[i].0.clone());
            proof {
                assert(pairs_view(out@) =~= pairs_view(out0) + seq![full[i as int]]);
                assert(crate::strutil::views_of(seen@) =~= crate::strutil::views_of(seen0).push(
                    full[i as int].0,
                ));
            }
        }
        i += 1;
    }
    proof {
        assert(full.skip(v@.len() as int) =~= Seq::<(Seq<char>, Seq<char>)>::empty());
        assert(dedup_from(full, seq![]) =~= pairs_view(out@));
    }
    out
}

/// Resolve a manifest document into its release date and deduplicated
/// download list of `(relative_path, hash)` pairs.
pub fn rustup_download_list(channel_str: &str, source: &str) -> (r: Result<
    (String, Vec<(String, String)>),
    SyncError,
>)
    ensures
        match spec_parse_channel(channel_str@) {
            Some(c) => r matches Ok(p) && p.0@ == c.date && pairs_view(p.1@)
                == spec_download_pairs(c, source@),
            None => r matches Err(e) && e == SyncError::Parse,
        },
{
    match parse_channel(channel_str) {
        Err(e) => Err(e),
        Ok(ch) => {
            let raw = channel_pairs(&ch, source);
            let files = dedup_pairs(&raw);
            Ok((ch.date, files))
        },
    }
}

/// The resolved download list never names one relative path twice, and
/// names no path already emitted: each worker of a batch therefore writes
/// a distinct file.
pub proof fn lemma_dedup_paths_distinct(l: Seq<(Seq<char>, Seq<char>)>, seen: Seq<Seq<char>>)
    ensures
        forall|i: int, j: int|
            0 <= i < j < dedup_from(l, seen).len() ==> (#[trigger] dedup_from(l, seen)[i]).0 != (
            #[trigger] dedup_from(l, seen)[j]).0,
        forall|i: int|
            0 <= i < dedup_from(l, seen).len() ==> !seen.contains(
                (#[trigger] dedup_from(l, seen)[i]).0,
            ),
    decreases l.len(),
{
    if l.len() == 0 {
    } else if seen.contains(l[0].0) {
        lemma_dedup_paths_distinct(l.skip(1), seen);
        assert(dedup_from(l, seen) == dedup_from(l.skip(1), seen));
    } else {
        let seen1 = seen.push(l[0].0);
        lemma_dedup_paths_distinct(l.skip(1), seen1);
        crate::strutil::lemma_push_contains(seen, l[0].0);
        let d = dedup_from(l, seen);
        let rest = dedup_from(l.skip(1), seen1);
        assert(d == seq![l[0]] + rest);
        assert(d[0] == l[0]);
        assert forall|i: int, j: int| 0 <= i < j < d.len() implies (#[trigger] d[i]).0 != (
        #[trigger] d[j]).0 by {
            if i == 0 {
                assert(d[i] == l[0]);
                assert(d[j] == rest[j - 1]);
                assert(!seen1.contains(rest[j - 1].0));
                assert(seen1.contains(l[0].0));
            } else {
                assert(d[i] == rest[i - 1]);
                assert(d[j] == rest[j - 1]);
            }
        }
        assert forall|i: int| 0 <= i < d.len() implies !seen.contains((#[trigger] d[i]).0) by {
            if i > 0 {
                assert(d[i] == rest[i - 1]);
                assert(!seen1.contains(rest[i - 1].0));
            } else {
                assert(d[i] == l[0]);
            }
        }
    }
}

/// No two artifacts of a resolved download list share a relative path.
pub proof fn lemma_download_list_paths_unique(c: SpecChannel, src: Seq<char>)
    ensures
        forall|i: int, j: int|
            0 <= i < j < spec_download_pairs(c, src).len() ==> (#[trigger] spec_download_pairs(
                c,
                src,
            )[i]).0 != (#[trigger] spec_download_pairs(c, src)[j]).0,
{
    lemma_dedup_paths_distinct(pkgs_pairs(c.pkgs, src), seq![]);
}

/// Restriction of a download list to paths containing `pat`.
pub open spec fn filter_platform(
    l: Seq<(Seq<char>, Seq<char>)>,
    pat: Seq<char>,
) -> Seq<(Seq<char>, Seq<char>)>
    decreases l.len(),
{
    if l.len() == 0 {
        seq![]
    } else {
        (if has_substring(l[0].0, pat) {
            seq![l[0]]
        } else {
            seq![]
        }) + filter_platform(l.skip(1), pat)
    }
}

/// Restriction of a download list to paths ending in `ext`.
pub open spec fn filter_extension(
    l: Seq<(Seq<char>, Seq<char>)>,
    ext: Seq<char>,
) -> Seq<(Seq<char>, Seq<char>)>
    decreases l.len(),
{
    if l.len() == 0 {
        seq![]
    } else {
        (if ends_with(l[0].0, ext) {
            seq![l[0]]
        } else {
            seq![]
        }) + filter_extension(l.skip(1), ext)
    }
}

/// Keep only the files whose relative path contains the platform string.
pub fn filter_files_by_platform(files: &Vec<(String, String)>, platform: &str) -> (r: Vec<
    (String, String),
>)
    ensures
        pairs_view(r@) == filter_platform(pairs_view(files@), platform@),
{
    let ghost full = pairs_view(files@);
    let mut out: Vec<(String, String)> = Vec::new();
    proof {
        assert(full.skip(0) =~= full);
        assert(pairs_view(out@) =~= Seq::<(Seq<char>, Seq<char>)>::empty());
    }
    let mut i: usize = 0;
    while i < files.len()
        invariant
            i <= files@.len(),
            full == pairs_view(files@),
            filter_platform(full, platform@) == pairs_view(out@) + filter_platform(
                full.skip(i as int),
                platform@,
            ),
        decreases files@.len() - i,
    {
        proof {
            assert(full.skip(i as int)[0] == full[i as int]);
            assert(full[i as int] == (files@[i as int].0@, files@[i as int].1@));
            assert(full.skip(i as int).skip(1) =~= full.skip(i as int + 1));
        }
        if str_contains(files[i].0.as_str(), platform) {
            let ghost out0 = out@;
            out.push((files[i].0.clone(), files[i].1.clone()));
            proof {
                assert(pairs_view(out@) =~= pairs_view(out0) + seq![full[i as int]]);
            }
        }
        i += 1;
    }
    proof {
        assert(full.skip(files@.len() as int) =~= Seq::<(Seq<char>, Seq<char>)>::empty());
        assert(filter_platform(full, platform@) =~= pairs_view(out@));
    }
    out
}

/// Keep only the files whose relative path ends in the extension.
pub fn filter_files_by_extension(files: &Vec<(String, String)>, extension: &str) -> (r: Vec<
    (String, String),
>)
    ensures
        pairs_view(r@) == filter_extension(pairs_view(files@), extension@),
{
    let ghost full = pairs_view(files@);
    let mut out: Vec<(String, String)> = Vec::new();
    proof {
        assert(full.skip(0) =~= full);
        assert(pairs_view(out@) =~= Seq::<(Seq<char>, Seq<char>)>::empty());
    }
    let mut i: usize = 0;
    while i < files.len()
        invariant
            i <= files@.len(),
            full == pairs_view(files@),
            filter_extension(full, extension@) == pairs_view(out@) + filter_extension(
                full.skip(i as int),
                extension@,
            ),
        decreases files@.len() - i,
    {
        proof {
            assert(full.skip(i as int)[0] == full[i as int]);
            assert(full[i as int] == (files@[i as int].0@, files@[i as int].1@));
            assert(full.skip(i as int).skip(1) =~= full.skip(i as int + 1));
        }
        if str_ends_with(files[i].0.as_str(), extension) {
            let ghost out0 = out@;
            out.push((files[i].0.clone(), files[i].1.clone()));
            proof {
                assert(pairs_view(out@) =~= pairs_view(out0) + seq![full[i as int]]);
            }
        }
        i += 1;
    }
    proof {
        assert(full.skip(files@.len() as int) =~= Seq::<(Seq<char>, Seq<char>)>::empty());
        assert(filter_extension(full, extension@) =~= pairs_view(out@));
    }
    out
}

} // verus!
